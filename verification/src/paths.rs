//! Path texts: file extensions and paths shown relative to a base.
use vstd::prelude::*;

use crate::security::{components, path_components, path_has_prefix};
use crate::text::{push_char, string_from_chars, string_from_range, to_chars, views, owned};

verus! {

/// Position of the last `.` in `name`, if any.
pub open spec fn last_dot(name: Seq<char>) -> Option<int>
    decreases name.len(),
{
    if name.len() == 0 {
        None
    } else if name.last() == '.' {
        Some(name.len() - 1)
    } else {
        last_dot(name.drop_last())
    }
}

/// `Path::extension` of a file name: the text after the last `.`, unless
/// there is no `.`, the only `.` leads the name, or the name is `..`.
pub open spec fn extension_of(name: Seq<char>) -> Option<Seq<char>> {
    if name == seq!['.', '.'] {
        None
    } else {
        match last_dot(name) {
            None => None,
            Some(k) => if k == 0 {
                None
            } else {
                Some(name.skip(k + 1))
            },
        }
    }
}

proof fn lemma_last_dot(name: Seq<char>)
    ensures
        match last_dot(name) {
            Some(k) => 0 <= k < name.len() && name[k] == '.' && forall|j: int|
                k < j < name.len() ==> name[j] != '.',
            None => forall|j: int| 0 <= j < name.len() ==> name[j] != '.',
        },
    decreases name.len(),
{
    if name.len() > 0 && name.last() != '.' {
        lemma_last_dot(name.drop_last());
        assert forall|j: int| 0 <= j < name.len() - 1 implies name[j] == name.drop_last()[j] by {}
    }
}

proof fn lemma_last_dot_at(name: Seq<char>, k: int)
    requires
        0 <= k < name.len(),
        name[k] == '.',
        forall|j: int| k < j < name.len() ==> name[j] != '.',
    ensures
        last_dot(name) == Some(k),
    decreases name.len(),
{
    if name.last() != '.' {
        lemma_last_dot_at(name.drop_last(), k);
    }
}

/// The extension of a file name (`Path::extension`).
pub fn file_extension(name: &str) -> (r: Option<String>)
    ensures
        match extension_of(name@) {
            Some(e) => r matches Some(s) && s@ == e,
            None => r is None,
        },
{
    let v = to_chars(name);
    if v.len() == 2 && v[0] == '.' && v[1] == '.' {
        assert(v@ =~= seq!['.', '.']);
        return None;
    }
    proof {
        lemma_last_dot(name@);
        if v@.len() != 2 || v@[0] != '.' || v@[1] != '.' {
            assert(name@ != seq!['.', '.']);
        }
    }
    let mut i: usize = v.len();
    while i > 0
        invariant
            i <= v@.len(),
            v@ == name@,
            name@ != seq!['.', '.'],
            forall|j: int| i <= j < v@.len() ==> v@[j] != '.',
        decreases i,
    {
        if v[i - 1] == '.' {
            let k = i - 1;
            proof {
                lemma_last_dot_at(name@, k as int);
            }
            if k == 0 {
                return None;
            }
            let r = string_from_range(v.as_slice(), k + 1, v.len());
            assert(r@ =~= name@.skip(k + 1));
            return Some(r);
        }
        i = i - 1;
    }
    proof {
        lemma_last_dot(name@);
        if let Some(k) = last_dot(name@) {
            assert(v@[k] == '.');
        }
    }
    None
}

/// Appends one component the way a path join shows it: a separator goes
/// between components, but not after a root that already ends in one.
pub open spec fn join_component(acc: Seq<char>, c: Seq<char>) -> Seq<char> {
    if acc.len() == 0 {
        c
    } else if acc.last() == '/' {
        acc + c
    } else {
        acc + seq!['/'] + c
    }
}

/// The text of a path made of the given components.
pub open spec fn join_components(cs: Seq<Seq<char>>) -> Seq<char>
    decreases cs.len(),
{
    if cs.len() == 0 {
        Seq::empty()
    } else {
        join_component(join_components(cs.drop_last()), cs.last())
    }
}

/// `path` shown relative to `base` when it lies under `base` (component-wise),
/// else `path` as it is.
pub open spec fn relative_to(path: Seq<char>, base: Seq<char>) -> Seq<char> {
    let a = path_components(path);
    let b = path_components(base);
    if b.len() <= a.len() && a.take(b.len() as int) == b {
        join_components(a.skip(b.len() as int))
    } else {
        path
    }
}

/// Shows `path` relative to `base` (`Path::strip_prefix`), falling back to
/// `path` itself when it does not lie under `base`.
pub fn relative_display(path: &str, base: &str) -> (r: String)
    ensures
        r@ == relative_to(path@, base@),
{
    if !path_has_prefix(path, base) {
        return owned(path);
    }
    let pv = to_chars(path);
    let bv = to_chars(base);
    let a = components(pv.as_slice());
    let b = components(bv.as_slice());
    let ghost ca = views(a@);
    let ghost rest = ca.skip(b@.len() as int);
    let mut out = String::new();
    let mut i: usize = b.len();
    assert(ca.skip(b@.len() as int).take(0) =~= Seq::<Seq<char>>::empty());
    while i < a.len()
        invariant
            b@.len() <= i <= a@.len(),
            ca == views(a@),
            rest == ca.skip(b@.len() as int),
            out@ == join_components(rest.take(i - b@.len())),
        decreases a@.len() - i,
    {
        let ghost before = out@;
        let c = &a[i];
        let ov = to_chars(out.as_str());
        if ov.len() == 0 {
            let s = string_from_chars(c.as_slice());
            out = s;
        } else {
            if ov[ov.len() - 1] != '/' {
                push_char(&mut out, '/');
            }
            let s = string_from_chars(c.as_slice());
            crate::text::push_str(&mut out, s.as_str());
        }
        proof {
            let t = rest.take(i + 1 - b@.len());
            assert(t.drop_last() =~= rest.take(i - b@.len()));
            assert(t.last() == a@[i as int]@);
            assert(out@ =~= join_component(before, a@[i as int]@));
        }
        i = i + 1;
    }
    assert(rest.take(a@.len() - b@.len()) =~= rest);
    out
}

/// `Path::join`: an absolute `p` replaces the base; otherwise it follows
/// the base, after a separator unless the base is empty or ends in one.
pub open spec fn joined_path(base: Seq<char>, p: Seq<char>) -> Seq<char> {
    if p.len() > 0 && p[0] == '/' {
        p
    } else if base.len() == 0 || base.last() == '/' {
        base + p
    } else {
        base + seq!['/'] + p
    }
}

/// Joins a path onto a base directory (`Path::join`).
pub fn join_path(base: &str, p: &str) -> (r: String)
    ensures
        r@ == joined_path(base@, p@),
{
    let pv = to_chars(p);
    if pv.len() > 0 && pv[0] == '/' {
        return owned(p);
    }
    let bv = to_chars(base);
    let mut out = owned(base);
    if !(bv.len() == 0 || bv[bv.len() - 1] == '/') {
        push_char(&mut out, '/');
    }
    crate::text::push_str(&mut out, p);
    out
}

} // verus!
