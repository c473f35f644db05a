//! Path validation and dangerous-command detection.
use vstd::prelude::*;

use crate::error::ToolError;
use crate::text::{
    chars_contain, chars_end_with, chars_start_with, contains_seq, ends_with_seq, lowercase,
    owned, push_str, starts_with_seq, str_contains, str_starts_with, to_chars, to_lowercase,
    trim, trim_chars, views,
};

verus! {

/// Level of danger detected in a shell command.
#[derive(Debug)]
pub enum DangerLevel {
    /// Potentially dangerous — user should be warned.
    Warning(String),
    /// Critically dangerous — should be blocked or require explicit confirmation.
    Critical(String),
}

/// A danger level with its message as characters.
pub enum Danger {
    Warning(Seq<char>),
    Critical(Seq<char>),
}

pub open spec fn danger_view(d: Option<DangerLevel>) -> Option<Danger> {
    match d {
        Some(DangerLevel::Warning(m)) => Some(Danger::Warning(m@)),
        Some(DangerLevel::Critical(m)) => Some(Danger::Critical(m@)),
        None => None,
    }
}

// ---------------------------------------------------------------------------
// Pattern tables
// ---------------------------------------------------------------------------

/// Index of the first pattern that occurs in `t`.
pub open spec fn first_hit(t: Seq<char>, pats: Seq<Seq<char>>) -> Option<int> {
    if exists|i: int| 0 <= i < pats.len() && contains_seq(t, #[trigger] pats[i]) {
        Some(
            choose|i: int|
                0 <= i < pats.len() && contains_seq(t, #[trigger] pats[i]) && forall|k: int|
                    0 <= k < i ==> !contains_seq(t, #[trigger] pats[k]),
        )
    } else {
        None
    }
}

pub open spec fn str_views(v: Seq<&str>) -> Seq<Seq<char>> {
    v.map_values(|s: &str| s@)
}

/// Index of the first pattern of `pats` that occurs in `t`.
pub fn first_contained(t: &[char], pats: &Vec<&str>) -> (r: Option<usize>)
    ensures
        match r {
            Some(i) => i < pats@.len() && first_hit(t@, str_views(pats@)) == Some(i as int),
            None => first_hit(t@, str_views(pats@)) is None,
        },
{
    let ghost ps = str_views(pats@);
    let mut i: usize = 0;
    while i < pats.len()
        invariant
            i <= pats@.len(),
            ps == str_views(pats@),
            forall|k: int| 0 <= k < i ==> !contains_seq(t@, #[trigger] ps[k]),
        decreases pats@.len() - i,
    {
        let p = to_chars(pats[i]);
        if chars_contain(t, p.as_slice()) {
            proof {
                assert(ps[i as int] == p@);
                let j = choose|j: int|
                    0 <= j < ps.len() && contains_seq(t@, #[trigger] ps[j]) && forall|k: int|
                        0 <= k < j ==> !contains_seq(t@, #[trigger] ps[k]);
                if j > i {
                    assert(!contains_seq(t@, ps[i as int]));
                }
            }
            return Some(i);
        }
        proof {
            assert(ps[i as int] == p@);
        }
        i = i + 1;
    }
    None
}

pub open spec fn critical_patterns() -> Seq<Seq<char>> {
    seq![":(){ :|:&"@, "mkfs"@, "format c:"@]
}

pub open spec fn critical_descriptions() -> Seq<Seq<char>> {
    seq!["fork bomb"@, "filesystem format"@, "filesystem format"@]
}

pub open spec fn warning_patterns() -> Seq<Seq<char>> {
    seq![
        "git push -f"@,
        "git push --force"@,
        "git reset --hard"@,
        "chmod 777"@,
        "curl|sh"@,
        "curl |sh"@,
        "curl | sh"@,
        "wget|sh"@,
        "wget |sh"@,
        "wget | sh"@,
        "curl|bash"@,
        "curl | bash"@,
        "wget|bash"@,
        "wget | bash"@,
        "> /dev/sda"@,
        "shutdown"@,
        "reboot"@,
    ]
}

pub open spec fn warning_descriptions() -> Seq<Seq<char>> {
    seq![
        "force push"@,
        "force push"@,
        "hard reset"@,
        "world-writable permissions"@,
        "pipe to shell"@,
        "pipe to shell"@,
        "pipe to shell"@,
        "pipe to shell"@,
        "pipe to shell"@,
        "pipe to shell"@,
        "pipe to shell"@,
        "pipe to shell"@,
        "pipe to shell"@,
        "pipe to shell"@,
        "raw disk write"@,
        "system shutdown"@,
        "system reboot"@,
    ]
}

fn critical_table() -> (r: (Vec<&'static str>, Vec<&'static str>))
    ensures
        str_views(r.0@) == critical_patterns(),
        str_views(r.1@) == critical_descriptions(),
{
    let p = vec![":(){ :|:&", "mkfs", "format c:"];
    let d = vec!["fork bomb", "filesystem format", "filesystem format"];
    assert(str_views(p@) =~= critical_patterns());
    assert(str_views(d@) =~= critical_descriptions());
    (p, d)
}

fn warning_table() -> (r: (Vec<&'static str>, Vec<&'static str>))
    ensures
        str_views(r.0@) == warning_patterns(),
        str_views(r.1@) == warning_descriptions(),
{
    let p = vec![
        "git push -f",
        "git push --force",
        "git reset --hard",
        "chmod 777",
        "curl|sh",
        "curl |sh",
        "curl | sh",
        "wget|sh",
        "wget |sh",
        "wget | sh",
        "curl|bash",
        "curl | bash",
        "wget|bash",
        "wget | bash",
        "> /dev/sda",
        "shutdown",
        "reboot",
    ];
    let d = vec![
        "force push",
        "force push",
        "hard reset",
        "world-writable permissions",
        "pipe to shell",
        "pipe to shell",
        "pipe to shell",
        "pipe to shell",
        "pipe to shell",
        "pipe to shell",
        "pipe to shell",
        "pipe to shell",
        "pipe to shell",
        "pipe to shell",
        "raw disk write",
        "system shutdown",
        "system reboot",
    ];
    assert(str_views(p@) =~= warning_patterns());
    assert(str_views(d@) =~= warning_descriptions());
    (p, d)
}

// ---------------------------------------------------------------------------
// Dangerous commands
// ---------------------------------------------------------------------------

/// `rm -rf` aimed at the filesystem root or the home directory.
pub open spec fn rm_root_target(t: Seq<char>) -> bool {
    &&& contains_seq(t, " /"@)
    &&& !contains_seq(t, " /."@)
    &&& !contains_seq(t, " /h"@)
    &&& !contains_seq(t, " /t"@)
    &&& !contains_seq(t, " /v"@)
    &&& (contains_seq(t, "rm -rf /"@) || contains_seq(t, "rm -rf /*"@) || contains_seq(t, "rm -rf ~"@))
}

/// The verdict on a shell command, made on its trimmed lowercase form; the
/// messages quote the command as given.
pub open spec fn danger_of(cmd: Seq<char>) -> Option<Danger> {
    let t = trim(lowercase(cmd));
    let quoted = ": '"@ + cmd + "'"@;
    match first_hit(t, critical_patterns()) {
        Some(i) => Some(Danger::Critical("detected "@ + critical_descriptions()[i] + quoted)),
        None => if contains_seq(t, "rm "@) && contains_seq(t, "-rf"@) && (rm_root_target(t)
            || contains_seq(t, " ~"@) || ends_with_seq(t, " /"@)) {
            Some(Danger::Critical("destructive rm detected"@ + quoted))
        } else if contains_seq(t, "dd if="@) || (starts_with_seq(t, "dd "@) && contains_seq(t, "if="@)) {
            Some(Danger::Critical("raw disk operation detected"@ + quoted))
        } else {
            match first_hit(t, warning_patterns()) {
                Some(i) => Some(Danger::Warning("detected "@ + warning_descriptions()[i] + quoted)),
                None => None,
            }
        },
    }
}

fn occurs(t: &[char], p: &str) -> (b: bool)
    ensures
        b == contains_seq(t@, p@),
{
    let pv = to_chars(p);
    chars_contain(t, pv.as_slice())
}

fn quoted_message(head: &str, cmd: &str) -> (r: String)
    ensures
        r@ == head@ + (": '"@ + cmd@ + "'"@),
{
    let mut m = owned(head);
    push_str(&mut m, ": '");
    push_str(&mut m, cmd);
    push_str(&mut m, "'");
    assert(m@ =~= head@ + (": '"@ + cmd@ + "'"@));
    m
}

fn detected_message(desc: &str, cmd: &str) -> (r: String)
    ensures
        r@ == "detected "@ + desc@ + (": '"@ + cmd@ + "'"@),
{
    let mut m = owned("detected ");
    push_str(&mut m, desc);
    let mut q = quoted_message("", cmd);
    proof {
        reveal_strlit("");
    }
    push_str(&mut m, q.as_str());
    assert(m@ =~= "detected "@ + desc@ + (": '"@ + cmd@ + "'"@));
    m
}

/// Detect dangerous shell commands. Returns `None` if the command is safe.
pub fn detect_dangerous_command(cmd: &str) -> (r: Option<DangerLevel>)
    ensures
        danger_view(r) == danger_of(cmd@),
{
    let lower = to_lowercase(cmd);
    let lv = to_chars(lower.as_str());
    let t = trim_chars(lv.as_slice());
    let ts = t.as_slice();

    let (cp, cd) = critical_table();
    match first_contained(ts, &cp) {
        Some(i) => {
            proof {
                assert(str_views(cd@).len() == cd@.len());
                assert(str_views(cd@)[i as int] == cd@[i as int]@);
            }
            let m = detected_message(cd[i], cmd);
            return Some(DangerLevel::Critical(m));
        },
        None => {},
    }

    if occurs(ts, "rm ") && occurs(ts, "-rf") {
        if occurs(ts, " /") && !occurs(ts, " /.") && !occurs(ts, " /h") && !occurs(ts, " /t") && !occurs(ts, " /v") {
            if occurs(ts, "rm -rf /") || occurs(ts, "rm -rf /*") || occurs(ts, "rm -rf ~") {
                return Some(DangerLevel::Critical(quoted_message("destructive rm detected", cmd)));
            }
        }
        let sp = to_chars(" /");
        if occurs(ts, " ~") || chars_end_with(ts, sp.as_slice()) {
            return Some(DangerLevel::Critical(quoted_message("destructive rm detected", cmd)));
        }
    }

    let dd = to_chars("dd ");
    if occurs(ts, "dd if=") || (chars_start_with(ts, dd.as_slice()) && occurs(ts, "if=")) {
        return Some(DangerLevel::Critical(quoted_message("raw disk operation detected", cmd)));
    }

    let (wp, wd) = warning_table();
    match first_contained(ts, &wp) {
        Some(i) => {
            proof {
                assert(str_views(wd@).len() == wd@.len());
                assert(str_views(wd@)[i as int] == wd@[i as int]@);
            }
            let m = detected_message(wd[i], cmd);
            Some(DangerLevel::Warning(m))
        },
        None => None,
    }
}

// ---------------------------------------------------------------------------
// Path checks
// ---------------------------------------------------------------------------

/// Check for directory traversal patterns in a path string.
pub fn has_traversal(path: &str) -> (r: bool)
    ensures
        r == (contains_seq(path@, ".."@) || contains_seq(path@, "~"@)),
{
    str_contains(path, "..") || str_contains(path, "~")
}

/// A path naming a device or kernel interface.
pub open spec fn device_path(s: Seq<char>) -> bool {
    starts_with_seq(s, "/dev/"@) || starts_with_seq(s, "/proc/"@) || starts_with_seq(s, "/sys/"@)
        || contains_seq(s, "\\\\.\\"@)
}

/// Check if a path (as text) refers to a device file.
pub fn is_device_path(path: &str) -> (r: bool)
    ensures
        r == device_path(path@),
{
    str_starts_with(path, "/dev/") || str_starts_with(path, "/proc/") || str_starts_with(path, "/sys/")
        || str_contains(path, "\\\\.\\")
}

pub open spec fn sensitive_patterns() -> Seq<Seq<char>> {
    seq![
        ".ssh"@,
        ".gnupg"@,
        ".gpg"@,
        ".aws"@,
        ".azure"@,
        ".kube"@,
        ".docker"@,
        ".config/gcloud"@,
        ".npmrc"@,
        ".pypirc"@,
        ".netrc"@,
        ".env"@,
        ".credentials"@,
    ]
}

/// A path that mentions a credential store.
pub open spec fn sensitive_path(s: Seq<char>) -> bool {
    first_hit(s, sensitive_patterns()) is Some
}

/// Check if a path (as text) targets a sensitive directory.
pub fn is_sensitive_path(path: &str) -> (r: bool)
    ensures
        r == sensitive_path(path@),
{
    let p = vec![
        ".ssh",
        ".gnupg",
        ".gpg",
        ".aws",
        ".azure",
        ".kube",
        ".docker",
        ".config/gcloud",
        ".npmrc",
        ".pypirc",
        ".netrc",
        ".env",
        ".credentials",
    ];
    assert(str_views(p@) =~= sensitive_patterns());
    let s = to_chars(path);
    first_contained(s.as_slice(), &p).is_some()
}

// ---------------------------------------------------------------------------
// Path components (`Path::components`, `Path::starts_with`)
// ---------------------------------------------------------------------------

/// The component ended by a separator; `.` is dropped unless it leads a
/// relative path.
pub open spec fn emit(cur: Seq<char>, started: bool) -> Seq<Seq<char>> {
    if cur.len() == 0 || (cur == seq!['.'] && started) {
        Seq::empty()
    } else {
        seq![cur]
    }
}

pub open spec fn comps_acc(s: Seq<char>, cur: Seq<char>, started: bool) -> Seq<Seq<char>>
    decreases s.len(),
{
    if s.len() == 0 {
        emit(cur, started)
    } else if s[0] == '/' {
        emit(cur, started) + comps_acc(s.drop_first(), Seq::empty(), started || cur.len() > 0)
    } else {
        comps_acc(s.drop_first(), cur.push(s[0]), started)
    }
}

/// The components of a path: the root (as `/`) when it is absolute, then
/// its non-empty parts between separators, without `.` parts past the first.
pub open spec fn path_components(s: Seq<char>) -> Seq<Seq<char>> {
    if s.len() > 0 && s[0] == '/' {
        seq![seq!['/']] + comps_acc(s.drop_first(), Seq::empty(), true)
    } else {
        comps_acc(s, Seq::empty(), false)
    }
}

/// `Path::starts_with`: the components of `base` are a prefix of those of `p`.
pub open spec fn path_starts_with(p: Seq<char>, base: Seq<char>) -> bool {
    let a = path_components(p);
    let b = path_components(base);
    b.len() <= a.len() && a.take(b.len() as int) == b
}

fn emit_into(out: &mut Vec<Vec<char>>, cur: Vec<char>, started: bool)
    ensures
        views(final(out)@) == views(old(out)@) + emit(cur@, started),
{
    let ghost o = views(out@);
    let is_dot = cur.len() == 1 && cur[0] == '.';
    if cur.len() == 0 || (is_dot && started) {
        proof {
            if cur@.len() == 1 && cur@[0] == '.' {
                assert(cur@ =~= seq!['.']);
            }
        }
        assert(views(out@) + emit(cur@, started) =~= views(out@));
    } else {
        let ghost c = cur@;
        proof {
            if c == seq!['.'] {
                assert(c.len() == 1 && c[0] == '.');
            }
        }
        out.push(cur);
        assert(views(out@) =~= o.push(c));
    }
}

/// The components of a path.
pub fn components(s: &[char]) -> (r: Vec<Vec<char>>)
    ensures
        views(r@) == path_components(s@),
{
    let mut out: Vec<Vec<char>> = Vec::new();
    let mut cur: Vec<char> = Vec::new();
    let mut started = false;
    let mut i: usize = 0;
    if s.len() > 0 && s[0] == '/' {
        let root = vec!['/'];
        assert(root@ =~= seq!['/']);
        out.push(root);
        started = true;
        i = 1;
        assert(views(out@) =~= seq![seq!['/']]);
        assert(s@.skip(1) =~= s@.drop_first());
    } else {
        assert(s@.skip(0) =~= s@);
        assert(views(out@) =~= Seq::<Seq<char>>::empty());
    }
    assert(views(out@) + comps_acc(s@.skip(i as int), cur@, started) =~= path_components(s@));
    while i < s.len()
        invariant
            i <= s@.len(),
            views(out@) + comps_acc(s@.skip(i as int), cur@, started) == path_components(s@),
        decreases s@.len() - i,
    {
        let ghost rest = s@.skip(i as int);
        let ghost o0 = views(out@);
        let ghost c0 = cur@;
        let ghost st0 = started;
        assert(rest.drop_first() =~= s@.skip(i + 1));
        if s[i] == '/' {
            let nonempty = cur.len() > 0;
            emit_into(&mut out, cur, started);
            cur = Vec::new();
            started = started || nonempty;
            assert(views(out@) + comps_acc(s@.skip(i + 1), cur@, started) =~= o0 + (emit(c0, st0)
                + comps_acc(rest.drop_first(), Seq::empty(), st0 || c0.len() > 0)));
        } else {
            cur.push(s[i]);
        }
        i = i + 1;
    }
    assert(s@.skip(i as int) =~= Seq::<char>::empty());
    emit_into(&mut out, cur, started);
    out
}

fn chars_equal(a: &Vec<char>, b: &Vec<char>) -> (r: bool)
    ensures
        r == (a@ == b@),
{
    if a.len() != b.len() {
        return false;
    }
    let r = crate::text::chars_occur_at(a.as_slice(), b.as_slice(), 0);
    assert(a@.subrange(0, b@.len() as int) =~= a@);
    r
}

/// `Path::starts_with` on path texts.
pub fn path_has_prefix(p: &str, base: &str) -> (r: bool)
    ensures
        r == path_starts_with(p@, base@),
{
    let pv = to_chars(p);
    let bv = to_chars(base);
    let a = components(pv.as_slice());
    let b = components(bv.as_slice());
    if b.len() > a.len() {
        return false;
    }
    let mut i: usize = 0;
    while i < b.len()
        invariant
            i <= b@.len() <= a@.len(),
            views(a@) == path_components(p@),
            views(b@) == path_components(base@),
            forall|k: int| 0 <= k < i ==> views(a@)[k] == views(b@)[k],
        decreases b@.len() - i,
    {
        proof {
            assert(views(a@)[i as int] == a@[i as int]@);
            assert(views(b@)[i as int] == b@[i as int]@);
        }
        if !chars_equal(&a[i], &b[i]) {
            proof {
                assert(views(a@).take(b@.len() as int)[i as int] != views(b@)[i as int]);
            }
            return false;
        }
        i = i + 1;
    }
    assert(views(a@).take(b@.len() as int) =~= views(b@));
    true
}

/// The checks that a resolved path must pass: inside the root, not a device,
/// not a credential store.
pub open spec fn path_verdict(canonical: Seq<char>, root: Seq<char>) -> Result<Seq<char>, Seq<char>> {
    if !path_starts_with(canonical, root) {
        Err("path '"@ + canonical + "' is outside root '"@ + root + "'"@)
    } else if device_path(canonical) {
        Err("device path not allowed: '"@ + canonical + "'"@)
    } else if sensitive_path(canonical) {
        Err("sensitive path not allowed: '"@ + canonical + "'"@)
    } else {
        Ok(canonical)
    }
}

/// Validate that a canonical path lies within the canonical `root` and is
/// neither a device nor a sensitive path. Returns the path on success.
pub fn validate_path(canonical: &str, canonical_root: &str) -> (r: Result<String, ToolError>)
    ensures
        match path_verdict(canonical@, canonical_root@) {
            Ok(p) => r matches Ok(s) && s@ == p,
            Err(m) => r matches Err(ToolError::PathViolation(e)) && e@ == m,
        },
{
    if !path_has_prefix(canonical, canonical_root) {
        let mut m = owned("path '");
        push_str(&mut m, canonical);
        push_str(&mut m, "' is outside root '");
        push_str(&mut m, canonical_root);
        push_str(&mut m, "'");
        return Err(ToolError::PathViolation(m));
    }
    if is_device_path(canonical) {
        let mut m = owned("device path not allowed: '");
        push_str(&mut m, canonical);
        push_str(&mut m, "'");
        return Err(ToolError::PathViolation(m));
    }
    if is_sensitive_path(canonical) {
        let mut m = owned("sensitive path not allowed: '");
        push_str(&mut m, canonical);
        push_str(&mut m, "'");
        return Err(ToolError::PathViolation(m));
    }
    Ok(owned(canonical))
}

} // verus!
