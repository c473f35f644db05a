//! Content search: its arguments, the compiled patterns, the per-file scan
//! and the report.
use vstd::prelude::*;

use crate::error::ToolError;
use crate::json::{bool_field, str_field, u64_field, JsonValue};
use crate::text::{
    decimal, eq_ascii_nocase, eq_ignore_ascii_case, lines_of, owned, push_decimal_wide, push_str,
    split_lines, str_eq, string_from_chars, to_chars, views,
};

verus! {

// ---------------------------------------------------------------------------
// Directories left out of the walk
// ---------------------------------------------------------------------------

/// Directory names the search does not descend into.
pub open spec fn skipped_dir_names() -> Seq<Seq<char>> {
    seq![
        ".git"@,
        "node_modules"@,
        "target"@,
        "__pycache__"@,
        ".venv"@,
        "venv"@,
        ".idea"@,
        ".vs"@,
        "dist"@,
        "build"@,
    ]
}

/// Whether the walk skips a directory of this name.
pub fn is_skipped_dir(name: &str) -> (r: bool)
    ensures
        r == skipped_dir_names().contains(name@),
{
    let names: Vec<&str> = vec![
        ".git",
        "node_modules",
        "target",
        "__pycache__",
        ".venv",
        "venv",
        ".idea",
        ".vs",
        "dist",
        "build",
    ];
    let ghost want = skipped_dir_names();
    assert(names@.map_values(|s: &str| s@) =~= want);
    let mut i: usize = 0;
    while i < names.len()
        invariant
            i <= names@.len() == want.len(),
            want == skipped_dir_names(),
            names@.map_values(|s: &str| s@) == want,
            forall|k: int| 0 <= k < i ==> want[k] != name@,
        decreases names@.len() - i,
    {
        assert(names@.map_values(|s: &str| s@)[i as int] == names@[i as int]@);
        if str_eq(names[i], name) {
            assert(want[i as int] == name@);
            assert(want.contains(name@));
            return true;
        }
        i = i + 1;
    }
    assert(!want.contains(name@)) by {
        if want.contains(name@) {
            let k = choose|k: int| 0 <= k < want.len() && want[k] == name@;
            assert(want[k] != name@);
        }
    }
    false
}

// ---------------------------------------------------------------------------
// Arguments
// ---------------------------------------------------------------------------

/// The arguments of a content search, with their defaults filled in.
pub struct SearchArgs {
    pub pattern: String,
    pub path: String,
    pub glob_pattern: Option<String>,
    pub max_results: u64,
    pub context_lines: u64,
    pub output_mode: String,
    pub file_type: Option<String>,
    pub multiline: bool,
    pub offset: u64,
}

pub open spec fn opt_view(o: Option<String>) -> Option<Seq<char>> {
    match o {
        Some(s) => Some(s@),
        None => None,
    }
}

pub open spec fn or_default(o: Option<Seq<char>>, d: Seq<char>) -> Seq<char> {
    match o {
        Some(s) => s,
        None => d,
    }
}

pub open spec fn or_num(o: Option<u64>, d: u64) -> u64 {
    match o {
        Some(n) => n,
        None => d,
    }
}

/// The arguments read from a JSON object, when `pattern` is present.
pub open spec fn search_args_of(a: SearchArgs, args: JsonValue) -> bool {
    &&& str_field(args, "pattern"@) == Some(a.pattern@)
    &&& a.path@ == or_default(str_field(args, "path"@), "."@)
    &&& opt_view(a.glob_pattern) == str_field(args, "glob_pattern"@)
    &&& a.max_results == or_num(u64_field(args, "max_results"@), 50)
    &&& a.context_lines == or_num(u64_field(args, "context_lines"@), 0)
    &&& a.output_mode@ == or_default(str_field(args, "output_mode"@), "content"@)
    &&& opt_view(a.file_type) == str_field(args, "file_type"@)
    &&& a.multiline == (bool_field(args, "multiline"@) == Some(true))
    &&& a.offset == or_num(u64_field(args, "offset"@), 0)
}

fn opt_owned(o: Option<&str>) -> (r: Option<String>)
    ensures
        opt_view(r) == match o {
            Some(s) => Some(s@),
            None => None::<Seq<char>>,
        },
{
    match o {
        Some(s) => Some(owned(s)),
        None => None,
    }
}

fn str_or(o: Option<&str>, d: &str) -> (r: String)
    ensures
        r@ == match o {
            Some(s) => s@,
            None => d@,
        },
{
    match o {
        Some(s) => owned(s),
        None => owned(d),
    }
}

/// Reads the search arguments; `pattern` is required.
pub fn parse_search_args(args: &JsonValue) -> (r: Result<SearchArgs, ToolError>)
    ensures
        str_field(*args, "pattern"@) is None <==> r is Err,
        r matches Ok(a) ==> search_args_of(a, *args),
        r matches Err(e) ==> e matches ToolError::Execution(m) && m@
            == "missing required parameter 'pattern'"@,
{
    let pattern = match args.str_field("pattern") {
        Some(p) => owned(p),
        None => {
            return Err(ToolError::Execution(owned("missing required parameter 'pattern'")));
        },
    };
    let path = str_or(args.str_field("path"), ".");
    let glob_pattern = opt_owned(args.str_field("glob_pattern"));
    let max_results = match args.u64_field("max_results") {
        Some(n) => n,
        None => 50,
    };
    let context_lines = match args.u64_field("context_lines") {
        Some(n) => n,
        None => 0,
    };
    let output_mode = str_or(args.str_field("output_mode"), "content");
    let file_type = opt_owned(args.str_field("file_type"));
    let multiline = match args.bool_field("multiline") {
        Some(b) => b,
        None => false,
    };
    let offset = match args.u64_field("offset") {
        Some(n) => n,
        None => 0,
    };
    Ok(
        SearchArgs {
            pattern,
            path,
            glob_pattern,
            max_results,
            context_lines,
            output_mode,
            file_type,
            multiline,
            offset,
        },
    )
}

// ---------------------------------------------------------------------------
// Regular expressions (the `regex` crate)
// ---------------------------------------------------------------------------

#[verifier::external_type_specification]
#[verifier::external_body]
pub struct ExRegex(regex::Regex);

/// What `Regex::new` makes of a pattern: nothing when it accepts it, the
/// `Display` text of its error when it refuses it.
pub uninterp spec fn regex_compile_error(pattern: Seq<char>) -> Option<Seq<char>>;

/// The same for the builder with multi-line and dot-matches-newline set.
pub uninterp spec fn multiline_regex_compile_error(pattern: Seq<char>) -> Option<Seq<char>>;

/// Whether the regex compiled from `pattern` (with or without the
/// multi-line flags) finds a match in `hay`.
pub uninterp spec fn regex_matches(pattern: Seq<char>, multiline: bool, hay: Seq<char>) -> bool;

/// `regex::Regex::new`, with the error rendered by its `Display`. Whether it
/// succeeds and the error text are named by `regex_compile_error`; the regex
/// syntax is not restated here.
#[verifier::external_body]
fn build_regex(pattern: &str) -> (r: Result<regex::Regex, String>)
    ensures
        match regex_compile_error(pattern@) {
            None => r is Ok,
            Some(t) => r matches Err(e) && e@ == t,
        },
{
    match regex::Regex::new(pattern) {
        Ok(re) => Ok(re),
        Err(e) => Err(e.to_string()),
    }
}

/// `regex::RegexBuilder::new(pattern)` with `multi_line(true)` and
/// `dot_matches_new_line(true)`, then `build()`, the error rendered by its
/// `Display`. Named by `multiline_regex_compile_error`.
#[verifier::external_body]
fn build_multiline_regex(pattern: &str) -> (r: Result<regex::Regex, String>)
    ensures
        match multiline_regex_compile_error(pattern@) {
            None => r is Ok,
            Some(t) => r matches Err(e) && e@ == t,
        },
{
    match regex::RegexBuilder::new(pattern).multi_line(true).dot_matches_new_line(true).build() {
        Ok(re) => Ok(re),
        Err(e) => Err(e.to_string()),
    }
}

/// A compiled search pattern together with the text and flags it was
/// compiled from. Only `SearchRegex::compile` makes one, so the regex always
/// belongs to that text and those flags.
pub struct SearchRegex {
    re: regex::Regex,
    source: String,
    multiline: bool,
}

/// `Regex::is_match` on a compiled search pattern. Named by `regex_matches`
/// over the pattern text and flags the regex was compiled from.
#[verifier::external_body]
fn regex_is_match(r: &SearchRegex, hay: &str) -> (b: bool)
    ensures
        b == regex_matches(r.source(), r.is_multiline(), hay@),
{
    r.re.is_match(hay)
}

/// The compile error of a pattern under the given flags, if it has one.
pub open spec fn search_regex_error(pattern: Seq<char>, multiline: bool) -> Option<Seq<char>> {
    if multiline {
        multiline_regex_compile_error(pattern)
    } else {
        regex_compile_error(pattern)
    }
}

impl SearchRegex {
    /// The pattern text.
    pub closed spec fn source(&self) -> Seq<char> {
        self.source@
    }

    /// Whether `^`/`$` match at line ends and `.` matches newlines.
    pub closed spec fn is_multiline(&self) -> bool {
        self.multiline
    }

    /// Compiles a search pattern; in multi-line mode `^`/`$` match at line
    /// boundaries and `.` matches a newline.
    pub fn compile(pattern: &str, multiline: bool) -> (r: Result<SearchRegex, ToolError>)
        ensures
            match search_regex_error(pattern@, multiline) {
                None => r matches Ok(re) && re.source() == pattern@ && re.is_multiline() == multiline,
                Some(t) => r matches Err(ToolError::Execution(m)) && m@ == "invalid regex pattern: "@ + t,
            },
    {
        let built = if multiline {
            build_multiline_regex(pattern)
        } else {
            build_regex(pattern)
        };
        match built {
            Ok(re) => Ok(SearchRegex { re, source: owned(pattern), multiline }),
            Err(e) => {
                let mut m = owned("invalid regex pattern: ");
                push_str(&mut m, e.as_str());
                Err(ToolError::Execution(m))
            },
        }
    }

    /// Whether the pattern finds a match in `hay`.
    pub fn is_match(&self, hay: &str) -> (b: bool)
        ensures
            b == regex_matches(self.source(), self.is_multiline(), hay@),
    {
        regex_is_match(self, hay)
    }
}

// ---------------------------------------------------------------------------
// File name filters (the `glob` crate's `Pattern`)
// ---------------------------------------------------------------------------

#[verifier::external_type_specification]
#[verifier::external_body]
pub struct ExGlobPattern(glob::Pattern);

/// What `glob::Pattern::new` makes of a pattern: nothing when it accepts
/// it, the `Display` text of its error when it refuses it.
pub uninterp spec fn glob_compile_error(pattern: Seq<char>) -> Option<Seq<char>>;

/// Whether the glob `pattern` matches the whole of `name`.
pub uninterp spec fn glob_name_matches(pattern: Seq<char>, name: Seq<char>) -> bool;

/// `glob::Pattern::new`, the error rendered by its `Display`. Named by
/// `glob_compile_error`; the glob syntax is not restated.
#[verifier::external_body]
fn build_glob(pattern: &str) -> (r: Result<glob::Pattern, String>)
    ensures
        match glob_compile_error(pattern@) {
            None => r is Ok,
            Some(t) => r matches Err(e) && e@ == t,
        },
{
    match glob::Pattern::new(pattern) {
        Ok(p) => Ok(p),
        Err(e) => Err(e.to_string()),
    }
}

/// A compiled file-name glob with the text it was compiled from. Only
/// `FileFilter::new` makes one.
pub struct NameGlob {
    pat: glob::Pattern,
    source: String,
}

impl NameGlob {
    pub closed spec fn source(&self) -> Seq<char> {
        self.source@
    }
}

/// `glob::Pattern::matches` on a compiled file-name glob. Named by
/// `glob_name_matches` over the text the glob was compiled from.
#[verifier::external_body]
fn glob_matches_name(g: &NameGlob, name: &str) -> (b: bool)
    ensures
        b == glob_name_matches(g.source(), name@),
{
    g.pat.matches(name)
}

/// Which files a search reads: by file-name glob and by extension.
pub struct FileFilter {
    glob: Option<NameGlob>,
    file_type: Option<String>,
}

/// A file passes the filter: its name matches the glob, if there is one,
/// and its extension equals the file type ignoring ASCII case, if one is set
/// (a file without extension counts as the empty extension).
pub open spec fn filter_admits(
    glob: Option<Seq<char>>,
    file_type: Option<Seq<char>>,
    name: Seq<char>,
    ext: Seq<char>,
) -> bool {
    &&& glob matches Some(g) ==> glob_name_matches(g, name)
    &&& file_type matches Some(t) ==> eq_ascii_nocase(ext, t)
}

impl FileFilter {
    pub closed spec fn glob_source(&self) -> Option<Seq<char>> {
        match self.glob {
            Some(g) => Some(g.source()),
            None => None,
        }
    }

    pub closed spec fn extension(&self) -> Option<Seq<char>> {
        opt_view(self.file_type)
    }

    /// Builds the filter; an invalid glob is an error.
    pub fn new(glob_pattern: Option<&str>, file_type: Option<&str>) -> (r: Result<FileFilter, ToolError>)
        ensures
            match glob_pattern {
                Some(g) => match glob_compile_error(g@) {
                    Some(t) => r matches Err(ToolError::Execution(m)) && m@ == "invalid glob pattern: "@ + t,
                    None => r matches Ok(f) && f.glob_source() == Some(g@) && f.extension() == (match file_type {
                        Some(t) => Some(t@),
                        None => None::<Seq<char>>,
                    }),
                },
                None => r matches Ok(f) && f.glob_source() is None && f.extension() == (match file_type {
                    Some(t) => Some(t@),
                    None => None::<Seq<char>>,
                }),
            },
    {
        let glob = match glob_pattern {
            Some(g) => match build_glob(g) {
                Ok(p) => Some(NameGlob { pat: p, source: owned(g) }),
                Err(e) => {
                    let mut m = owned("invalid glob pattern: ");
                    push_str(&mut m, e.as_str());
                    return Err(ToolError::Execution(m));
                },
            },
            None => None,
        };
        Ok(FileFilter { glob, file_type: opt_owned(file_type) })
    }

    /// Whether a file with this name and extension (empty when it has
    /// none) is searched.
    pub fn admits(&self, name: &str, ext: &str) -> (r: bool)
        ensures
            r == filter_admits(self.glob_source(), self.extension(), name@, ext@),
    {
        match &self.glob {
            Some(g) => {
                if !glob_matches_name(g, name) {
                    return false;
                }
            },
            None => {},
        }
        match &self.file_type {
            Some(t) => eq_ignore_ascii_case(ext, t.as_str()),
            None => true,
        }
    }
}

} // verus!
