//! Reading files for the model: how a file is classified by extension, the
//! notices for files not shown as text, images as base64, notebooks as
//! cells, numbered lines, and the per-session cache of content hashes.
use vstd::prelude::*;

use crate::config::CoreToolConfig;
use crate::content::{binary_bytes, decode_utf8_lossy, looks_binary, lossy_text};
use crate::error::ToolError;
use crate::json::{get_spec, str_field, u64_field, JsonValue};
use crate::paths::{extension_of, file_extension};
use crate::text::{
    decimal, lines_of, lowercase, owned, push_char, push_decimal, push_decimal_wide, push_str,
    split_lines, str_eq, str_in, string_from_chars, strs_view, to_chars, to_lowercase, utf8_len,
    str_byte_len, views,
};
use crate::tool::{cut_with_marker, ToolResult};

verus! {

// ---------------------------------------------------------------------------
// Classification by extension
// ---------------------------------------------------------------------------

/// Extensions of files shown as a size notice rather than text.
pub open spec fn binary_exts() -> Seq<Seq<char>> {
    seq![
        "png"@, "jpg"@, "jpeg"@, "gif"@, "webp"@, "bmp"@, "ico"@, "tiff"@, "tif"@,
        "zip"@, "tar"@, "gz"@, "bz2"@, "xz"@, "7z"@, "rar"@, "zst"@,
        "exe"@, "dll"@, "so"@, "dylib"@, "o"@, "obj"@, "class"@, "pyc"@, "wasm"@,
        "mp3"@, "mp4"@, "avi"@, "mov"@, "mkv"@, "flac"@, "wav"@, "ogg"@,
        "ttf"@, "otf"@, "woff"@, "woff2"@,
        "bin"@, "dat"@,
    ]
}

/// Extensions of images, returned base64-encoded.
pub open spec fn image_exts() -> Seq<Seq<char>> {
    seq!["png"@, "jpg"@, "jpeg"@, "gif"@, "webp"@, "bmp"@, "ico"@, "tiff"@, "tif"@, "svg"@]
}

/// Known binary file extensions (images, archives, compiled code, media,
/// fonts and other binary data).
pub fn binary_extensions() -> (r: Vec<&'static str>)
    ensures
        strs_view(r@) == binary_exts(),
{
    let r = vec![
        "png", "jpg", "jpeg", "gif", "webp", "bmp", "ico", "tiff", "tif",
        "zip", "tar", "gz", "bz2", "xz", "7z", "rar", "zst",
        "exe", "dll", "so", "dylib", "o", "obj", "class", "pyc", "wasm",
        "mp3", "mp4", "avi", "mov", "mkv", "flac", "wav", "ogg",
        "ttf", "otf", "woff", "woff2",
        "bin", "dat",
    ];
    assert(strs_view(r@) =~= binary_exts());
    r
}

/// Image extensions that get base64-encoded on read.
pub fn image_extensions() -> (r: Vec<&'static str>)
    ensures
        strs_view(r@) == image_exts(),
{
    let r = vec!["png", "jpg", "jpeg", "gif", "webp", "bmp", "ico", "tiff", "tif", "svg"];
    assert(strs_view(r@) =~= image_exts());
    r
}

/// How `read_file` treats a file.
pub enum ReadKind {
    Pdf,
    Image,
    Binary,
    Notebook,
    Text,
}

/// The treatment of a file by its lowercased extension: PDF, then images,
/// then other binary formats, then notebooks; anything else is text.
pub open spec fn kind_of_ext(e: Seq<char>) -> ReadKind {
    if e == "pdf"@ {
        ReadKind::Pdf
    } else if image_exts().contains(e) {
        ReadKind::Image
    } else if binary_exts().contains(e) {
        ReadKind::Binary
    } else if e == "ipynb"@ {
        ReadKind::Notebook
    } else {
        ReadKind::Text
    }
}

/// The treatment of a file by its name: its extension (empty when it has
/// none), lowercased.
pub open spec fn read_kind_of(file_name: Seq<char>) -> ReadKind {
    kind_of_ext(
        lowercase(
            match extension_of(file_name) {
                Some(e) => e,
                None => Seq::empty(),
            },
        ),
    )
}

/// Classifies a file by its name.
pub fn read_kind(file_name: &str) -> (r: ReadKind)
    ensures
        r == read_kind_of(file_name@),
{
    let ext = match file_extension(file_name) {
        Some(e) => e,
        None => String::new(),
    };
    let e = to_lowercase(ext.as_str());
    if str_eq(e.as_str(), "pdf") {
        ReadKind::Pdf
    } else if str_in(&image_extensions(), e.as_str()) {
        ReadKind::Image
    } else if str_in(&binary_extensions(), e.as_str()) {
        ReadKind::Binary
    } else if str_eq(e.as_str(), "ipynb") {
        ReadKind::Notebook
    } else {
        ReadKind::Text
    }
}

// ---------------------------------------------------------------------------
// Arguments
// ---------------------------------------------------------------------------

/// The arguments of `read_file`.
pub struct ReadArgs {
    pub path: String,
    /// First line to show, 1-based (at least 1).
    pub offset: u64,
    pub limit: Option<u64>,
}

/// Reads the arguments; `path` is required, `offset` defaults to 1 and is
/// raised to 1.
pub fn parse_read_args(args: &JsonValue) -> (r: Result<ReadArgs, ToolError>)
    ensures
        r is Err <==> str_field(*args, "path"@) is None,
        r matches Err(e) ==> e matches ToolError::Execution(m) && m@ == "missing required parameter 'path'"@,
        r matches Ok(a) ==> str_field(*args, "path"@) == Some(a.path@) && a.offset == match u64_field(
            *args,
            "offset"@,
        ) {
            Some(n) => if n >= 1 {
                n
            } else {
                1
            },
            None => 1,
        } && a.limit == u64_field(*args, "limit"@),
{
    let path = match args.str_field("path") {
        Some(p) => owned(p),
        None => {
            return Err(ToolError::Execution(owned("missing required parameter 'path'")));
        },
    };
    let offset = match args.u64_field("offset") {
        Some(n) => if n >= 1 {
            n
        } else {
            1
        },
        None => 1,
    };
    Ok(ReadArgs { path, offset, limit: args.u64_field("limit") })
}

// ---------------------------------------------------------------------------
// Notices
// ---------------------------------------------------------------------------

/// The recoverable error result for a PDF.
pub fn pdf_notice(shown: &str) -> (r: ToolResult)
    ensures
        r matches ToolResult::Error { message, recoverable } && recoverable && message@
            == "PDF files are not supported by read_file. File: "@ + shown@
            + " — consider using a dedicated PDF tool."@,
{
    let mut m = owned("PDF files are not supported by read_file. File: ");
    push_str(&mut m, shown);
    push_str(&mut m, " — consider using a dedicated PDF tool.");
    ToolResult::Error { message: m, recoverable: true }
}

/// The notice for a binary file of `size` bytes.
pub fn binary_notice(shown: &str, size: u64) -> (r: ToolResult)
    ensures
        r matches ToolResult::Text(t) && t@ == "Binary file detected: "@ + shown@ + " ("@ + decimal(size as nat)
            + " bytes)"@,
{
    let mut m = owned("Binary file detected: ");
    push_str(&mut m, shown);
    push_str(&mut m, " (");
    push_decimal(&mut m, size);
    push_str(&mut m, " bytes)");
    ToolResult::Text(m)
}

/// The notice for a file whose content is unchanged since the session read it.
pub fn unchanged_notice(shown: &str) -> (r: ToolResult)
    ensures
        r matches ToolResult::Text(t) && t@ == "[File unchanged since last read: "@ + shown@ + "]"@,
{
    let mut m = owned("[File unchanged since last read: ");
    push_str(&mut m, shown);
    push_str(&mut m, "]");
    ToolResult::Text(m)
}

// ---------------------------------------------------------------------------
// Images as base64 (the `base64` crate's standard engine)
// ---------------------------------------------------------------------------

/// The standard base64 alphabet: `A-Z`, `a-z`, `0-9`, `+`, `/`.
pub open spec fn b64_digit(v: int) -> char {
    if v < 26 {
        ((65 + v) as u8) as char
    } else if v < 52 {
        ((97 + v - 26) as u8) as char
    } else if v < 62 {
        ((48 + v - 52) as u8) as char
    } else if v == 62 {
        '+'
    } else {
        '/'
    }
}

/// Standard base64 with `=` padding (RFC 4648): each group of three bytes
/// becomes four digits; a final group of one or two bytes is padded.
pub open spec fn base64_std(b: Seq<u8>) -> Seq<char>
    decreases b.len(),
{
    if b.len() == 0 {
        Seq::empty()
    } else if b.len() == 1 {
        seq![b64_digit((b[0] / 4) as int), b64_digit((b[0] % 4) * 16), '=', '=']
    } else if b.len() == 2 {
        seq![b64_digit((b[0] / 4) as int), b64_digit((b[0] % 4) * 16 + b[1] / 16), b64_digit((b[1] % 16) * 4), '=']
    } else {
        seq![
            b64_digit((b[0] / 4) as int),
            b64_digit((b[0] % 4) * 16 + b[1] / 16),
            b64_digit((b[1] % 16) * 4 + b[2] / 64),
            b64_digit((b[2] % 64) as int),
        ] + base64_std(b.skip(3))
    }
}

/// `base64::engine::general_purpose::STANDARD.encode`: the standard
/// alphabet with padding, as the crate documents it.
#[verifier::external_body]
fn base64_encode(bytes: &[u8]) -> (r: String)
    ensures
        r@ == base64_std(bytes@),
{
    base64::Engine::encode(&base64::engine::general_purpose::STANDARD, bytes)
}

/// The text of an image: a header with its size, then its base64 encoding.
pub fn image_result(shown: &str, bytes: &[u8]) -> (r: ToolResult)
    ensures
        r matches ToolResult::Text(t) && t@ == "[Image: "@ + shown@ + " ("@ + decimal(bytes@.len()) + " bytes, base64 encoded)]\n"@
            + base64_std(bytes@),
{
    let mut m = owned("[Image: ");
    push_str(&mut m, shown);
    push_str(&mut m, " (");
    push_decimal_wide(&mut m, bytes.len() as u128);
    push_str(&mut m, " bytes, base64 encoded)]\n");
    let b = base64_encode(bytes);
    push_str(&mut m, b.as_str());
    ToolResult::Text(m)
}


// ---------------------------------------------------------------------------
// Numbered lines
// ---------------------------------------------------------------------------

/// Lines `start..end` of `lines`, each as `number\tline\n` (1-based).
pub open spec fn numbered(lines: Seq<Seq<char>>, start: int, end: int) -> Seq<char>
    decreases end - start,
{
    if end <= start {
        Seq::empty()
    } else {
        numbered(lines, start, end - 1) + decimal(end as nat) + "\t"@ + lines[end - 1] + "\n"@
    }
}

/// The first line shown: `offset - 1`, at most the number of lines.
pub open spec fn window_start(offset: u64, n: int) -> int {
    if offset - 1 <= n {
        offset - 1
    } else {
        n
    }
}

/// One past the last line shown: `limit` lines on from the start, at most
/// the number of lines.
pub open spec fn window_end(start: int, limit: Option<u64>, n: int) -> int {
    match limit {
        None => n,
        Some(l) => if start + l <= n {
            start + l
        } else {
            n
        },
    }
}

/// The lines of `text` from line `offset` (1-based), at most `limit` of
/// them, numbered.
pub open spec fn numbered_view(text: Seq<char>, offset: u64, limit: Option<u64>) -> Seq<char> {
    let ls = lines_of(text);
    let s = window_start(offset, ls.len() as int);
    numbered(ls, s, window_end(s, limit, ls.len() as int))
}

/// The window's end cannot be computed in a `usize`: the first line shown
/// plus the limit exceeds `usize::MAX`.
pub open spec fn window_overflows(offset: u64, limit: Option<u64>, n: int) -> bool {
    limit matches Some(l) && window_start(offset, n) + l > usize::MAX
}

/// Numbers the lines of `text` from line `offset` on, at most `limit` lines;
/// nothing when the window's end overflows a `usize`.
pub fn numbered_lines(text: &str, offset: u64, limit: Option<u64>) -> (r: Option<String>)
    requires
        offset >= 1,
    ensures
        match r {
            Some(s) => !window_overflows(offset, limit, lines_of(text@).len() as int) && s@ == numbered_view(
                text@,
                offset,
                limit,
            ),
            None => window_overflows(offset, limit, lines_of(text@).len() as int),
        },
{
    let chars = to_chars(text);
    let lines = split_lines(chars.as_slice());
    let ghost ls = lines_of(text@);
    let n = lines.len();
    let start: usize = if ((offset - 1) as u128) <= (n as u128) {
        (offset - 1) as usize
    } else {
        n
    };
    match limit {
        Some(l) => {
            if (start as u128) + (l as u128) > (usize::MAX as u128) {
                return None;
            }
        },
        None => {},
    }
    let end: usize = match limit {
        None => n,
        Some(l) => if (start as u128) + (l as u128) <= (n as u128) {
            ((start as u128) + (l as u128)) as usize
        } else {
            n
        },
    };
    let mut out = String::new();
    let mut i: usize = start;
    while i < end
        invariant
            start <= i <= end <= n == ls.len(),
            views(lines@) == ls,
            out@ == numbered(ls, start as int, i as int),
        decreases end - i,
    {
        push_decimal_wide(&mut out, (i as u128) + 1);
        push_str(&mut out, "\t");
        let l = string_from_chars(lines[i].as_slice());
        push_str(&mut out, l.as_str());
        push_str(&mut out, "\n");
        proof {
            assert(views(lines@)[i as int] == lines@[i as int]@);
        }
        assert(out@ =~= numbered(ls, start as int, i + 1));
        i = i + 1;
    }
    Some(out)
}

/// The text shown for a text file: its lossily decoded content, numbered
/// and windowed, cut to `max_bytes` with the truncation marker when longer.
pub open spec fn text_file_view(bytes: Seq<u8>, offset: u64, limit: Option<u64>, max_bytes: nat) -> Seq<char> {
    let out = numbered_view(lossy_text(bytes), offset, limit);
    if utf8_len(out) > max_bytes {
        cut_with_marker(out, max_bytes)
    } else {
        out
    }
}

/// The result for a text file's bytes; nothing when the window's end
/// overflows a `usize`.
pub fn text_file_result(bytes: &[u8], offset: u64, limit: Option<u64>, max_read_bytes: usize) -> (r: Option<ToolResult>)
    requires
        offset >= 1,
    ensures
        match r {
            Some(res) => !window_overflows(offset, limit, lines_of(lossy_text(bytes@)).len() as int)
                && (res matches ToolResult::Text(t) && t@ == text_file_view(bytes@, offset, limit, max_read_bytes as nat)),
            None => window_overflows(offset, limit, lines_of(lossy_text(bytes@)).len() as int),
        },
{
    let content = decode_utf8_lossy(bytes);
    let out = match numbered_lines(content.as_str(), offset, limit) {
        Some(o) => o,
        None => {
            return None;
        },
    };
    let mut result = ToolResult::Text(out);
    result.truncate(max_read_bytes);
    Some(result)
}

// ---------------------------------------------------------------------------
// Notebooks
// ---------------------------------------------------------------------------

/// The string items of a JSON array, concatenated; other items are skipped.
pub open spec fn string_items(v: Seq<JsonValue>) -> Seq<char>
    decreases v.len(),
{
    if v.len() == 0 {
        Seq::empty()
    } else {
        string_items(v.drop_last()) + match v.last() {
            JsonValue::Str(s) => s@,
            _ => Seq::empty(),
        }
    }
}

/// A cell's source: its lines joined (or its text) and a newline; nothing
/// when it has neither.
pub open spec fn source_text(cell: JsonValue) -> Seq<char> {
    match get_spec(cell, "source"@) {
        Some(JsonValue::Array(v)) => string_items(v@) + "\n"@,
        Some(JsonValue::Str(s)) => s@ + "\n"@,
        _ => Seq::empty(),
    }
}

/// `[Cell n (type)]`, the source, and an empty line.
pub open spec fn cell_block(i: int, cell: JsonValue) -> Seq<char> {
    "[Cell "@ + decimal((i + 1) as nat) + " ("@ + match str_field(cell, "cell_type"@) {
        Some(t) => t,
        None => "unknown"@,
    } + ")]\n"@ + source_text(cell) + "\n"@
}

pub open spec fn cells_text(cells: Seq<JsonValue>) -> Seq<char>
    decreases cells.len(),
{
    if cells.len() == 0 {
        Seq::empty()
    } else {
        cells_text(cells.drop_last()) + cell_block(cells.len() - 1, cells.last())
    }
}

fn push_string_items(out: &mut String, v: &Vec<JsonValue>)
    ensures
        final(out)@ == old(out)@ + string_items(v@),
{
    let ghost o = out@;
    let mut i: usize = 0;
    while i < v.len()
        invariant
            i <= v@.len(),
            out@ == o + string_items(v@.take(i as int)),
        decreases v@.len() - i,
    {
        proof {
            assert(v@.take(i + 1).drop_last() =~= v@.take(i as int));
        }
        match v[i].as_str() {
            Some(s) => push_str(out, s),
            None => {},
        }
        assert(out@ =~= o + string_items(v@.take(i + 1)));
        i = i + 1;
    }
    assert(v@.take(i as int) =~= v@);
}

/// Appends the block of cell `i`.
fn push_cell(out: &mut String, i: usize, cell: &JsonValue)
    ensures
        final(out)@ == old(out)@ + cell_block(i as int, *cell),
{
    let ghost before = out@;
    push_str(out, "[Cell ");
    push_decimal_wide(out, (i as u128) + 1);
    push_str(out, " (");
    match cell.str_field("cell_type") {
        Some(t) => push_str(out, t),
        None => push_str(out, "unknown"),
    }
    push_str(out, ")]\n");
    let ghost mid = out@;
    proof {
        reveal_strlit("\n");
    }
    match cell.get("source") {
        Some(src) => match src {
            JsonValue::Array(v) => {
                push_string_items(out, v);
                push_char(out, '\n');
                assert(out@ =~= mid + (string_items(v@) + "\n"@));
            },
            JsonValue::Str(s) => {
                push_str(out, s.as_str());
                push_char(out, '\n');
                assert(out@ =~= mid + (s@ + "\n"@));
            },
            _ => {
                assert(out@ =~= mid + Seq::<char>::empty());
            },
        },
        None => {
            assert(out@ =~= mid + Seq::<char>::empty());
        },
    }
    assert(out@ =~= mid + source_text(*cell));
    push_char(out, '\n');
    assert(out@ =~= before + cell_block(i as int, *cell));
}

/// The cells of a notebook as text, or an error when it has no `cells`
/// array.
pub fn render_notebook(nb: &JsonValue, shown: &str) -> (r: Result<ToolResult, ToolError>)
    ensures
        match get_spec(*nb, "cells"@) {
            Some(JsonValue::Array(cells)) => r matches Ok(ToolResult::Text(t)) && t@ == cells_text(cells@),
            _ => r matches Err(ToolError::Execution(m)) && m@ == "no 'cells' array in notebook '"@ + shown@ + "'"@,
        },
{
    let cells = match nb.get("cells") {
        Some(c) => match c.as_array() {
            Some(a) => a,
            None => {
                let mut m = owned("no 'cells' array in notebook '");
                push_str(&mut m, shown);
                push_str(&mut m, "'");
                return Err(ToolError::Execution(m));
            },
        },
        None => {
            let mut m = owned("no 'cells' array in notebook '");
            push_str(&mut m, shown);
            push_str(&mut m, "'");
            return Err(ToolError::Execution(m));
        },
    };
    let mut out = String::new();
    let mut i: usize = 0;
    proof {
        reveal_strlit("\n");
    }
    while i < cells.len()
        invariant
            i <= cells@.len(),
            out@ == cells_text(cells@.take(i as int)),
        decreases cells@.len() - i,
    {
        push_cell(&mut out, i, &cells[i]);
        proof {
            assert(cells@.take(i + 1).drop_last() =~= cells@.take(i as int));
        }
        assert(out@ =~= cells_text(cells@.take(i + 1)));
        i = i + 1;
    }
    assert(cells@.take(i as int) =~= cells@);
    Ok(ToolResult::Text(out))
}

// ---------------------------------------------------------------------------
// Content hashes and the per-session cache
// ---------------------------------------------------------------------------

/// What `compute_hash` returns for some content: `DefaultHasher::new()` fed
/// the bytes with `Hash::hash`, then `finish`. The hasher starts from fixed
/// keys, so the value is the same for the same bytes within one build; it
/// hashes the length as a `usize`, so it differs between 32-bit and 64-bit
/// targets, and std may change the algorithm between releases. The file
/// cache only compares hashes made by the same running program.
pub uninterp spec fn content_hash_of(data: Seq<u8>) -> u64;

/// Compute a simple hash of byte content. `DefaultHasher::new` is not
/// seeded per process; its result is named `content_hash_of`.
#[verifier::external_body]
pub fn compute_hash(data: &[u8]) -> (r: u64)
    ensures
        r == content_hash_of(data@),
{
    let mut hasher = std::collections::hash_map::DefaultHasher::new();
    std::hash::Hash::hash(data, &mut hasher);
    std::hash::Hasher::finish(&hasher)
}

/// Content hashes of files read, keyed by session and path.
pub struct FileCache {
    entries: Vec<(String, String, u64)>,
}

pub type CacheEntry = (Seq<char>, Seq<char>, u64);

pub open spec fn cache_view(e: Seq<(String, String, u64)>) -> Seq<CacheEntry> {
    e.map_values(|x: (String, String, u64)| (x.0@, x.1@, x.2))
}

/// The hash of the first entry for a session and path.
pub open spec fn lookup(e: Seq<CacheEntry>, session: Seq<char>, path: Seq<char>) -> Option<u64>
    decreases e.len(),
{
    if e.len() == 0 {
        None
    } else {
        match lookup(e.drop_last(), session, path) {
            Some(h) => Some(h),
            None => if e.last().0 == session && e.last().1 == path {
                Some(e.last().2)
            } else {
                None
            },
        }
    }
}

/// The entries for which `keep` holds, in order.
pub open spec fn keep_if(e: Seq<CacheEntry>, keep: spec_fn(CacheEntry) -> bool) -> Seq<CacheEntry>
    decreases e.len(),
{
    if e.len() == 0 {
        Seq::empty()
    } else if keep(e.last()) {
        keep_if(e.drop_last(), keep).push(e.last())
    } else {
        keep_if(e.drop_last(), keep)
    }
}

/// Keeps the entries not of `session` (and, when given, not of `path`).
pub open spec fn not_key(session: Seq<char>, path: Option<Seq<char>>) -> spec_fn(CacheEntry) -> bool {
    |x: CacheEntry| !(x.0 == session && match path {
        Some(p) => x.1 == p,
        None => true,
    })
}

proof fn lemma_lookup_push(e: Seq<CacheEntry>, x: CacheEntry, s: Seq<char>, p: Seq<char>)
    ensures
        lookup(e.push(x), s, p) == match lookup(e, s, p) {
            Some(h) => Some(h),
            None => if x.0 == s && x.1 == p {
                Some(x.2)
            } else {
                None
            },
        },
{
    assert(e.push(x).drop_last() =~= e);
}

/// Filtering keeps the lookup of every key whose entries are all kept, and
/// finds nothing for a key whose entries are all dropped.
proof fn lemma_lookup_keep(e: Seq<CacheEntry>, keep: spec_fn(CacheEntry) -> bool, s: Seq<char>, p: Seq<char>)
    ensures
        (forall|x: CacheEntry| x.0 == s && x.1 == p ==> #[trigger] keep(x)) ==> lookup(keep_if(e, keep), s, p) == lookup(e, s, p),
        (forall|x: CacheEntry| x.0 == s && x.1 == p ==> !#[trigger] keep(x)) ==> lookup(keep_if(e, keep), s, p) is None,
    decreases e.len(),
{
    if e.len() > 0 {
        lemma_lookup_keep(e.drop_last(), keep, s, p);
        lemma_lookup_push(keep_if(e.drop_last(), keep), e.last(), s, p);
    }
}

impl FileCache {
    /// The hash recorded for a session and path, if any.
    pub closed spec fn hash_of(&self, session: Seq<char>, path: Seq<char>) -> Option<u64> {
        lookup(cache_view(self.entries@), session, path)
    }

    /// An empty cache.
    pub fn new() -> (r: FileCache)
        ensures
            forall|s: Seq<char>, p: Seq<char>| r.hash_of(s, p) is None,
    {
        FileCache { entries: Vec::new() }
    }

    /// Keeps the entries for which `drop_session` (when set) and
    /// `drop_key` (when set) do not match.
    fn retain_entries(&mut self, session: &str, path: Option<&str>)
        ensures
            cache_view(final(self).entries@) == keep_if(
                cache_view(old(self).entries@),
                not_key(session@, match path {
                    Some(p) => Some(p@),
                    None => None::<Seq<char>>,
                }),
            ),
    {
        let ghost keep = not_key(session@, match path {
            Some(p) => Some(p@),
            None => None::<Seq<char>>,
        });
        let ghost all = cache_view(self.entries@);
        let mut rest: Vec<(String, String, u64)> = Vec::new();
        std::mem::swap(&mut rest, &mut self.entries);
        let ghost raw = rest@;
        let n = rest.len();
        let mut i: usize = 0;
        assert(raw.skip(0) =~= raw);
        assert(cache_view(self.entries@) =~= keep_if(all.take(0), keep));
        while rest.len() > 0
            invariant
                i + rest@.len() == n == raw.len(),
                rest@ == raw.skip(i as int),
                all == cache_view(raw),
                keep == not_key(session@, match path {
                    Some(p) => Some(p@),
                    None => None::<Seq<char>>,
                }),
                cache_view(self.entries@) == keep_if(all.take(i as int), keep),
            decreases rest@.len(),
        {
            let x = rest.remove(0);
            proof {
                assert(x == raw[i as int]);
                assert(rest@ =~= raw.skip(i + 1));
                assert(all.take(i + 1).drop_last() =~= all.take(i as int));
                assert(all.take(i + 1).last() == (x.0@, x.1@, x.2));
            }
            let same_session = str_eq(x.0.as_str(), session);
            let drop = match path {
                Some(p) => same_session && str_eq(x.1.as_str(), p),
                None => same_session,
            };
            assert(keep(all[i as int]) == !drop);
            if !drop {
                let ghost before = cache_view(self.entries@);
                self.entries.push(x);
                assert(cache_view(self.entries@) =~= before.push(all[i as int]));
            }
            i = i + 1;
        }
        assert(all.take(i as int) =~= all);
    }

    /// Whether the file's content is unchanged since the session last read
    /// it; when it is not, the new hash is recorded.
    pub fn check_and_record(&mut self, session: &str, path: &str, hash: u64) -> (unchanged: bool)
        ensures
            unchanged == (old(self).hash_of(session@, path@) == Some(hash)),
            final(self).hash_of(session@, path@) == Some(hash),
            forall|s: Seq<char>, p: Seq<char>|
                !(s == session@ && p == path@) ==> final(self).hash_of(s, p) == old(self).hash_of(s, p),
    {
        let ghost ev = cache_view(self.entries@);
        let mut found: Option<u64> = None;
        let mut i: usize = 0;
        while i < self.entries.len()
            invariant
                i <= self.entries@.len(),
                ev == cache_view(self.entries@),
                found == lookup(ev.take(i as int), session@, path@),
            decreases self.entries@.len() - i,
        {
            proof {
                assert(ev.take(i + 1).drop_last() =~= ev.take(i as int));
            }
            if found.is_none() && str_eq(self.entries[i].0.as_str(), session) && str_eq(self.entries[i].1.as_str(), path) {
                found = Some(self.entries[i].2);
            }
            i = i + 1;
        }
        assert(ev.take(i as int) =~= ev);
        if found == Some(hash) {
            return true;
        }
        self.retain_entries(session, Some(path));
        let ghost kept = cache_view(self.entries@);
        self.entries.push((owned(session), owned(path), hash));
        proof {
            let keep = not_key(session@, Some(path@));
            assert(kept == keep_if(ev, keep));
            assert(cache_view(self.entries@) =~= kept.push((session@, path@, hash)));
            lemma_lookup_keep(ev, keep, session@, path@);
            lemma_lookup_push(kept, (session@, path@, hash), session@, path@);
            assert forall|s: Seq<char>, p: Seq<char>|
                !(s == session@ && p == path@) implies lookup(cache_view(self.entries@), s, p) == lookup(ev, s, p) by {
                lemma_lookup_keep(ev, keep, s, p);
                lemma_lookup_push(kept, (session@, path@, hash), s, p);
            }
        }
        false
    }

    /// Forgets every entry of a session.
    pub fn clear_session(&mut self, session: &str)
        ensures
            forall|p: Seq<char>| final(self).hash_of(session@, p) is None,
            forall|s: Seq<char>, p: Seq<char>| s != session@ ==> final(self).hash_of(s, p) == old(self).hash_of(s, p),
    {
        let ghost ev = cache_view(self.entries@);
        self.retain_entries(session, None);
        proof {
            let keep = not_key(session@, None);
            assert forall|p: Seq<char>| lookup(cache_view(self.entries@), session@, p) is None by {
                lemma_lookup_keep(ev, keep, session@, p);
            }
            assert forall|s: Seq<char>, p: Seq<char>| s != session@ implies lookup(cache_view(self.entries@), s, p) == lookup(ev, s, p) by {
                lemma_lookup_keep(ev, keep, s, p);
            }
        }
    }
}

/// What reading a text file shows: a binary notice when its first 8 KiB
/// hold a NUL byte; the unchanged notice when the session's last read of
/// the path saw the same content hash; else its numbered lines.
pub open spec fn text_read_view(
    cache_hash: Option<u64>,
    shown: Seq<char>,
    bytes: Seq<u8>,
    offset: u64,
    limit: Option<u64>,
    max_bytes: nat,
) -> Seq<char> {
    if binary_bytes(bytes) {
        "Binary file detected: "@ + shown + " ("@ + decimal(bytes.len()) + " bytes)"@
    } else if cache_hash == Some(content_hash_of(bytes)) {
        "[File unchanged since last read: "@ + shown + "]"@
    } else {
        text_file_view(bytes, offset, limit, max_bytes)
    }
}

/// Reads a text file's bytes for a session: checks for binary content,
/// then the cache (recording the content hash), then numbers the lines;
/// nothing when the window's end overflows a `usize`.
pub fn read_text_file(
    cache: &mut FileCache,
    session: &str,
    shown: &str,
    bytes: &[u8],
    offset: u64,
    limit: Option<u64>,
    max_read_bytes: usize,
) -> (r: Option<ToolResult>)
    requires
        offset >= 1,
    ensures
        ({
            let shows_lines = !binary_bytes(bytes@) && old(cache).hash_of(session@, shown@) != Some(
                content_hash_of(bytes@),
            );
            match r {
                Some(res) => !(shows_lines && window_overflows(offset, limit, lines_of(lossy_text(bytes@)).len() as int))
                    && (res matches ToolResult::Text(t) && t@ == text_read_view(
                    old(cache).hash_of(session@, shown@),
                    shown@,
                    bytes@,
                    offset,
                    limit,
                    max_read_bytes as nat,
                )),
                None => shows_lines && window_overflows(offset, limit, lines_of(lossy_text(bytes@)).len() as int),
            }
        }),
        binary_bytes(bytes@) ==> forall|s: Seq<char>, p: Seq<char>| final(cache).hash_of(s, p) == old(cache).hash_of(s, p),
        !binary_bytes(bytes@) ==> final(cache).hash_of(session@, shown@) == Some(content_hash_of(bytes@)),
        forall|s: Seq<char>, p: Seq<char>|
            !(s == session@ && p == shown@) ==> final(cache).hash_of(s, p) == old(cache).hash_of(s, p),
{
    if looks_binary(bytes) {
        let mut m = owned("Binary file detected: ");
        push_str(&mut m, shown);
        push_str(&mut m, " (");
        push_decimal_wide(&mut m, bytes.len() as u128);
        push_str(&mut m, " bytes)");
        return Some(ToolResult::Text(m));
    }
    let hash = compute_hash(bytes);
    if cache.check_and_record(session, shown, hash) {
        return Some(unchanged_notice(shown));
    }
    text_file_result(bytes, offset, limit, max_read_bytes)
}

/// Forget the cached hashes of a session.
pub fn clear_file_cache(cache: &mut FileCache, session_id: &str)
    ensures
        forall|p: Seq<char>| final(cache).hash_of(session_id@, p) is None,
        forall|s: Seq<char>, p: Seq<char>| s != session_id@ ==> final(cache).hash_of(s, p) == old(cache).hash_of(s, p),
{
    cache.clear_session(session_id);
}

} // verus!
