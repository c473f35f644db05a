//! Results from remote services: MCP tool results and resources, web
//! search results and fetched pages, as the model is shown them.
use vstd::prelude::*;

use crate::error::ToolError;
use crate::json::{str_field, u64_field, JsonValue};
use crate::text::{decimal, owned, push_decimal_wide, push_str, str_byte_len, to_chars, utf8_len};
use crate::tool::ToolResult;

verus! {

/// MCP tool call result.
pub struct McpToolResult {
    /// Content blocks returned by the tool.
    pub content: Vec<McpContent>,
    /// Whether the result is an error.
    pub is_error: Option<bool>,
}

/// A single content block in an MCP result.
pub enum McpContent {
    /// Plain text content.
    Text { text: String },
    /// Base64-encoded image content.
    Image { data: String, mime_type: String },
}

/// An MCP resource exposed by a server.
pub struct McpResource {
    /// Resource URI.
    pub uri: String,
    /// Human-readable name.
    pub name: String,
    /// Optional description.
    pub description: Option<String>,
    /// Optional MIME type.
    pub mime_type: Option<String>,
}

/// A search result from a web search provider.
pub struct SearchResult {
    /// Title of the search result.
    pub title: String,
    /// URL of the search result.
    pub url: String,
    /// Snippet/summary of the search result.
    pub snippet: String,
}

/// Texts joined by newlines.
pub open spec fn joined(parts: Seq<Seq<char>>) -> Seq<char>
    decreases parts.len(),
{
    if parts.len() == 0 {
        Seq::empty()
    } else if parts.len() == 1 {
        parts[0]
    } else {
        joined(parts.drop_last()) + "\n"@ + parts.last()
    }
}

/// The text blocks of an MCP result, images left out.
pub open spec fn text_parts(c: Seq<McpContent>) -> Seq<Seq<char>>
    decreases c.len(),
{
    if c.len() == 0 {
        Seq::empty()
    } else {
        match c.last() {
            McpContent::Text { text } => text_parts(c.drop_last()).push(text@),
            McpContent::Image { .. } => text_parts(c.drop_last()),
        }
    }
}

/// Every block of an MCP result as text; an image as a short note.
pub open spec fn all_parts(c: Seq<McpContent>) -> Seq<Seq<char>>
    decreases c.len(),
{
    if c.len() == 0 {
        Seq::empty()
    } else {
        all_parts(c.drop_last()).push(
            match c.last() {
                McpContent::Text { text } => text@,
                McpContent::Image { data, mime_type } => "[Image: "@ + mime_type@ + ", "@ + decimal(utf8_len(data@))
                    + " bytes base64]"@,
            },
        )
    }
}

fn push_joined(out: &mut String, parts: &Vec<String>)
    ensures
        final(out)@ == old(out)@ + joined(parts@.map_values(|s: String| s@)),
{
    let ghost o = out@;
    let ghost ps = parts@.map_values(|s: String| s@);
    let mut i: usize = 0;
    while i < parts.len()
        invariant
            i <= parts@.len(),
            ps == parts@.map_values(|s: String| s@),
            out@ == o + joined(ps.take(i as int)),
        decreases parts@.len() - i,
    {
        if i > 0 {
            push_str(out, "\n");
        }
        push_str(out, parts[i].as_str());
        proof {
            assert(ps.take(i + 1).drop_last() =~= ps.take(i as int));
            if i == 0 {
                assert(ps.take(1) =~= seq![ps[0]]);
            }
        }
        assert(out@ =~= o + joined(ps.take(i + 1)));
        i = i + 1;
    }
    assert(ps.take(i as int) =~= ps);
}

/// What the model is shown of an MCP tool result: the text blocks as a
/// recoverable error when the server reports an error, else every block
/// (images as a note), or nothing when there are none.
pub open spec fn mcp_outcome_ok(res: McpToolResult, r: ToolResult) -> bool {
    if res.is_error == Some(true) {
        r matches ToolResult::Error { message, recoverable } && recoverable && message@ == joined(text_parts(res.content@))
    } else if res.content@.len() == 0 {
        r is Empty
    } else {
        r matches ToolResult::Text(t) && t@ == joined(all_parts(res.content@))
    }
}

/// Converts an MCP tool result into a tool result.
pub fn mcp_outcome(res: &McpToolResult) -> (r: ToolResult)
    ensures
        mcp_outcome_ok(*res, r),
{
    let error = match res.is_error {
        Some(b) => b,
        None => false,
    };
    let mut parts: Vec<String> = Vec::new();
    let mut i: usize = 0;
    while i < res.content.len()
        invariant
            i <= res.content@.len(),
            parts@.map_values(|s: String| s@) == if error {
                text_parts(res.content@.take(i as int))
            } else {
                all_parts(res.content@.take(i as int))
            },
            error == (res.is_error == Some(true)),
        decreases res.content@.len() - i,
    {
        let ghost before = parts@.map_values(|s: String| s@);
        proof {
            assert(res.content@.take(i + 1).drop_last() =~= res.content@.take(i as int));
        }
        match &res.content[i] {
            McpContent::Text { text } => {
                parts.push(owned(text.as_str()));
                assert(parts@.map_values(|s: String| s@) =~= before.push(text@));
            },
            McpContent::Image { data, mime_type } => {
                if !error {
                    let mut note = owned("[Image: ");
                    push_str(&mut note, mime_type.as_str());
                    push_str(&mut note, ", ");
                    push_decimal_wide(&mut note, str_byte_len(data.as_str()) as u128);
                    push_str(&mut note, " bytes base64]");
                    parts.push(note);
                    assert(parts@.map_values(|s: String| s@) =~= before.push(
                        "[Image: "@ + mime_type@ + ", "@ + decimal(utf8_len(data@)) + " bytes base64]"@,
                    ));
                }
            },
        }
        i = i + 1;
    }
    assert(res.content@.take(i as int) =~= res.content@);
    if error {
        let mut m = String::new();
        push_joined(&mut m, &parts);
        return ToolResult::Error { message: m, recoverable: true };
    }
    if parts.len() == 0 {
        proof {
            lemma_all_parts_len(res.content@);
        }
        return ToolResult::Empty;
    }
    proof {
        lemma_all_parts_len(res.content@);
    }
    let mut t = String::new();
    push_joined(&mut t, &parts);
    ToolResult::Text(t)
}

proof fn lemma_all_parts_len(c: Seq<McpContent>)
    ensures
        all_parts(c).len() == c.len(),
    decreases c.len(),
{
    if c.len() > 0 {
        lemma_all_parts_len(c.drop_last());
    }
}

/// The description of an MCP tool, or a placeholder when it has none.
pub fn mcp_description(description: Option<&str>) -> (r: &str)
    ensures
        r@ == match description {
            Some(d) => d@,
            None => "MCP tool (no description)"@,
        },
{
    match description {
        Some(d) => d,
        None => "MCP tool (no description)",
    }
}

/// `- name (uri)` with the description and type lines that are present.
pub open spec fn resource_entry(r: McpResource) -> Seq<char> {
    "- "@ + r.name@ + " ("@ + r.uri@ + ")\n"@ + match r.description {
        Some(d) => "  "@ + d@ + "\n"@,
        None => Seq::empty(),
    } + match r.mime_type {
        Some(m) => "  Type: "@ + m@ + "\n"@,
        None => Seq::empty(),
    }
}

pub open spec fn resource_entries(rs: Seq<McpResource>) -> Seq<char>
    decreases rs.len(),
{
    if rs.len() == 0 {
        Seq::empty()
    } else {
        resource_entries(rs.drop_last()) + resource_entry(rs.last())
    }
}

fn push_resource_entry(out: &mut String, r: &McpResource)
    ensures
        final(out)@ == old(out)@ + resource_entry(*r),
{
    let ghost o = out@;
    push_str(out, "- ");
    push_str(out, r.name.as_str());
    push_str(out, " (");
    push_str(out, r.uri.as_str());
    push_str(out, ")\n");
    let ghost a = out@;
    match &r.description {
        Some(d) => {
            push_str(out, "  ");
            push_str(out, d.as_str());
            push_str(out, "\n");
        },
        None => {},
    }
    let ghost b = out@;
    assert(b =~= a + match r.description {
        Some(d) => "  "@ + d@ + "\n"@,
        None => Seq::empty(),
    });
    match &r.mime_type {
        Some(m) => {
            push_str(out, "  Type: ");
            push_str(out, m.as_str());
            push_str(out, "\n");
        },
        None => {},
    }
    assert(out@ =~= b + match r.mime_type {
        Some(m) => "  Type: "@ + m@ + "\n"@,
        None => Seq::empty(),
    });
    assert(out@ =~= o + resource_entry(*r));
}

/// The listing of a server's resources.
pub fn resources_report(server: &str, resources: &Vec<McpResource>) -> (r: String)
    ensures
        r@ == if resources@.len() == 0 {
            "No resources available from MCP server '"@ + server@ + "'"@
        } else {
            "Resources from MCP server '"@ + server@ + "' ("@ + decimal(resources@.len()) + " total):\n\n"@
                + resource_entries(resources@)
        },
{
    let mut out = String::new();
    if resources.len() == 0 {
        push_str(&mut out, "No resources available from MCP server '");
        push_str(&mut out, server);
        push_str(&mut out, "'");
        return out;
    }
    push_str(&mut out, "Resources from MCP server '");
    push_str(&mut out, server);
    push_str(&mut out, "' (");
    push_decimal_wide(&mut out, resources.len() as u128);
    push_str(&mut out, " total):\n\n");
    let ghost head = out@;
    let mut i: usize = 0;
    while i < resources.len()
        invariant
            i <= resources@.len(),
            out@ == head + resource_entries(resources@.take(i as int)),
        decreases resources@.len() - i,
    {
        let r = &resources[i];
        let ghost before = out@;
        push_resource_entry(&mut out, r);
        assert(out@ =~= before + resource_entry(*r));
        proof {
            assert(resources@.take(i + 1).drop_last() =~= resources@.take(i as int));
        }
        i = i + 1;
    }
    assert(resources@.take(i as int) =~= resources@);
    out
}

/// The text of a read resource.
pub fn resource_report(uri: &str, server: &str, content: &str) -> (r: String)
    ensures
        r@ == "Resource '"@ + uri@ + "' from MCP server '"@ + server@ + "':\n\n"@ + content@,
{
    let mut out = owned("Resource '");
    push_str(&mut out, uri);
    push_str(&mut out, "' from MCP server '");
    push_str(&mut out, server);
    push_str(&mut out, "':\n\n");
    push_str(&mut out, content);
    out
}

/// Reads a required string argument.
pub fn required_arg<'a>(args: &'a JsonValue, key: &str) -> (r: Result<&'a str, ToolError>)
    ensures
        match str_field(*args, key@) {
            Some(s) => r matches Ok(x) && x@ == s,
            None => r matches Err(ToolError::Execution(m)) && m@ == "missing required parameter '"@ + key@ + "'"@,
        },
{
    match args.str_field(key) {
        Some(s) => Ok(s),
        None => {
            let mut m = owned("missing required parameter '");
            push_str(&mut m, key);
            push_str(&mut m, "'");
            Err(ToolError::Execution(m))
        },
    }
}

/// A numeric argument, or its default.
pub fn u64_arg_or(args: &JsonValue, key: &str, default: u64) -> (r: u64)
    ensures
        r == match u64_field(*args, key@) {
            Some(n) => n,
            None => default,
        },
{
    match args.u64_field(key) {
        Some(n) => n,
        None => default,
    }
}

/// One search result: its number and title, URL and snippet.
pub open spec fn result_entry(i: int, r: SearchResult) -> Seq<char> {
    decimal((i + 1) as nat) + ". "@ + r.title@ + "\n   URL: "@ + r.url@ + "\n   "@ + r.snippet@ + "\n\n"@
}

pub open spec fn result_entries(rs: Seq<SearchResult>) -> Seq<char>
    decreases rs.len(),
{
    if rs.len() == 0 {
        Seq::empty()
    } else {
        result_entries(rs.drop_last()) + result_entry(rs.len() - 1, rs.last())
    }
}

/// The report of a web search.
pub fn search_report(query: &str, results: &Vec<SearchResult>) -> (r: String)
    ensures
        r@ == if results@.len() == 0 {
            "No results found for query: "@ + query@
        } else {
            "Search results for \""@ + query@ + "\":\n\n"@ + result_entries(results@)
        },
{
    let mut out = String::new();
    if results.len() == 0 {
        push_str(&mut out, "No results found for query: ");
        push_str(&mut out, query);
        return out;
    }
    push_str(&mut out, "Search results for \"");
    push_str(&mut out, query);
    push_str(&mut out, "\":\n\n");
    let ghost head = out@;
    let mut i: usize = 0;
    while i < results.len()
        invariant
            i <= results@.len(),
            out@ == head + result_entries(results@.take(i as int)),
        decreases results@.len() - i,
    {
        let r = &results[i];
        push_decimal_wide(&mut out, (i as u128) + 1);
        push_str(&mut out, ". ");
        push_str(&mut out, r.title.as_str());
        push_str(&mut out, "\n   URL: ");
        push_str(&mut out, r.url.as_str());
        push_str(&mut out, "\n   ");
        push_str(&mut out, r.snippet.as_str());
        push_str(&mut out, "\n\n");
        proof {
            assert(results@.take(i + 1).drop_last() =~= results@.take(i as int));
        }
        assert(out@ =~= head + result_entries(results@.take(i + 1)));
        i = i + 1;
    }
    assert(results@.take(i as int) =~= results@);
    out
}

/// `n` is a character boundary of `s`: the byte length of some prefix.
pub open spec fn is_boundary(s: Seq<char>, n: nat) -> bool {
    exists|k: int| 0 <= k <= s.len() && utf8_len(#[trigger] s.take(k)) == n
}

/// The page as shown: cut to `max_length` bytes with a marker when longer,
/// and a note on a requested CSS selector.
pub open spec fn fetch_text(url: Seq<char>, content: Seq<char>, max_length: nat, selector: Option<Seq<char>>) -> Seq<char> {
    let body = if utf8_len(content) > max_length {
        crate::text::truncate_bytes(content, max_length) + "\n[truncated]"@
    } else {
        content
    };
    "Content from "@ + url + ":\n\n"@ + body + match selector {
        Some(s) => "\n\n[Note: CSS selector '"@ + s + "' was requested]"@,
        None => Seq::empty(),
    }
}

/// Formats a fetched page. When it is longer than `max_length` bytes, that
/// length must fall on a character boundary (`String::truncate` requires
/// it).
pub fn fetch_report(url: &str, content: &str, max_length: usize, selector: Option<&str>) -> (r: String)
    requires
        utf8_len(content@) > max_length ==> is_boundary(content@, max_length as nat),
    ensures
        r@ == fetch_text(url@, content@, max_length as nat, match selector {
            Some(s) => Some(s@),
            None => None,
        }),
{
    let mut out = owned("Content from ");
    push_str(&mut out, url);
    push_str(&mut out, ":\n\n");
    if str_byte_len(content) > max_length {
        let cut = crate::text::truncate_to_bytes(content, max_length);
        push_str(&mut out, cut.as_str());
        push_str(&mut out, "\n[truncated]");
    } else {
        push_str(&mut out, content);
    }
    match selector {
        Some(s) => {
            push_str(&mut out, "\n\n[Note: CSS selector '");
            push_str(&mut out, s);
            push_str(&mut out, "' was requested]");
        },
        None => {},
    }
    proof {
        reveal_strlit("");
    }
    assert(out@ =~= fetch_text(url@, content@, max_length as nat, match selector {
        Some(s) => Some(s@),
        None => None,
    }));
    out
}

} // verus!
