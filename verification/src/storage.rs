//! Results too large for the output cap: what is saved, under which file
//! name, and what the model is shown instead.
use vstd::prelude::*;

use crate::text::{decimal, owned, push_decimal_wide, push_str, truncate_bytes, truncate_to_bytes, utf8_len, str_byte_len};
use crate::tool::ToolResult;

verus! {

/// Preview length in bytes when a result is saved to disk.
pub const PREVIEW_CHARS: usize = 500;

/// The first `PREVIEW_CHARS` bytes of `s`, cut at a character boundary.
pub fn safe_preview(s: &str) -> (r: String)
    ensures
        r@ == truncate_bytes(s@, PREVIEW_CHARS as nat),
{
    truncate_to_bytes(s, PREVIEW_CHARS)
}

/// The text of a result that is larger than `max` bytes and must be saved:
/// a text result's text or a JSON result's serialization.
pub open spec fn oversized_content(r: ToolResult, max: nat) -> Option<Seq<char>> {
    match r {
        ToolResult::Text(s) => if utf8_len(s@) > max {
            Some(s@)
        } else {
            None
        },
        ToolResult::Json(d) => if utf8_len(d.text@) > max {
            Some(d.text@)
        } else {
            None
        },
        _ => None,
    }
}

/// What to do with a finished result before truncation.
pub enum PersistStep {
    /// The result fits (or is an error or empty): keep it.
    Keep(ToolResult),
    /// The result is too large: save this text and show a preview.
    Save(String),
}

/// Whether a result exceeds `max_bytes` and must be saved. Results that fit,
/// errors and empty results are kept unchanged.
pub fn persist_if_large(result: ToolResult, max_bytes: usize) -> (r: PersistStep)
    ensures
        match oversized_content(result, max_bytes as nat) {
            Some(c) => r matches PersistStep::Save(s) && s@ == c,
            None => r == PersistStep::Keep(result),
        },
{
    let big = match &result {
        ToolResult::Text(s) => str_byte_len(s.as_str()) > max_bytes,
        ToolResult::Json(d) => str_byte_len(d.text.as_str()) > max_bytes,
        _ => false,
    };
    if !big {
        return PersistStep::Keep(result);
    }
    match result {
        ToolResult::Text(s) => PersistStep::Save(s),
        ToolResult::Json(d) => PersistStep::Save(d.text),
        _ => PersistStep::Keep(result),
    }
}

/// `{tool}_{millis}.txt`, the file a large result is saved as.
pub fn result_file_name(tool_name: &str, millis: u128) -> (r: String)
    ensures
        r@ == tool_name@ + "_"@ + decimal(millis as nat) + ".txt"@,
{
    let mut r = owned(tool_name);
    push_str(&mut r, "_");
    push_decimal_wide(&mut r, millis);
    push_str(&mut r, ".txt");
    r
}

/// What the model sees of saved content: where it was saved and a preview,
/// or only the preview when saving failed.
pub open spec fn stored_text(content: Seq<char>, saved_to: Option<Seq<char>>) -> Seq<char> {
    match saved_to {
        Some(p) => "[Result saved to "@ + p + "]\n\nPreview:\n"@ + truncate_bytes(content, PREVIEW_CHARS as nat)
            + "..."@,
        None => truncate_bytes(content, PREVIEW_CHARS as nat),
    }
}

/// The result shown in place of saved content.
pub fn stored_result(content: &str, saved_to: Option<&str>) -> (r: ToolResult)
    ensures
        r matches ToolResult::Text(t) && t@ == stored_text(content@, match saved_to {
            Some(p) => Some(p@),
            None => None::<Seq<char>>,
        }),
{
    let preview = safe_preview(content);
    match saved_to {
        Some(p) => {
            let mut t = owned("[Result saved to ");
            push_str(&mut t, p);
            push_str(&mut t, "]\n\nPreview:\n");
            push_str(&mut t, preview.as_str());
            push_str(&mut t, "...");
            ToolResult::Text(t)
        },
        None => ToolResult::Text(preview),
    }
}

} // verus!
