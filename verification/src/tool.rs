//! Tool results, permission levels and output truncation.
use vstd::prelude::*;

use crate::json::JsonDoc;
use crate::text::{owned, push_str, truncate_bytes, truncate_to_bytes, utf8_len, str_byte_len};

verus! {

/// Permission level required for tool execution.
#[derive(Debug, Clone, Copy, PartialEq, Eq, Structural)]
pub enum Permission {
    /// Always auto-approve.
    Auto,
    /// Ask user before execution.
    Ask,
    /// Require explicit confirmation.
    Confirm,
}

/// Result of a tool execution.
#[derive(Debug)]
pub enum ToolResult {
    /// Plain text output.
    Text(String),
    /// Structured JSON output.
    Json(JsonDoc),
    /// Error result returned to the model (not a Rust error).
    Error { message: String, recoverable: bool },
    /// No output.
    Empty,
}

/// The marker appended to text cut by `ToolResult::truncate`.
pub open spec fn cut_with_marker(s: Seq<char>, max: nat) -> Seq<char> {
    truncate_bytes(s, max) + "\n[truncated]"@
}

/// What `ToolResult::truncate(max)` leaves of a result.
pub open spec fn truncated_result_text(r: ToolResult, max: nat) -> Option<Seq<char>> {
    match r {
        ToolResult::Text(s) => if utf8_len(s@) > max {
            Some(cut_with_marker(s@, max))
        } else {
            Some(s@)
        },
        ToolResult::Json(d) => if utf8_len(d.text@) > max {
            Some(cut_with_marker(d.text@, max))
        } else {
            None
        },
        _ => None,
    }
}

/// The text `as_text` reports for a result.
pub open spec fn result_text(r: ToolResult) -> Seq<char> {
    match r {
        ToolResult::Text(s) => s@,
        ToolResult::Error { message, .. } => message@,
        ToolResult::Json(_) => "<json>"@,
        ToolResult::Empty => Seq::empty(),
    }
}

/// Truncate a string to at most `max_bytes`, respecting char boundaries.
pub fn safe_truncate(s: &str, max_bytes: usize) -> (r: String)
    ensures
        r@ == truncate_bytes(s@, max_bytes as nat),
{
    truncate_to_bytes(s, max_bytes)
}

fn cut_text(s: &str, max_bytes: usize) -> (r: String)
    ensures
        r@ == cut_with_marker(s@, max_bytes as nat),
{
    let mut r = safe_truncate(s, max_bytes);
    push_str(&mut r, "\n[truncated]");
    r
}

impl ToolResult {
    /// Create a text result.
    pub fn text(s: &str) -> (r: Self)
        ensures
            r matches ToolResult::Text(t) && t@ == s@,
    {
        ToolResult::Text(owned(s))
    }

    /// Create an error result returned to the model.
    pub fn error(msg: &str, recoverable: bool) -> (r: Self)
        ensures
            r matches ToolResult::Error { message, recoverable: rec } && message@ == msg@ && rec
                == recoverable,
    {
        ToolResult::Error { message: owned(msg), recoverable }
    }

    /// Truncate output to `max_bytes`, appending `[truncated]` if needed.
    /// A JSON result that is too long becomes text; errors and empty
    /// results are left as they are.
    pub fn truncate(&mut self, max_bytes: usize)
        ensures
            match truncated_result_text(*old(self), max_bytes as nat) {
                Some(t) => *final(self) matches ToolResult::Text(s) && s@ == t,
                None => *final(self) == *old(self),
            },
    {
        let replacement: Option<String> = match &*self {
            ToolResult::Text(s) => {
                if str_byte_len(s.as_str()) > max_bytes {
                    Some(cut_text(s.as_str(), max_bytes))
                } else {
                    None
                }
            },
            ToolResult::Json(d) => {
                if str_byte_len(d.text.as_str()) > max_bytes {
                    Some(cut_text(d.text.as_str(), max_bytes))
                } else {
                    None
                }
            },
            _ => None,
        };
        match replacement {
            Some(t) => {
                *self = ToolResult::Text(t);
            },
            None => {},
        }
    }

    /// Text content (the message for errors, `<json>` for JSON).
    pub fn as_text(&self) -> (r: &str)
        ensures
            r@ == result_text(*self),
    {
        match self {
            ToolResult::Text(s) => s.as_str(),
            ToolResult::Error { message, .. } => message.as_str(),
            ToolResult::Json(_) => "<json>",
            ToolResult::Empty => {
                proof {
                    reveal_strlit("");
                }
                ""
            },
        }
    }
}

} // verus!
