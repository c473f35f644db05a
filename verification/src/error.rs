//! Errors of tool execution.
use vstd::prelude::*;

use crate::text::push_str;

verus! {

#[verifier::external_type_specification]
#[verifier::external_body]
pub struct ExIoError(std::io::Error);

#[verifier::external_type_specification]
#[verifier::external_body]
pub struct ExJsonError(serde_json::Error);

/// Errors that can occur during tool execution.
#[derive(Debug)]
pub enum ToolError {
    /// Tool execution failed.
    Execution(String),
    /// Tool not found in registry.
    NotFound(String),
    /// Permission denied.
    PermissionDenied(String),
    /// Blocked by guardrails.
    Blocked(String),
    /// Timed out.
    Timeout { tool: String, timeout_secs: u64 },
    /// Path security violation.
    PathViolation(String),
    /// IO error.
    Io(std::io::Error),
    /// JSON error.
    Json(serde_json::Error),
}

/// `Display` of `std::io::Error`. The text comes from the operating system
/// and is not stated here.
#[verifier::external_body]
fn io_error_text(e: &std::io::Error) -> String {
    e.to_string()
}

/// `Display` of `serde_json::Error`. The error is opaque, so its text is not
/// stated here.
#[verifier::external_body]
fn json_error_text(e: &serde_json::Error) -> String {
    e.to_string()
}

/// The rendered message of an error whose payload is plain text.
pub open spec fn error_message(e: ToolError) -> Option<Seq<char>> {
    match e {
        ToolError::Execution(m) => Some("tool execution failed: "@ + m@),
        ToolError::NotFound(m) => Some("tool not found: "@ + m@),
        ToolError::PermissionDenied(m) => Some("permission denied: "@ + m@),
        ToolError::Blocked(m) => Some("blocked by guardrails: "@ + m@),
        ToolError::Timeout { tool, timeout_secs } => Some(
            "tool '"@ + tool@ + "' timed out after "@ + crate::text::decimal(timeout_secs as nat)
                + "s"@,
        ),
        ToolError::PathViolation(m) => Some("path security violation: "@ + m@),
        _ => None,
    }
}

impl ToolError {
    /// The human-readable message of the error.
    pub fn message(&self) -> (r: String)
        ensures
            error_message(*self) matches Some(m) ==> r@ == m,
    {
        let mut r = String::new();
        match self {
            ToolError::Execution(m) => {
                push_str(&mut r, "tool execution failed: ");
                push_str(&mut r, m.as_str());
            },
            ToolError::NotFound(m) => {
                push_str(&mut r, "tool not found: ");
                push_str(&mut r, m.as_str());
            },
            ToolError::PermissionDenied(m) => {
                push_str(&mut r, "permission denied: ");
                push_str(&mut r, m.as_str());
            },
            ToolError::Blocked(m) => {
                push_str(&mut r, "blocked by guardrails: ");
                push_str(&mut r, m.as_str());
            },
            ToolError::Timeout { tool, timeout_secs } => {
                push_str(&mut r, "tool '");
                push_str(&mut r, tool.as_str());
                push_str(&mut r, "' timed out after ");
                crate::text::push_decimal(&mut r, *timeout_secs);
                push_str(&mut r, "s");
            },
            ToolError::PathViolation(m) => {
                push_str(&mut r, "path security violation: ");
                push_str(&mut r, m.as_str());
            },
            ToolError::Io(e) => {
                push_str(&mut r, "IO error: ");
                let t = io_error_text(e);
                push_str(&mut r, t.as_str());
            },
            ToolError::Json(e) => {
                push_str(&mut r, "JSON error: ");
                let t = json_error_text(e);
                push_str(&mut r, t.as_str());
            },
        }
        assert(error_message(*self) matches Some(m) ==> r@ =~= m);
        r
    }
}

impl From<std::io::Error> for ToolError {
    fn from(err: std::io::Error) -> (r: Self) {
        ToolError::Io(err)
    }
}

impl vstd::std_specs::convert::FromSpecImpl<std::io::Error> for ToolError {
    open spec fn obeys_from_spec() -> bool {
        true
    }

    open spec fn from_spec(v: std::io::Error) -> Self {
        ToolError::Io(v)
    }
}

impl From<serde_json::Error> for ToolError {
    fn from(err: serde_json::Error) -> (r: Self) {
        ToolError::Json(err)
    }
}

impl vstd::std_specs::convert::FromSpecImpl<serde_json::Error> for ToolError {
    open spec fn obeys_from_spec() -> bool {
        true
    }

    open spec fn from_spec(v: serde_json::Error) -> Self {
        ToolError::Json(v)
    }
}

} // verus!
