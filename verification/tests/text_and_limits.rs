use cold_tools::error::ToolError;
use cold_tools::limits::OutputLimits;
use cold_tools::readfile::{read_kind, ReadKind};
use cold_tools::text::{eq_ignore_ascii_case, truncate_to_bytes};
use cold_tools::tool::ToolResult;

#[test]
fn long_lines_are_cut_then_counted() {
    let limits = OutputLimits { max_bytes: 1000, max_lines: 10, max_line_length: 3 };
    assert_eq!(limits.truncate("abcdef\nxy"), "abc [line truncated]\nxy");
    let lines = OutputLimits { max_bytes: 1000, max_lines: 2, max_line_length: 100 };
    assert_eq!(lines.truncate("a\nb\nc"), "a\nb\n[truncated: line limit reached]");
    let bytes = OutputLimits { max_bytes: 5, max_lines: 100, max_line_length: 100 };
    assert_eq!(bytes.truncate("abcdefgh"), "abcde\n[truncated: byte limit reached]");
    assert_eq!(bytes.truncate("abcd\nxyz"), "abcd\n\n[truncated: byte limit reached]");
}

#[test]
fn output_within_limits_is_unchanged() {
    let limits = OutputLimits::default();
    assert_eq!(limits.truncate("one\ntwo"), "one\ntwo");
}

#[test]
fn cutting_never_splits_a_character() {
    assert_eq!(truncate_to_bytes("héllo", 2), "h");
    assert_eq!(truncate_to_bytes("héllo", 3), "hé");
    assert_eq!(truncate_to_bytes("héllo", 99), "héllo");
    assert_eq!(truncate_to_bytes("", 0), "");
}

#[test]
fn results_that_fit_are_not_truncated() {
    let mut r = ToolResult::text("abc");
    r.truncate(3);
    assert_eq!(r.as_text(), "abc");
    let mut e = ToolResult::error("a long error message", false);
    e.truncate(2);
    assert_eq!(e.as_text(), "a long error message");
    let mut t = ToolResult::text("héllo");
    t.truncate(2);
    assert_eq!(t.as_text(), "h\n[truncated]");
}

#[test]
fn case_helpers() {
    assert!(eq_ignore_ascii_case("RS", "rs"));
    assert!(!eq_ignore_ascii_case("rs", "r"));
    assert!(!eq_ignore_ascii_case("É", "é"));
    assert!(matches!(read_kind("Photo.PNG"), ReadKind::Image));
    assert!(matches!(read_kind("REPORT.PDF"), ReadKind::Pdf));
}

#[test]
fn error_messages() {
    assert_eq!(ToolError::NotFound("x".to_string()).message(), "tool not found: x");
    assert_eq!(ToolError::PermissionDenied("no".to_string()).message(), "permission denied: no");
    assert_eq!(ToolError::PathViolation("p".to_string()).message(), "path security violation: p");
    assert_eq!(ToolError::Blocked("b".to_string()).message(), "blocked by guardrails: b");
    let io = ToolError::Io(std::io::Error::new(std::io::ErrorKind::Other, "disk full"));
    assert_eq!(io.message(), "IO error: disk full");
    let from_io: ToolError = std::io::Error::new(std::io::ErrorKind::NotFound, "gone").into();
    assert!(matches!(from_io, ToolError::Io(_)));
}

#[test]
fn output_within_limits_is_kept() {
    let lim = OutputLimits { max_bytes: 100, max_lines: 10, max_line_length: 20 };
    assert_eq!(lim.truncate("abc\n\ndef"), "abc\n\ndef");
    assert_eq!(lim.truncate("é\nü"), "é\nü");
}

#[test]
fn truncated_output_stays_within_bytes_plus_marker() {
    let lim = OutputLimits { max_bytes: 10, max_lines: 100, max_line_length: 1000 };
    let long = "é".repeat(40);
    let out = lim.truncate(&long);
    assert!(out.len() <= 10 + 32);
    assert!(out.ends_with("\n[truncated: byte limit reached]"));
    let lim = OutputLimits { max_bytes: 1000, max_lines: 2, max_line_length: 1000 };
    let out = lim.truncate("a\nb\nc");
    assert_eq!(out, "a\nb\n[truncated: line limit reached]");
}

#[test]
fn leading_empty_lines_are_kept() {
    let lim = OutputLimits { max_bytes: 100, max_lines: 10, max_line_length: 100 };
    assert_eq!(lim.truncate("\na"), "\na");
    assert_eq!(lim.truncate("\n\nabc"), "\n\nabc");
    assert_eq!(lim.truncate("\n"), "");
}
