use cold_tools::limits::OutputLimits;

#[test]
fn test_default_limits() {
    let limits = OutputLimits::default();
    assert_eq!(limits.max_bytes, 50_000);
    assert_eq!(limits.max_lines, 2_000);
    assert_eq!(limits.max_line_length, 2_000);
}

#[test]
fn test_truncate_lines() {
    let limits = OutputLimits { max_bytes: 100_000, max_lines: 3, max_line_length: 1000 };
    let input = "line1\nline2\nline3\nline4\nline5";
    let result = limits.truncate(input);
    assert!(result.contains("line3"));
    assert!(result.contains("[truncated: line limit reached]"));
}

#[test]
fn test_truncate_bytes() {
    let limits = OutputLimits { max_bytes: 10, max_lines: 1000, max_line_length: 1000 };
    let input = "a".repeat(100);
    let result = limits.truncate(&input);
    assert!(result.contains("[truncated: byte limit reached]"));
}
