use confession_core::audit::{escape_newlines, log_confession, log_reply};

#[test]
fn audit_line_exact_format() {
    let line = log_confession("abc123", "hello there");
    assert_eq!(line, "Confession received: abc123 | hello there");
}

#[test]
fn audit_line_escapes_newlines() {
    let line = log_confession("abc", "line1\nline2");
    assert_eq!(line, "Confession received: abc | line1 \\n line2");
}

#[test]
fn escape_newlines_replaces_every_newline() {
    assert_eq!(escape_newlines("a\nb\nc"), "a \\n b \\n c");
    assert_eq!(escape_newlines("\n"), " \\n ");
    assert_eq!(escape_newlines("no breaks"), "no breaks");
    assert_eq!(escape_newlines(""), "");
}

#[test]
fn reply_line_exact_format() {
    let line = log_reply("abc", 42, "hi\nthere");
    assert_eq!(line, "Anonymous reply received: abc | Thread: 42 | hi \\n there");
}
