use irclogs::buffer::OutputBuffer;

#[test]
fn test_buffer_cap_exact() {
    let mut buf = OutputBuffer::new();
    let big = "x".repeat(99_998);
    let truncated = buf.append_str(&big);
    assert!(!truncated);
    assert_eq!(buf.byte_len(), 99_998);
    // pushes the buffer past the cap: truncated to exactly 100000 bytes
    let truncated = buf.append_str("abcdef");
    assert!(truncated);
    assert_eq!(buf.byte_len(), 100_000);
    // a subsequent append still respects the same cap
    let truncated = buf.append_line("more");
    assert!(truncated);
    assert_eq!(buf.byte_len(), 100_000);
}

#[test]
fn test_buffer_append_and_clear() {
    let mut buf = OutputBuffer::new();
    buf.append_line("hello");
    assert_eq!(buf.as_string(), "hello\n");
    assert_eq!(buf.byte_len(), 6);
    buf.clear();
    assert_eq!(buf.byte_len(), 0);
    buf.append_str("  \t\n");
    assert_eq!(buf.byte_len(), 4);
}

#[test]
fn test_buffer_contents_round_trip() {
    let mut buf = OutputBuffer::new();
    buf.append_str("line one\n");
    buf.append_str("line two");
    assert_eq!(buf.contents(), b"line one\nline two".to_vec());
    assert_eq!(buf.as_string(), "line one\nline two");
}
