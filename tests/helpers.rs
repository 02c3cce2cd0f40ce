use bdf_parser::helpers::{comment, optional_comments, parse_i32, parse_i64, parse_u32, take_until_line_ending};

#[test]
fn it_takes_until_any_line_ending() {
    let unix: &[u8] = b"Unix line endings\n";
    let end = take_until_line_ending(unix, 0);
    assert_eq!(
        (&unix[end..], &unix[..end]),
        (b"\n".as_ref(), b"Unix line endings".as_ref())
    );

    let windows: &[u8] = b"Windows line endings\r\n";
    let end = take_until_line_ending(windows, 0);
    assert_eq!(
        (&windows[end..], &windows[..end]),
        (b"\r\n".as_ref(), b"Windows line endings".as_ref())
    );
}

#[test]
fn it_parses_comments() {
    let comment_text: &[u8] = b"COMMENT test text\n";
    let out = comment(comment_text, 0);

    assert_eq!(out, Some(("test text".to_string(), comment_text.len())));

    // empty comments
    let empty: &[u8] = b"COMMENT\n";
    assert_eq!(comment(empty, 0), Some(("".to_string(), empty.len())));
}

#[test]
fn comment_needs_a_separator_after_the_keyword() {
    assert_eq!(comment(b"COMMENTS are not comments\n", 0), None);
}

#[test]
fn comment_accepts_windows_line_endings_and_end_of_input() {
    let crlf: &[u8] = b"COMMENT windows\r\n";
    assert_eq!(comment(crlf, 0), Some(("windows".to_string(), crlf.len())));
    let last: &[u8] = b"COMMENT last line";
    assert_eq!(comment(last, 0), Some(("last line".to_string(), last.len())));
}

#[test]
fn optional_comments_reads_directly_following_comment_lines() {
    let input: &[u8] = b"\n  COMMENT one\r\nCOMMENT two\nFONT x\n";
    let (texts, end) = optional_comments(input, 0);
    assert_eq!(texts, vec!["one".to_string(), "two".to_string()]);
    assert_eq!(&input[end..], b"FONT x\n".as_ref());
}

#[test]
fn optional_comments_stops_at_a_blank_line() {
    let input: &[u8] = b"COMMENT\n\nX";
    assert_eq!(optional_comments(input, 0), (vec!["".to_string()], 8));
    let input: &[u8] = b"\n  COMMENT one\n\nCOMMENT two\nFONT x\n";
    let (texts, end) = optional_comments(input, 0);
    assert_eq!(texts, vec!["one".to_string()]);
    assert_eq!(&input[end..], b"\nCOMMENT two\nFONT x\n".as_ref());
}

#[test]
fn optional_comments_without_comments_skips_whitespace_only() {
    let input: &[u8] = b" \t\nFONT x\n";
    assert_eq!(optional_comments(input, 0), (vec![], 3));
}

#[test]
fn comment_text_runs_to_the_line_feed() {
    let input: &[u8] = b"COMMENT a\rb\n";
    assert_eq!(comment(input, 0), Some(("a\rb".to_string(), input.len())));
    let input: &[u8] = b"COMMENT a\rb\r\n";
    assert_eq!(comment(input, 0), Some(("a\rb".to_string(), input.len())));
    let input: &[u8] = b"COMMENT\r\n";
    assert_eq!(comment(input, 0), Some(("".to_string(), input.len())));
    // Without a space, the line must end right after the keyword.
    assert_eq!(comment(b"COMMENT\rX\n", 0), None);
}

#[test]
fn optional_comments_reads_a_comment_with_a_lone_carriage_return() {
    let input: &[u8] = b"COMMENT a\rb\nX";
    assert_eq!(optional_comments(input, 0), (vec!["a\rb".to_string()], 12));
}

#[test]
fn integers_are_read_with_their_limits() {
    assert_eq!(parse_i32(b"-2147483648 ", 0), Some((i32::MIN, 11)));
    assert_eq!(parse_i32(b"2147483647", 0), Some((i32::MAX, 10)));
    assert_eq!(parse_i32(b"2147483648", 0), None);
    assert_eq!(parse_i32(b"+17x", 0), Some((17, 3)));
    assert_eq!(parse_i32(b"-", 0), None);
    assert_eq!(parse_u32(b"4294967295", 0), Some((u32::MAX, 10)));
    assert_eq!(parse_u32(b"4294967296", 0), None);
    assert_eq!(parse_u32(b"-1", 0), None);
    assert_eq!(parse_i64(b"-9223372036854775808", 0), Some((i64::MIN, 20)));
    assert_eq!(parse_i64(b"9223372036854775808", 0), None);
}
