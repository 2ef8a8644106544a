use rmd5::format::{
    escape_name, format_digest_line, needs_escape, parse_check_line, stdin_digest_line,
    unescape_name,
};

const EMPTY_MD5: &str = "d41d8cd98f00b204e9800998ecf8427e";

#[test]
fn round_trips_escaped_name() {
    let line = format_digest_line(
        "d41d8cd98f00b204e9800998ecf8427e",
        "a\\b\nc",
        false,
    );
    let parsed = parse_check_line(&line).expect("check line");
    assert_eq!(parsed.digest, "d41d8cd98f00b204e9800998ecf8427e");
    assert_eq!(parsed.path, "a\\b\nc");
}

#[test]
fn plain_name_line_matches_md5sum() {
    assert_eq!(
        format_digest_line(EMPTY_MD5, "file.txt", false),
        "d41d8cd98f00b204e9800998ecf8427e  file.txt"
    );
    assert_eq!(
        format_digest_line(EMPTY_MD5, "file.txt", true),
        "d41d8cd98f00b204e9800998ecf8427e *file.txt"
    );
}

#[test]
fn escaped_name_line_matches_md5sum() {
    assert_eq!(
        format_digest_line(EMPTY_MD5, "a\\b\nc", false),
        "\\d41d8cd98f00b204e9800998ecf8427e  a\\\\b\\nc"
    );
    assert!(!format_digest_line(EMPTY_MD5, "x\ny", true).contains('\n'));
}

#[test]
fn round_trips_binary_and_unicode_names() {
    for name in ["plain", "with space", "ünïcödé ✓", "back\\slash", "new\nline", "\\"] {
        for binary in [false, true] {
            let line = format_digest_line(EMPTY_MD5, name, binary);
            let parsed = parse_check_line(&line).expect("check line");
            assert_eq!(parsed.digest, EMPTY_MD5);
            assert_eq!(parsed.path, name);
        }
    }
}

#[test]
fn parse_check_line_refuses_malformed_lines() {
    assert!(parse_check_line("").is_none());
    // too short: 34 bytes, no name
    assert!(parse_check_line("d41d8cd98f00b204e9800998ecf8427e  ").is_none());
    // wrong separators
    assert!(parse_check_line("d41d8cd98f00b204e9800998ecf8427e--name").is_none());
    assert!(parse_check_line("d41d8cd98f00b204e9800998ecf8427e +name").is_none());
    assert!(parse_check_line("d41d8cd98f00b204e9800998ecf8427ex name").is_none());
    // an escaped line whose name ends in a lone backslash
    assert!(parse_check_line("\\d41d8cd98f00b204e9800998ecf8427e  name\\").is_none());
}

#[test]
fn parse_check_line_keeps_digest_text_unchecked() {
    let parsed = parse_check_line("zzzzzzzzzzzzzzzzzzzzzzzzzzzzzzzz *f").unwrap();
    assert_eq!(parsed.digest, "zzzzzzzzzzzzzzzzzzzzzzzzzzzzzzzz");
    assert_eq!(parsed.path, "f");
}

#[test]
fn unmarked_line_keeps_backslashes_in_name() {
    let parsed = parse_check_line("d41d8cd98f00b204e9800998ecf8427e  a\\nb").unwrap();
    assert_eq!(parsed.path, "a\\nb");
}

#[test]
fn marked_line_unescapes_name() {
    let parsed = parse_check_line("\\d41d8cd98f00b204e9800998ecf8427e  a\\nb\\\\c\\qd").unwrap();
    assert_eq!(parsed.path, "a\nb\\c\\qd");
}

#[test]
fn stdin_line_has_dash_name() {
    let digest = [0u8; 16];
    assert_eq!(stdin_digest_line(&digest, false), "00000000000000000000000000000000  -");
    assert_eq!(stdin_digest_line(&digest, true), "00000000000000000000000000000000 *-");
}

#[test]
fn unescape_undoes_escape() {
    for name in ["", "plain", "a\\b\nc", "\\", "\n\n", "ünï\\cödé"] {
        let escaped = escape_name(name);
        assert!(!escaped.contains('\n'));
        assert_eq!(unescape_name(&escaped), Some(name.to_string()));
    }
    assert_eq!(escape_name("a\\b\nc"), "a\\\\b\\nc");
    assert!(needs_escape("x\ny"));
    assert!(!needs_escape("xy"));
    assert_eq!(unescape_name("tail\\"), None);
    assert_eq!(unescape_name("a\\qb"), Some("a\\qb".to_string()));
}
