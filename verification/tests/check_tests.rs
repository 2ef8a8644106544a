use rmd5::check::{
    check_entries, check_entry, check_exit_code, check_warnings, classify, improper_line_message,
    no_entries_message, status_line, tally, CheckStatus,
};
use rmd5::format::format_digest_line;
use rmd5::md5::{parse_hex, to_hex, Md5};

#[test]
fn entry_from_written_line() {
    let mut md5 = Md5::new();
    md5.update(b"abc");
    let digest = md5.finalize();
    let line = format_digest_line(&to_hex(&digest), "dir/abc.txt", true);
    let entry = check_entry(&line).expect("entry");
    assert_eq!(entry.path, "dir/abc.txt");
    assert_eq!(entry.expected, digest);
}

#[test]
fn entry_accepts_uppercase_digest() {
    let entry = check_entry("D41D8CD98F00B204E9800998ECF8427E  f").unwrap();
    assert_eq!(entry.expected, parse_hex("d41d8cd98f00b204e9800998ecf8427e").unwrap());
}

#[test]
fn entry_refuses_bad_lines() {
    assert!(check_entry("").is_none());
    assert!(check_entry("not a checksum line at all, really not").is_none());
    assert!(check_entry("zzzzzzzzzzzzzzzzzzzzzzzzzzzzzzzz  f").is_none());
}

#[test]
fn messages_for_bad_files() {
    assert_eq!(
        improper_line_message("sums.md5", 0),
        "rmd5: sums.md5:1: improperly formatted MD5 checksum line"
    );
    assert_eq!(
        improper_line_message("-", 41),
        "rmd5: -:42: improperly formatted MD5 checksum line"
    );
    assert_eq!(
        no_entries_message("sums.md5"),
        "rmd5: sums.md5: no properly formatted checksum lines found"
    );
}

#[test]
fn classify_outcomes() {
    let a = [1u8; 16];
    let mut b = a;
    b[15] = 2;
    assert_eq!(classify(Some(a), a), CheckStatus::Passed);
    assert_eq!(classify(Some(b), a), CheckStatus::Failed);
    assert_eq!(classify(None, a), CheckStatus::ReadError);
}

#[test]
fn status_lines() {
    assert_eq!(status_line("f", CheckStatus::Passed), "f: OK");
    assert_eq!(status_line("f", CheckStatus::Failed), "f: FAILED");
    assert_eq!(status_line("f", CheckStatus::ReadError), "f: FAILED open or read");
}

#[test]
fn tally_and_warnings() {
    let all_ok = vec![CheckStatus::Passed, CheckStatus::Passed];
    let t = tally(&all_ok);
    assert_eq!((t.failed, t.read_errors), (0, 0));
    assert!(check_warnings(&t).is_empty());
    assert_eq!(check_exit_code(&t), 0);

    let one = vec![CheckStatus::Passed, CheckStatus::Failed];
    let t = tally(&one);
    assert_eq!(
        check_warnings(&t),
        vec!["rmd5: WARNING: 1 computed checksum did NOT match".to_string()]
    );
    assert_eq!(check_exit_code(&t), 1);

    let mixed = vec![
        CheckStatus::ReadError,
        CheckStatus::Failed,
        CheckStatus::Passed,
        CheckStatus::ReadError,
    ];
    let t = tally(&mixed);
    assert_eq!((t.failed, t.read_errors), (3, 2));
    assert_eq!(
        check_warnings(&t),
        vec![
            "rmd5: WARNING: 2 listed files could not be read".to_string(),
            "rmd5: WARNING: 3 computed checksums did NOT match".to_string(),
        ]
    );

    let single_read = vec![CheckStatus::ReadError];
    let t = tally(&single_read);
    assert_eq!(
        check_warnings(&t),
        vec![
            "rmd5: WARNING: 1 listed file could not be read".to_string(),
            "rmd5: WARNING: 1 computed checksum did NOT match".to_string(),
        ]
    );
}

#[test]
fn entries_of_a_checksum_file() {
    let lines: Vec<String> = vec![
        "d41d8cd98f00b204e9800998ecf8427e  empty".to_string(),
        "garbage".to_string(),
        "".to_string(),
        "900150983cd24fb0d6963f7d28e17f72 *abc".to_string(),
        "zzzzzzzzzzzzzzzzzzzzzzzzzzzzzzzz  bad-digest".to_string(),
    ];
    let (entries, bad) = check_entries(&lines);
    assert_eq!(entries.len(), 2);
    assert_eq!(entries[0].path, "empty");
    assert_eq!(entries[1].path, "abc");
    assert_eq!(entries[1].expected, parse_hex("900150983cd24fb0d6963f7d28e17f72").unwrap());
    assert_eq!(bad, vec![1, 2, 4]);
    let (none, all_bad) = check_entries(&vec!["x".to_string()]);
    assert!(none.is_empty());
    assert_eq!(all_bad, vec![0]);
}
