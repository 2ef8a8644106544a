use rmd5::cache::CacheMode;
use rmd5::cli::{parse_args, parse_positive_usize, Command, Config};
use rmd5::file_hash::DEFAULT_BUFFER_SIZE;
use rmd5::number::{decimal_string, parse_usize};

fn args(list: &[&str]) -> Vec<String> {
    list.iter().map(|s| s.to_string()).collect()
}

fn run(list: &[&str]) -> Config {
    match parse_args(&args(list), 4) {
        Ok(Command::Run(c)) => c,
        Ok(Command::Help) => panic!("unexpected help"),
        Err(e) => panic!("unexpected error: {e}"),
    }
}

fn error(list: &[&str]) -> String {
    match parse_args(&args(list), 4) {
        Err(e) => e,
        Ok(_) => panic!("expected an error"),
    }
}

#[test]
fn defaults_without_arguments() {
    let c = run(&[]);
    assert_eq!(c.check_file, None);
    assert!(c.files.is_empty());
    assert_eq!(c.jobs, 4);
    assert_eq!(c.cache_mode, CacheMode::KeepCache);
    assert!(!c.binary);
    assert_eq!(c.buffer_size, DEFAULT_BUFFER_SIZE);
    assert_eq!(DEFAULT_BUFFER_SIZE, 16777216);
}

#[test]
fn options_and_files() {
    let c = run(&["-j", "8", "-b", "--no-cache", "a", "-", "--buffer-size", "33554432", "b"]);
    assert_eq!(c.jobs, 8);
    assert!(c.binary);
    assert_eq!(c.cache_mode, CacheMode::DropCache);
    assert_eq!(c.buffer_size, 33554432);
    assert_eq!(c.files, vec!["a", "-", "b"]);
}

#[test]
fn attached_option_values() {
    let c = run(&["-j3", "--buffer-size=4096", "--direct", "x"]);
    assert_eq!(c.jobs, 3);
    assert_eq!(c.buffer_size, 4096);
    assert_eq!(c.cache_mode, CacheMode::Direct);
    let c = run(&["--jobs=2", "--keep-cache", "--drop-cache", "--binary", "y"]);
    assert_eq!(c.jobs, 2);
    assert_eq!(c.cache_mode, CacheMode::DropCache);
    assert!(c.binary);
}

#[test]
fn check_file_forms() {
    assert_eq!(run(&["-c", "sums.md5"]).check_file, Some("sums.md5".to_string()));
    assert_eq!(run(&["--check", "s"]).check_file, Some("s".to_string()));
    assert_eq!(run(&["--check=t.md5"]).check_file, Some("t.md5".to_string()));
}

#[test]
fn double_dash_ends_options() {
    let c = run(&["a", "--", "-j", "--weird"]);
    assert_eq!(c.files, vec!["a", "-j", "--weird"]);
    assert_eq!(c.jobs, 4);
}

#[test]
fn help_stops_reading() {
    assert!(matches!(parse_args(&args(&["-h", "--bogus"]), 1), Ok(Command::Help)));
    assert!(matches!(parse_args(&args(&["f", "--help"]), 1), Ok(Command::Help)));
    assert_eq!(error(&["--bogus", "-h"]), "unrecognized option '--bogus'");
}

#[test]
fn argument_errors() {
    assert_eq!(error(&["-c"]), "option '-c' requires a checksum file");
    assert_eq!(error(&["--check"]), "option '--check' requires a checksum file");
    assert_eq!(error(&["--jobs"]), "option '--jobs' requires a number");
    assert_eq!(error(&["-j", "zero"]), "invalid jobs: 'zero'");
    assert_eq!(error(&["-j0"]), "jobs must be greater than zero");
    assert_eq!(error(&["--buffer-size"]), "option '--buffer-size' requires bytes");
    assert_eq!(error(&["--buffer-size=0"]), "buffer size must be greater than zero");
    assert_eq!(error(&["--buffer-size", "1k"]), "invalid buffer size: '1k'");
    assert_eq!(error(&["-x"]), "unrecognized option '-x'");
    assert_eq!(error(&["-c", "s", "f"]), "extra operands are not supported with --check");
    assert_eq!(run(&["f", "--", "-c"]).files, vec!["f", "-c"]);
}

#[test]
fn later_check_and_files_conflict_after_double_dash() {
    assert_eq!(error(&["-c", "s", "--", "f"]), "extra operands are not supported with --check");
}

#[test]
fn positive_counts() {
    assert_eq!(parse_positive_usize("12", "jobs"), Ok(12));
    assert_eq!(parse_positive_usize("+7", "jobs"), Ok(7));
    assert_eq!(parse_positive_usize("0", "jobs"), Err("jobs must be greater than zero".to_string()));
    assert_eq!(parse_positive_usize("-1", "jobs"), Err("invalid jobs: '-1'".to_string()));
    assert_eq!(parse_positive_usize("", "jobs"), Err("invalid jobs: ''".to_string()));
    assert_eq!(parse_positive_usize("+", "jobs"), Err("invalid jobs: '+'".to_string()));
    assert_eq!(parse_positive_usize(" 1", "jobs"), Err("invalid jobs: ' 1'".to_string()));
}

#[test]
fn parse_usize_matches_std() {
    let samples = [
        "0", "7", "+7", "-7", "", "+", "++1", "12a", "007", "18446744073709551615",
        "18446744073709551616", "99999999999999999999999", "٣",
    ];
    for s in samples {
        assert_eq!(parse_usize(s), s.parse::<usize>().ok(), "{s}");
    }
}

#[test]
fn decimal_string_matches_display() {
    for n in [0usize, 1, 9, 10, 11, 99, 100, 12345, usize::MAX] {
        assert_eq!(decimal_string(n), n.to_string());
        assert_eq!(parse_usize(&decimal_string(n)), Some(n));
    }
}
