use vstd::prelude::*;
use crate::format::{
    check_line_fields, check_line_splits_char, digest_line, law_check_line_round_trip,
    parse_check_line,
};
use crate::md5::{
    hex_text, law_hex_text_is_lowercase_digits, law_parse_hex_of_hex_text, parse_hex,
    parse_hex_bytes,
};
use crate::number::{decimal, decimal_string};
use crate::text::push_str;
use vstd::utf8::encode_utf8;

verus! {

/// One entry of a checksum file: the file to read and the digest it must have.
pub struct CheckEntry {
    pub path: String,
    pub expected: [u8; 16],
}

/// The entry that a checksum line holds, as (file name, expected digest), or
/// `None` when the line is not a properly formatted MD5 checksum line: its
/// fields must read and its digest text must be 32 hexadecimal digits.
pub open spec fn check_entry_spec(line: Seq<char>) -> Option<(Seq<char>, Seq<u8>)> {
    match check_line_fields(line) {
        None => None,
        Some((digest, name)) => match parse_hex_bytes(encode_utf8(digest)) {
            None => None,
            Some(d) => Some((name, d)),
        },
    }
}

/// Reads one line of a checksum file into an entry.
pub fn check_entry(line: &str) -> (r: Option<CheckEntry>)
    requires
        !check_line_splits_char(line@),
    ensures
        match r {
            Some(e) => check_entry_spec(line@) == Some((e.path@, e.expected@)),
            None => check_entry_spec(line@) is None,
        },
{
    let parsed = match parse_check_line(line) {
        Some(p) => p,
        None => return None,
    };
    match parse_hex(parsed.digest.as_str()) {
        Some(expected) => Some(CheckEntry { path: parsed.path, expected }),
        None => None,
    }
}

/// The warning for line `line_no` (counted from zero) of a checksum file that
/// is not properly formatted; the message counts lines from one.
pub fn improper_line_message(source: &str, line_no: usize) -> (m: String)
    requires
        line_no < usize::MAX,
    ensures
        m@ == "rmd5: "@ + source@ + ":"@ + decimal(line_no as nat + 1)
            + ": improperly formatted MD5 checksum line"@,
{
    let mut m = String::new();
    push_str(&mut m, "rmd5: ");
    push_str(&mut m, source);
    push_str(&mut m, ":");
    let n = decimal_string(line_no + 1);
    push_str(&mut m, n.as_str());
    push_str(&mut m, ": improperly formatted MD5 checksum line");
    m
}

/// The message when a checksum file has no usable line.
pub fn no_entries_message(source: &str) -> (m: String)
    ensures
        m@ == "rmd5: "@ + source@ + ": no properly formatted checksum lines found"@,
{
    let mut m = String::new();
    push_str(&mut m, "rmd5: ");
    push_str(&mut m, source);
    push_str(&mut m, ": no properly formatted checksum lines found");
    m
}

/// The outcome of checking one file.
#[derive(Clone, Copy, Debug, PartialEq, Eq, Structural)]
pub enum CheckStatus {
    /// The computed digest equals the expected one.
    Passed,
    /// The file was read and its digest differs.
    Failed,
    /// The file could not be opened or read.
    ReadError,
}

/// Compares a computed digest (`None` when the file could not be read) with
/// the expected one.
pub fn classify(computed: Option<[u8; 16]>, expected: [u8; 16]) -> (s: CheckStatus)
    ensures
        s == match computed {
            None => CheckStatus::ReadError,
            Some(d) => if d@ == expected@ {
                CheckStatus::Passed
            } else {
                CheckStatus::Failed
            },
        },
{
    match computed {
        None => CheckStatus::ReadError,
        Some(d) => {
            let mut i: usize = 0;
            while i < 16
                invariant
                    i <= 16,
                    computed == Some(d),
                    forall|j: int| 0 <= j < i ==> d@[j] == expected@[j],
                decreases 16 - i,
            {
                if d[i] != expected[i] {
                    assert(d@[i as int] != expected@[i as int]);
                    return CheckStatus::Failed;
                }
                i = i + 1;
            }
            assert(d@ =~= expected@);
            CheckStatus::Passed
        },
    }
}

/// The text after a file name on its result line.
pub open spec fn status_suffix(s: CheckStatus) -> Seq<char> {
    match s {
        CheckStatus::Passed => ": OK"@,
        CheckStatus::Failed => ": FAILED"@,
        CheckStatus::ReadError => ": FAILED open or read"@,
    }
}

/// The result line printed for one checked file.
pub fn status_line(name: &str, status: CheckStatus) -> (line: String)
    ensures
        line@ == name@ + status_suffix(status),
{
    let mut line = String::new();
    push_str(&mut line, name);
    match status {
        CheckStatus::Passed => push_str(&mut line, ": OK"),
        CheckStatus::Failed => push_str(&mut line, ": FAILED"),
        CheckStatus::ReadError => push_str(&mut line, ": FAILED open or read"),
    }
    line
}

/// How many outcomes are failures: a mismatch or a read error.
pub open spec fn count_failed(s: Seq<CheckStatus>) -> nat
    decreases s.len(),
{
    if s.len() == 0 {
        0
    } else {
        count_failed(s.drop_last()) + if s.last() != CheckStatus::Passed {
            1nat
        } else {
            0nat
        }
    }
}

/// How many outcomes are read errors.
pub open spec fn count_read_errors(s: Seq<CheckStatus>) -> nat
    decreases s.len(),
{
    if s.len() == 0 {
        0
    } else {
        count_read_errors(s.drop_last()) + if s.last() == CheckStatus::ReadError {
            1nat
        } else {
            0nat
        }
    }
}

proof fn lemma_counts_bounded(s: Seq<CheckStatus>)
    ensures
        count_read_errors(s) <= count_failed(s) <= s.len(),
    decreases s.len(),
{
    if s.len() > 0 {
        lemma_counts_bounded(s.drop_last());
    }
}

/// The failure counts of a check run.
pub struct CheckTally {
    pub failed: usize,
    pub read_errors: usize,
}

/// Counts the failures among the outcomes of a check run.
pub fn tally(statuses: &Vec<CheckStatus>) -> (t: CheckTally)
    ensures
        t.failed == count_failed(statuses@),
        t.read_errors == count_read_errors(statuses@),
        t.read_errors <= t.failed <= statuses@.len(),
{
    let mut failed: usize = 0;
    let mut read_errors: usize = 0;
    let n = statuses.len();
    let mut i: usize = 0;
    while i < n
        invariant
            n == statuses@.len(),
            i <= n,
            failed == count_failed(statuses@.take(i as int)),
            read_errors == count_read_errors(statuses@.take(i as int)),
        decreases n - i,
    {
        proof {
            lemma_counts_bounded(statuses@.take(i as int));
            assert(statuses@.take(i + 1).drop_last() =~= statuses@.take(i as int));
        }
        match statuses[i] {
            CheckStatus::Passed => {},
            CheckStatus::Failed => {
                failed = failed + 1;
            },
            CheckStatus::ReadError => {
                failed = failed + 1;
                read_errors = read_errors + 1;
            },
        }
        i = i + 1;
    }
    proof {
        assert(statuses@.take(n as int) =~= statuses@);
        lemma_counts_bounded(statuses@);
    }
    CheckTally { failed, read_errors }
}

/// `s` when a count is not one, for plural nouns.
pub open spec fn plural(n: nat) -> Seq<char> {
    if n == 1 {
        ""@
    } else {
        "s"@
    }
}

/// The warnings printed at the end of a check run: none when nothing failed;
/// otherwise the number of unreadable files (when there are any) and then the
/// number of mismatches, each noun made plural unless the count is one.
pub open spec fn check_warnings_spec(failed: nat, read_errors: nat) -> Seq<Seq<char>> {
    let mismatch = "rmd5: WARNING: "@ + decimal(failed) + " computed checksum"@ + plural(failed)
        + " did NOT match"@;
    if failed == 0 {
        Seq::empty()
    } else if read_errors > 0 {
        seq![
            "rmd5: WARNING: "@ + decimal(read_errors) + " listed file"@ + plural(read_errors)
                + " could not be read"@,
            mismatch,
        ]
    } else {
        seq![mismatch]
    }
}

fn push_plural(s: &mut String, n: usize)
    ensures
        final(s)@ == old(s)@ + plural(n as nat),
{
    if n == 1 {
        push_str(s, "");
    } else {
        push_str(s, "s");
    }
}

/// The warning lines for a tally, in the order they are printed.
pub fn check_warnings(t: &CheckTally) -> (w: Vec<String>)
    ensures
        w@.map_values(|s: String| s@) == check_warnings_spec(t.failed as nat, t.read_errors as nat),
{
    let mut w: Vec<String> = Vec::new();
    if t.failed == 0 {
        assert(w@.map_values(|s: String| s@) =~= Seq::<Seq<char>>::empty());
        return w;
    }
    if t.read_errors > 0 {
        let mut m = String::new();
        push_str(&mut m, "rmd5: WARNING: ");
        let n = decimal_string(t.read_errors);
        push_str(&mut m, n.as_str());
        push_str(&mut m, " listed file");
        push_plural(&mut m, t.read_errors);
        push_str(&mut m, " could not be read");
        w.push(m);
    }
    let mut m = String::new();
    push_str(&mut m, "rmd5: WARNING: ");
    let n = decimal_string(t.failed);
    push_str(&mut m, n.as_str());
    push_str(&mut m, " computed checksum");
    push_plural(&mut m, t.failed);
    push_str(&mut m, " did NOT match");
    w.push(m);
    assert(w@.map_values(|s: String| s@) =~= check_warnings_spec(
        t.failed as nat,
        t.read_errors as nat,
    ));
    w
}

/// The exit status of a check run: 1 when any file failed, else 0.
pub fn check_exit_code(t: &CheckTally) -> (code: i32)
    ensures
        code == if t.failed > 0 {
            1i32
        } else {
            0i32
        },
{
    if t.failed > 0 {
        1
    } else {
        0
    }
}

/// What `rmd5` writes, `rmd5 -c` reads back: the line for a digest and a
/// non-empty file name yields that very name and digest, in either mode.
pub proof fn law_check_entry_of_digest_line(digest: Seq<u8>, name: Seq<char>, binary: bool)
    requires
        digest.len() == 16,
        name.len() > 0,
    ensures
        !check_line_splits_char(digest_line(hex_text(digest), name, binary)),
        check_entry_spec(digest_line(hex_text(digest), name, binary)) == Some((name, digest)),
{
    let hex = hex_text(digest);
    law_hex_text_is_lowercase_digits(digest);
    assert(hex[0] != '\\') by {
        let c = hex[0];
        assert(('0' <= c <= '9') || ('a' <= c <= 'f'));
    }
    law_check_line_round_trip(hex, name, binary);
    law_parse_hex_of_hex_text(digest);
}

/// A check run succeeds exactly when every file matched.
pub proof fn law_no_failures_iff_all_passed(s: Seq<CheckStatus>)
    ensures
        count_failed(s) == 0 <==> forall|i: int| 0 <= i < s.len() ==> #[trigger] s[i]
            == CheckStatus::Passed,
    decreases s.len(),
{
    if s.len() > 0 {
        law_no_failures_iff_all_passed(s.drop_last());
        if count_failed(s) == 0 {
            assert forall|i: int| 0 <= i < s.len() implies #[trigger] s[i] == CheckStatus::Passed by {
                if i < s.len() - 1 {
                    assert(s[i] == s.drop_last()[i]);
                }
            }
        } else if forall|i: int| 0 <= i < s.len() ==> #[trigger] s[i] == CheckStatus::Passed {
            assert(s.last() == s[s.len() - 1]);
            assert forall|i: int| 0 <= i < s.drop_last().len() implies #[trigger] s.drop_last()[i]
                == CheckStatus::Passed by {
                assert(s.drop_last()[i] == s[i]);
            }
        }
    }
}

/// The entries of a checksum file, in order, and the positions (counted from
/// zero) of the lines that are not properly formatted.
pub open spec fn check_entries_spec(lines: Seq<Seq<char>>) -> (Seq<(Seq<char>, Seq<u8>)>, Seq<int>)
    decreases lines.len(),
{
    if lines.len() == 0 {
        (Seq::empty(), Seq::empty())
    } else {
        let (entries, bad) = check_entries_spec(lines.drop_last());
        match check_entry_spec(lines.last()) {
            Some(e) => (entries.push(e), bad),
            None => (entries, bad.push(lines.len() - 1)),
        }
    }
}

/// An entry as plain values.
pub open spec fn entry_view(e: CheckEntry) -> (Seq<char>, Seq<u8>) {
    (e.path@, e.expected@)
}

/// Reads all lines of a checksum file: the entries of the well-formed lines,
/// in order, and the positions of the others, which are skipped.
pub fn check_entries(lines: &Vec<String>) -> (r: (Vec<CheckEntry>, Vec<usize>))
    requires
        forall|i: int| 0 <= i < lines@.len() ==> !check_line_splits_char(#[trigger] lines@[i]@),
    ensures
        r.0@.map_values(|e: CheckEntry| entry_view(e)) == check_entries_spec(
            lines@.map_values(|l: String| l@),
        ).0,
        r.1@.map_values(|i: usize| i as int) == check_entries_spec(
            lines@.map_values(|l: String| l@),
        ).1,
{
    let ghost all = lines@.map_values(|l: String| l@);
    let mut entries: Vec<CheckEntry> = Vec::new();
    let mut bad: Vec<usize> = Vec::new();
    let n = lines.len();
    let mut i: usize = 0;
    while i < n
        invariant
            n == lines@.len(),
            i <= n,
            all == lines@.map_values(|l: String| l@),
            forall|k: int| 0 <= k < lines@.len() ==> !check_line_splits_char(#[trigger] lines@[k]@),
            entries@.map_values(|e: CheckEntry| entry_view(e)) == check_entries_spec(
                all.take(i as int),
            ).0,
            bad@.map_values(|k: usize| k as int) == check_entries_spec(all.take(i as int)).1,
        decreases n - i,
    {
        let ghost before_entries = entries@;
        let ghost before_bad = bad@;
        assert(all.take(i + 1).drop_last() =~= all.take(i as int));
        assert(all.take(i + 1).last() == lines@[i as int]@);
        let line: &str = lines[i].as_str();
        match check_entry(line) {
            Some(e) => {
                entries.push(e);
                assert(entries@.map_values(|e: CheckEntry| entry_view(e)) =~= before_entries.map_values(
                    |e: CheckEntry| entry_view(e),
                ).push(entry_view(e)));
            },
            None => {
                bad.push(i);
                assert(bad@.map_values(|k: usize| k as int) =~= before_bad.map_values(
                    |k: usize| k as int,
                ).push(i as int));
            },
        }
        i = i + 1;
    }
    assert(all.take(n as int) =~= all);
    (entries, bad)
}

/// Every outcome that is not a pass counts as a failure, and every read error
/// as a read error: the counts are the sizes of those parts of the run.
pub proof fn law_counts_are_sizes(s: Seq<CheckStatus>)
    ensures
        count_failed(s) == s.filter(|x: CheckStatus| x != CheckStatus::Passed).len(),
        count_read_errors(s) == s.filter(|x: CheckStatus| x == CheckStatus::ReadError).len(),
    decreases s.len(),
{
    reveal(Seq::filter);
    if s.len() > 0 {
        law_counts_are_sizes(s.drop_last());
    }
}

/// Every line of a checksum file is accounted for: the entries are exactly the
/// entries of the well-formed lines, in file order, whatever their names; the
/// skipped positions are exactly those of the other lines; and together they
/// number the lines.
pub proof fn law_every_line_accounted(lines: Seq<Seq<char>>)
    ensures
        check_entries_spec(lines).0 == lines.filter_map(|l: Seq<char>| check_entry_spec(l)),
        check_entries_spec(lines).0.len() + check_entries_spec(lines).1.len() == lines.len(),
        forall|i: int|
            #![trigger check_entries_spec(lines).1.contains(i)]
            check_entries_spec(lines).1.contains(i) <==> 0 <= i < lines.len()
                && check_entry_spec(lines[i]) is None,
    decreases lines.len(),
{
    if lines.len() > 0 {
        let rest = lines.drop_last();
        law_every_line_accounted(rest);
        let (e, b) = check_entries_spec(rest);
        let n = lines.len() - 1;
        assert forall|i: int| #![trigger check_entries_spec(lines).1.contains(i)]
            check_entries_spec(lines).1.contains(i) <==> 0 <= i < lines.len()
                && check_entry_spec(lines[i]) is None by {
            if 0 <= i < n {
                assert(lines[i] == rest[i]);
            }
            if check_entry_spec(lines.last()) is None {
                if b.push(n).contains(i) && i != n {
                    let k = choose|k: int| 0 <= k < b.push(n).len() && b.push(n)[k] == i;
                    assert(b.contains(i)) by {
                        assert(b[k] == i);
                    }
                }
                if b.contains(i) {
                    let k = choose|k: int| 0 <= k < b.len() && b[k] == i;
                    assert(b.push(n)[k] == i);
                }
                if i == n {
                    assert(b.push(n)[b.len() as int] == n);
                }
            } else {
                if i == n {
                    assert(!b.contains(n));
                }
            }
        }
    }
}

} // verus!
