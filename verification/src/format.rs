use vstd::prelude::*;
use vstd::std_specs::iter::IteratorSpec;
use crate::text::push_char;
use crate::md5::{hex_text, to_hex};
use vstd::string::StringSliceAdditionalSpecFns;
use vstd::utf8::*;

verus! {

/// The text that stands for one character of a file name in an escaped
/// checksum line: a backslash doubles, a newline becomes `\n`.
pub open spec fn escape_char(c: char) -> Seq<char> {
    if c == '\\' {
        seq!['\\', '\\']
    } else if c == '\n' {
        seq!['\\', 'n']
    } else {
        seq![c]
    }
}

/// A file name with every backslash and newline escaped.
pub open spec fn escape_chars(cs: Seq<char>) -> Seq<char>
    decreases cs.len(),
{
    if cs.len() == 0 {
        Seq::<char>::empty()
    } else {
        escape_char(cs[0]) + escape_chars(cs.drop_first())
    }
}

/// Whether a file name holds a backslash or a newline, and so must be escaped.
pub open spec fn needs_escape_chars(cs: Seq<char>) -> bool {
    exists|i: int| 0 <= i < cs.len() && (cs[i] == '\\' || cs[i] == '\n')
}

/// `p` put in front of an optional text.
pub open spec fn prepend(p: Seq<char>, o: Option<Seq<char>>) -> Option<Seq<char>> {
    match o {
        Some(r) => Some(p + r),
        None => None,
    }
}

/// Undoes the escaping of a file name: `\\` is a backslash, `\n` a newline,
/// a backslash before any other character stands for itself together with that
/// character, and a trailing lone backslash makes the name invalid.
pub open spec fn unescape_chars(cs: Seq<char>) -> Option<Seq<char>>
    decreases cs.len(),
{
    if cs.len() == 0 {
        Some(Seq::<char>::empty())
    } else if cs[0] != '\\' {
        prepend(seq![cs[0]], unescape_chars(cs.drop_first()))
    } else if cs.len() == 1 {
        None
    } else {
        let e = cs[1];
        let head = if e == '\\' {
            seq!['\\']
        } else if e == 'n' {
            seq!['\n']
        } else {
            seq!['\\', e]
        };
        prepend(head, unescape_chars(cs.subrange(2, cs.len() as int)))
    }
}

/// Whether a file name must be escaped in a checksum line.
pub fn needs_escape(name: &str) -> (r: bool)
    ensures
        r == needs_escape_chars(name@),
{
    let mut chars = name.chars();
    let ghost mut seen: Seq<char> = Seq::empty();
    loop
        invariant
            seen + chars.remaining() == name@,
            forall|i: int| 0 <= i < seen.len() ==> seen[i] != '\\' && seen[i] != '\n',
            chars.obeys_prophetic_iter_laws(),
            chars.decrease() is Some,
        decreases chars.decrease()->0,
    {
        let ghost before = chars.remaining();
        match chars.next() {
            None => {
                assert(seen =~= name@);
                return false;
            },
            Some(ch) => {
                if ch == '\\' || ch == '\n' {
                    assert(name@[seen.len() as int] == ch);
                    return true;
                }
                proof {
                    assert(seen.push(ch) + chars.remaining() =~= seen + before);
                    seen = seen.push(ch);
                }
            },
        }
    }
}

proof fn lemma_escape_chars_push(cs: Seq<char>, c: char)
    ensures
        escape_chars(cs.push(c)) == escape_chars(cs) + escape_char(c),
    decreases cs.len(),
{
    if cs.len() == 0 {
        assert(cs.push(c).drop_first() =~= cs);
        assert(escape_chars(cs.push(c).drop_first()) == Seq::<char>::empty());
        assert(escape_char(c) + Seq::<char>::empty() =~= escape_char(c));
    } else {
        lemma_escape_chars_push(cs.drop_first(), c);
        assert(cs.push(c).drop_first() =~= cs.drop_first().push(c));
        assert(escape_char(cs[0]) + (escape_chars(cs.drop_first()) + escape_char(c))
            =~= (escape_char(cs[0]) + escape_chars(cs.drop_first())) + escape_char(c));
    }
}

/// A file name with its backslashes doubled and newlines written as `\\n`.
pub fn escape_name(name: &str) -> (out: String)
    ensures
        out@ == escape_chars(name@),
{
    let mut out = String::new();
    let mut chars = name.chars();
    let ghost mut seen: Seq<char> = Seq::empty();
    loop
        invariant
            seen + chars.remaining() == name@,
            out@ == escape_chars(seen),
            chars.obeys_prophetic_iter_laws(),
            chars.decrease() is Some,
        decreases chars.decrease()->0,
    {
        let ghost before = chars.remaining();
        match chars.next() {
            None => {
                assert(seen =~= name@);
                return out;
            },
            Some(ch) => {
                if ch == '\\' {
                    push_char(&mut out, '\\');
                    push_char(&mut out, '\\');
                } else if ch == '\n' {
                    push_char(&mut out, '\\');
                    push_char(&mut out, 'n');
                } else {
                    push_char(&mut out, ch);
                }
                proof {
                    lemma_escape_chars_push(seen, ch);
                    assert(seen.push(ch) + chars.remaining() =~= seen + before);
                    seen = seen.push(ch);
                }
            },
        }
    }
}

proof fn lemma_prepend_twice(a: Seq<char>, b: Seq<char>)
    ensures
        forall|o: Option<Seq<char>>| #[trigger] prepend(a, prepend(b, o)) == prepend(a + b, o),
{
    assert forall|o: Option<Seq<char>>| #[trigger] prepend(a, prepend(b, o)) == prepend(a + b, o) by {
        match o {
            Some(t) => assert(a + (b + t) =~= (a + b) + t),
            None => {},
        }
    }
}

/// Undoes [`escape_name`]; `None` when the name ends in a lone backslash.
pub fn unescape_name(name: &str) -> (r: Option<String>)
    ensures
        match r {
            Some(s) => unescape_chars(name@) == Some(s@),
            None => unescape_chars(name@) is None,
        },
{
    let mut out = String::new();
    let mut chars = name.chars();
    loop
        invariant
            unescape_chars(name@) == prepend(out@, unescape_chars(chars.remaining())),
            chars.obeys_prophetic_iter_laws(),
            chars.decrease() is Some,
        decreases chars.decrease()->0,
    {
        let ghost before = chars.remaining();
        let ch = match chars.next() {
            None => {
                assert(out@ + Seq::<char>::empty() =~= out@);
                return Some(out);
            },
            Some(ch) => ch,
        };
        if ch != '\\' {
            proof {
                assert(out@.push(ch) =~= out@ + seq![ch]);
                lemma_prepend_twice(out@, seq![ch]);
                assert(out@ + seq![ch] =~= out@.push(ch));
            }
            push_char(&mut out, ch);
            continue;
        }
        let ghost after_backslash = chars.remaining();
        let next = match chars.next() {
            None => {
                return None;
            },
            Some(e) => e,
        };
        proof {
            assert(before.subrange(2, before.len() as int) =~= chars.remaining());
        }
        let ghost old_out = out@;
        if next == '\\' {
            push_char(&mut out, '\\');
            proof {
                lemma_prepend_twice(old_out, seq!['\\']);
                assert(old_out + seq!['\\'] =~= out@);
            }
        } else if next == 'n' {
            push_char(&mut out, '\n');
            proof {
                lemma_prepend_twice(old_out, seq!['\n']);
                assert(old_out + seq!['\n'] =~= out@);
            }
        } else {
            push_char(&mut out, '\\');
            push_char(&mut out, next);
            proof {
                lemma_prepend_twice(old_out, seq!['\\', next]);
                assert(old_out + seq!['\\', next] =~= out@);
            }
        }
    }
}

/// The checksum line for a digest and a file name, as `md5sum` writes it: the
/// hex digest, a space, `*` in binary mode or a space otherwise, then the
/// name. A name with a backslash or newline is escaped and the line starts with
/// a backslash.
pub open spec fn digest_line(hex: Seq<char>, name: Seq<char>, binary: bool) -> Seq<char> {
    let flag = if binary {
        '*'
    } else {
        ' '
    };
    if needs_escape_chars(name) {
        seq!['\\'] + hex + seq![' ', flag] + escape_chars(name)
    } else {
        hex + seq![' ', flag] + name
    }
}

/// Formats one checksum line for a hex digest and a file name.
pub fn format_digest_line(hex: &str, name: &str, binary: bool) -> (line: String)
    ensures
        line@ == digest_line(hex@, name@, binary),
{
    let escaped = needs_escape(name);
    let mut line = String::new();
    if escaped {
        push_char(&mut line, '\\');
    }
    crate::text::push_str(&mut line, hex);
    push_char(&mut line, ' ');
    push_char(&mut line, if binary { '*' } else { ' ' });
    if escaped {
        let escaped_name = escape_name(name);
        crate::text::push_str(&mut line, escaped_name.as_str());
    } else {
        crate::text::push_str(&mut line, name);
    }
    assert(line@ =~= digest_line(hex@, name@, binary));
    line
}

/// One parsed checksum line: the digest text and the file name.
pub struct CheckLine {
    pub digest: String,
    pub path: String,
}

/// The part of a checksum line after its optional leading backslash.
pub open spec fn line_body(line: Seq<char>) -> Seq<char> {
    if line.len() > 0 && line[0] == '\\' {
        line.drop_first()
    } else {
        line
    }
}

/// Whether reading the line would cut a multi-byte character: the body is at
/// least 35 bytes long and byte 32, where the digest ends, is not the first
/// byte of a character.
pub open spec fn check_line_splits_char(line: Seq<char>) -> bool {
    let b = encode_utf8(line_body(line));
    line.len() > 0 && b.len() >= 35 && !is_char_boundary(b, 32)
}

/// The digest text and the file name that a checksum line holds, or `None`
/// when it is not a properly formatted line. The body (after an optional
/// leading backslash, which marks an escaped name) must be at least 35 bytes:
/// 32 bytes of digest, a space, a space or `*`, then the name, which is
/// unescaped when the line was marked.
pub open spec fn check_line_fields(line: Seq<char>) -> Option<(Seq<char>, Seq<char>)> {
    if line.len() == 0 {
        None
    } else {
        let escaped = line[0] == '\\';
        let b = encode_utf8(line_body(line));
        if b.len() < 35 || b[32] != 0x20 || (b[33] != 0x20 && b[33] != 0x2a) {
            None
        } else {
            let digest = decode_utf8(b.subrange(0, 32));
            let raw = decode_utf8(b.subrange(34, b.len() as int));
            if escaped {
                match unescape_chars(raw) {
                    Some(name) => Some((digest, name)),
                    None => None,
                }
            } else {
                Some((digest, raw))
            }
        }
    }
}

/// Reads one line of a checksum file.
pub fn parse_check_line(line: &str) -> (r: Option<CheckLine>)
    requires
        !check_line_splits_char(line@),
    ensures
        match r {
            Some(c) => check_line_fields(line@) == Some((c.digest@, c.path@)),
            None => check_line_fields(line@) is None,
        },
{
    broadcast use encode_utf8_valid_utf8, encode_utf8_decode_utf8;

    if line.is_empty() {
        return None;
    }
    let n = line.unicode_len();
    let escaped = line.get_char(0) == '\\';
    let rest: &str = if escaped {
        line.substring_char(1, n)
    } else {
        line
    };
    assert(rest@ =~= line_body(line@));
    let bytes = rest.as_bytes();
    if bytes.len() < 35 {
        return None;
    }
    if bytes[32] != 0x20 || (bytes[33] != 0x20 && bytes[33] != 0x2a) {
        return None;
    }
    let ghost b = bytes@;
    let (digest, tail) = rest.split_at(32);
    proof {
        assert(encode_utf8(digest@) == b.subrange(0, 32));
        assert(encode_utf8(tail@) == b.subrange(32, b.len() as int));
        let t = tail@;
        assert(t.len() > 0);
        crate::text::lemma_encode_first_ascii(t);
        assert(encode_utf8(t).drop_first() =~= b.subrange(33, b.len() as int));
        assert(encode_utf8(t.drop_first()) == b.subrange(33, b.len() as int));
        assert(t.drop_first().len() > 0);
        crate::text::lemma_encode_first_ascii(t.drop_first());
        assert(t.drop_first().drop_first() =~= t.subrange(2, t.len() as int));
        assert(encode_utf8(t.subrange(2, t.len() as int)) =~= b.subrange(34, b.len() as int));
    }
    let tn = tail.unicode_len();
    let raw_name = tail.substring_char(2, tn);
    let name = if escaped {
        match unescape_name(raw_name) {
            Some(name) => name,
            None => return None,
        }
    } else {
        raw_name.to_string()
    };
    Some(CheckLine { digest: digest.to_string(), path: name })
}

/// Unescaping undoes escaping: every file name comes back unchanged, so
/// [`unescape_name`] gives back what [`escape_name`] was given.
pub proof fn law_unescape_escape(name: Seq<char>)
    ensures
        unescape_chars(escape_chars(name)) == Some(name),
    decreases name.len(),
{
    if name.len() > 0 {
        let c = name[0];
        let rest = name.drop_first();
        let e = escape_chars(rest);
        law_unescape_escape(rest);
        let full = escape_char(c) + e;
        assert(escape_chars(name) == full);
        if c == '\\' || c == '\n' {
            assert(full.subrange(2, full.len() as int) =~= e);
            assert(full[0] == '\\');
        } else {
            assert(full.drop_first() =~= e);
        }
        assert(seq![c] + rest =~= name);
    } else {
        assert(escape_chars(name) =~= Seq::<char>::empty());
    }
}

/// An escaped name holds no newline, so it stays on one line.
pub proof fn lemma_escape_no_newline(name: Seq<char>)
    ensures
        forall|i: int| 0 <= i < escape_chars(name).len() ==> escape_chars(name)[i] != '\n',
    decreases name.len(),
{
    if name.len() > 0 {
        lemma_escape_no_newline(name.drop_first());
        let full = escape_char(name[0]) + escape_chars(name.drop_first());
        assert forall|i: int| 0 <= i < full.len() implies full[i] != '\n' by {
            if i >= escape_char(name[0]).len() {
                assert(full[i] == escape_chars(name.drop_first())[i - escape_char(name[0]).len()]);
            }
        }
    }
}

/// A line written by [`format_digest_line`] reads back, through
/// [`parse_check_line`], as the same digest text and file name, provided the
/// digest text is 32 ASCII characters not starting with a backslash (as every
/// lowercase hex digest is) and the name is not empty.
pub proof fn law_check_line_round_trip(hex: Seq<char>, name: Seq<char>, binary: bool)
    requires
        hex.len() == 32,
        is_ascii_chars(hex),
        hex[0] != '\\',
        name.len() > 0,
    ensures
        !check_line_splits_char(digest_line(hex, name, binary)),
        check_line_fields(digest_line(hex, name, binary)) == Some((hex, name)),
{
    broadcast use encode_utf8_valid_utf8, encode_utf8_decode_utf8;

    let line = digest_line(hex, name, binary);
    let flag = if binary {
        '*'
    } else {
        ' '
    };
    let sep = seq![' ', flag];
    let escaped = needs_escape_chars(name);
    let tail = if escaped {
        escape_chars(name)
    } else {
        name
    };
    let body = hex + sep + tail;
    if escaped {
        assert(line =~= seq!['\\'] + body);
        assert(line.drop_first() =~= body);
        law_unescape_escape(name);
    } else {
        assert(line =~= body);
        assert(line[0] == hex[0]);
    }
    assert(line_body(line) == body);
    crate::text::lemma_encode_concat(hex + sep, tail);
    crate::text::lemma_encode_concat(hex, sep);
    crate::text::lemma_encode_ascii(hex);
    assert(is_ascii_chars(sep));
    crate::text::lemma_encode_ascii(sep);
    let b = encode_utf8(body);
    let eh = encode_utf8(hex);
    let es = encode_utf8(sep);
    let et = encode_utf8(tail);
    assert(b == eh + es + et);
    assert(et.len() >= tail.len()) by {
        lemma_encode_len_at_least(tail);
    }
    assert(tail.len() > 0) by {
        if escaped {
            let i = choose|i: int| 0 <= i < name.len() && (name[i] == '\\' || name[i] == '\n');
            lemma_escape_len(name);
        }
    }
    assert(b.len() >= 35);
    assert(b[32] == 0x20);
    assert(b[33] == 0x20 || b[33] == 0x2a);
    is_char_boundary_iff_not_is_continuation_byte(b, 32);
    assert(b.subrange(0, 32) =~= eh);
    assert(b.subrange(34, b.len() as int) =~= et);
}

proof fn lemma_encode_len_at_least(cs: Seq<char>)
    ensures
        encode_utf8(cs).len() >= cs.len(),
    decreases cs.len(),
{
    if cs.len() > 0 {
        lemma_encode_len_at_least(cs.drop_first());
    }
}

proof fn lemma_escape_len(cs: Seq<char>)
    ensures
        escape_chars(cs).len() >= cs.len(),
    decreases cs.len(),
{
    if cs.len() > 0 {
        lemma_escape_len(cs.drop_first());
    }
}

/// The output line for a digest of standard input: the hex digest, a space,
/// `*` in binary mode or a space otherwise, and `-`, as `md5sum` writes it.
pub fn stdin_digest_line(digest: &[u8; 16], binary: bool) -> (line: String)
    ensures
        line@ == hex_text(digest@) + seq![' ', if binary { '*' } else { ' ' }] + "-"@,
{
    let mut line = to_hex(digest);
    push_char(&mut line, ' ');
    push_char(&mut line, if binary { '*' } else { ' ' });
    crate::text::push_str(&mut line, "-");
    assert(line@ =~= hex_text(digest@) + seq![' ', if binary { '*' } else { ' ' }] + "-"@);
    line
}

/// Whether [`parse_check_line`] would have to cut a character of this line
/// (see [`check_line_splits_char`]); such a line cannot be read.
pub fn digest_end_splits_char(line: &str) -> (r: bool)
    ensures
        r == check_line_splits_char(line@),
{
    if line.is_empty() {
        return false;
    }
    let n = line.unicode_len();
    let rest: &str = if line.get_char(0) == '\\' {
        line.substring_char(1, n)
    } else {
        line
    };
    assert(rest@ =~= line_body(line@));
    let bytes = rest.as_bytes();
    bytes.len() >= 35 && !rest.is_char_boundary(32)
}

/// The line for standard input is the checksum line of the name `-`.
pub proof fn law_stdin_line_is_digest_line(digest: Seq<u8>, binary: bool)
    ensures
        hex_text(digest) + seq![' ', if binary { '*' } else { ' ' }] + "-"@ == digest_line(
            hex_text(digest),
            "-"@,
            binary,
        ),
{
    reveal_strlit("-");
    assert(!needs_escape_chars("-"@));
    assert(hex_text(digest) + seq![' ', if binary { '*' } else { ' ' }] + "-"@ =~= digest_line(
        hex_text(digest),
        "-"@,
        binary,
    ));
}

/// A name without backslashes and newlines is written as it is, after the
/// digest and the two-character separator, with no leading backslash; a name
/// with either is escaped and the line is marked with a leading backslash.
pub proof fn law_plain_names_written_plainly(hex: Seq<char>, name: Seq<char>, binary: bool)
    ensures
        (forall|i: int| 0 <= i < name.len() ==> name[i] != '\\' && name[i] != '\n')
            ==> digest_line(hex, name, binary) == hex + seq![' ', if binary { '*' } else { ' ' }]
            + name,
        (exists|i: int| 0 <= i < name.len() && (name[i] == '\\' || name[i] == '\n'))
            ==> digest_line(hex, name, binary) == seq!['\\'] + hex + seq![
            ' ',
            if binary { '*' } else { ' ' },
        ] + escape_chars(name),
{
}

} // verus!
