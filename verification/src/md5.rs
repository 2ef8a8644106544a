use vstd::prelude::*;
use crate::text::push_char;
use vstd::string::StringSliceAdditionalSpecFns;
use vstd::utf8::*;

verus! {

/// The running state of the `md-5` crate's MD5 hasher: the blocks compressed
/// so far and the bytes waiting for a full block. It is opaque; what it stands
/// for is the sequence of bytes it has absorbed, [`absorbed`].
#[verifier::external_body]
pub struct HasherState {
    inner: ::md5::Md5,
}

/// The bytes that a hasher state has absorbed since it was created.
pub uninterp spec fn absorbed(h: HasherState) -> Seq<u8>;

/// The MD5 digest (RFC 1321) of a byte sequence, as the `md-5` crate computes it.
pub uninterp spec fn md5_digest(data: Seq<u8>) -> Seq<u8>;

/// Creates a hasher with `md5::Md5::new` (the `Digest` trait of the `md-5`
/// crate); it has absorbed nothing.
#[verifier::external_body]
fn hasher_new() -> (h: HasherState)
    ensures
        absorbed(h) == Seq::<u8>::empty(),
{
    HasherState { inner: <::md5::Md5 as ::md5::Digest>::new() }
}

/// Feeds `input` to the hasher with `Digest::update`; the absorbed bytes grow
/// by exactly `input`.
#[verifier::external_body]
fn hasher_update(h: &mut HasherState, input: &[u8])
    ensures
        absorbed(*final(h)) == absorbed(*old(h)) + input@,
{
    ::md5::Digest::update(&mut h.inner, input);
}

/// Consumes the hasher with `Digest::finalize` and copies the 16-byte output
/// into an array: the MD5 digest of everything absorbed.
#[verifier::external_body]
fn hasher_finalize(h: HasherState) -> (out: [u8; 16])
    ensures
        out@ == md5_digest(absorbed(h)),
{
    let digest = ::md5::Digest::finalize(h.inner);
    let mut out = [0u8; 16];
    out.copy_from_slice(&digest);
    out
}

/// An incremental MD5 hasher. Its view is the sequence of bytes fed to it.
pub struct Md5 {
    inner: HasherState,
}

impl View for Md5 {
    type V = Seq<u8>;

    closed spec fn view(&self) -> Seq<u8> {
        absorbed(self.inner)
    }
}

impl Md5 {
    /// A hasher that has absorbed nothing yet.
    pub fn new() -> (r: Self)
        ensures
            r@ == Seq::<u8>::empty(),
    {
        Md5 { inner: hasher_new() }
    }

    /// Absorbs `input` after everything absorbed so far.
    pub fn update(&mut self, input: &[u8])
        ensures
            final(self)@ == old(self)@ + input@,
    {
        hasher_update(&mut self.inner, input);
    }

    /// The MD5 digest of all bytes absorbed.
    pub fn finalize(self) -> (out: [u8; 16])
        ensures
            out@ == md5_digest(self@),
    {
        hasher_finalize(self.inner)
    }
}

/// The lowercase hexadecimal digit for a value below 16.
pub open spec fn hex_digit(n: u8) -> char {
    if n < 10 {
        (('0' as int) + n) as char
    } else {
        (('a' as int) + n - 10) as char
    }
}

/// Lowercase hexadecimal text of a byte sequence: two digits per byte, high
/// nibble first.
pub open spec fn hex_text(bytes: Seq<u8>) -> Seq<char>
    decreases bytes.len(),
{
    if bytes.len() == 0 {
        Seq::<char>::empty()
    } else {
        seq![hex_digit(bytes[0] / 16), hex_digit(bytes[0] % 16)] + hex_text(bytes.drop_first())
    }
}

/// The value of one ASCII hexadecimal digit byte, either case.
pub open spec fn hex_digit_value(b: u8) -> Option<u8> {
    if 0x30 <= b <= 0x39 {
        Some((b - 0x30) as u8)
    } else if 0x61 <= b <= 0x66 {
        Some((b - 0x61 + 10) as u8)
    } else if 0x41 <= b <= 0x46 {
        Some((b - 0x41 + 10) as u8)
    } else {
        None
    }
}

/// Whether every byte of `b` is a hexadecimal digit.
pub open spec fn all_hex_digits(b: Seq<u8>) -> bool {
    forall|i: int| 0 <= i < b.len() ==> (#[trigger] hex_digit_value(b[i])) is Some
}

/// The digest that a 32-byte hexadecimal text denotes, or `None` when the text
/// is not exactly 32 hexadecimal digits.
pub open spec fn parse_hex_bytes(b: Seq<u8>) -> Option<Seq<u8>> {
    if b.len() == 32 && all_hex_digits(b) {
        Some(
            Seq::new(
                16,
                |i: int|
                    (hex_digit_value(b[2 * i]).unwrap() * 16 + hex_digit_value(
                        b[2 * i + 1],
                    ).unwrap()) as u8,
            ),
        )
    } else {
        None
    }
}

fn hex_char(n: u8) -> (c: char)
    requires
        n < 16,
    ensures
        c == hex_digit(n),
{
    if n < 10 {
        (n + 48) as char
    } else {
        (n + 87) as char
    }
}

proof fn lemma_hex_text_push(bytes: Seq<u8>, b: u8)
    ensures
        hex_text(bytes.push(b)) == hex_text(bytes) + seq![hex_digit(b / 16), hex_digit(b % 16)],
    decreases bytes.len(),
{
    if bytes.len() == 0 {
        assert(bytes.push(b).drop_first() =~= bytes);
    } else {
        lemma_hex_text_push(bytes.drop_first(), b);
        assert(bytes.push(b).drop_first() =~= bytes.drop_first().push(b));
    }
}

/// Lowercase hexadecimal text of a digest, 32 characters long.
pub fn to_hex(digest: &[u8; 16]) -> (out: String)
    ensures
        out@ == hex_text(digest@),
{
    let mut out = String::new();
    let mut i: usize = 0;
    while i < 16
        invariant
            i <= 16,
            out@ == hex_text(digest@.take(i as int)),
        decreases 16 - i,
    {
        let byte = digest[i];
        let hi = byte >> 4;
        let lo = byte & 0x0f;
        assert(hi == byte / 16 && lo == byte % 16) by (bit_vector)
            requires hi == byte >> 4, lo == byte & 0x0f;
        push_char(&mut out, hex_char(hi));
        push_char(&mut out, hex_char(lo));
        proof {
            lemma_hex_text_push(digest@.take(i as int), byte);
            assert(digest@.take(i as int).push(byte) =~= digest@.take(i + 1));
        }
        i = i + 1;
    }
    assert(digest@.take(16) =~= digest@);
    out
}

fn hex_value(byte: u8) -> (r: Option<u8>)
    ensures
        r == hex_digit_value(byte),
{
    if 0x30 <= byte && byte <= 0x39 {
        Some(byte - 0x30)
    } else if 0x61 <= byte && byte <= 0x66 {
        Some(byte - 0x61 + 10)
    } else if 0x41 <= byte && byte <= 0x46 {
        Some(byte - 0x41 + 10)
    } else {
        None
    }
}

/// Decodes 32 hexadecimal digits (either case) into a digest. Fails unless the
/// text is exactly 32 bytes, all of them hexadecimal digits.
pub fn parse_hex(s: &str) -> (r: Option<[u8; 16]>)
    ensures
        match r {
            Some(d) => parse_hex_bytes(s.spec_bytes()) == Some(d@),
            None => parse_hex_bytes(s.spec_bytes()) is None,
        },
{
    let bytes = s.as_bytes();
    if bytes.len() != 32 {
        return None;
    }
    let mut out = [0u8; 16];
    let mut i: usize = 0;
    while i < 16
        invariant
            i <= 16,
            bytes@ == s.spec_bytes(),
            bytes@.len() == 32,
            forall|j: int| 0 <= j < 2 * i ==> (#[trigger] hex_digit_value(bytes@[j])) is Some,
            forall|j: int|
                0 <= j < i ==> out@[j] == (hex_digit_value(bytes@[2 * j]).unwrap() * 16
                    + hex_digit_value(bytes@[2 * j + 1]).unwrap()) as u8,
        decreases 16 - i,
    {
        let hi = match hex_value(bytes[2 * i]) {
            Some(v) => v,
            None => return None,
        };
        let lo = match hex_value(bytes[2 * i + 1]) {
            Some(v) => v,
            None => return None,
        };
        assert((hi << 4) | lo == hi * 16 + lo) by (bit_vector)
            requires hi < 16, lo < 16;
        out[i] = (hi << 4) | lo;
        i = i + 1;
    }
    assert(all_hex_digits(bytes@));
    assert(out@ =~= parse_hex_bytes(s.spec_bytes()).unwrap());
    Some(out)
}

proof fn lemma_hex_text_index(bytes: Seq<u8>)
    ensures
        hex_text(bytes).len() == 2 * bytes.len(),
        forall|i: int|
            0 <= i < bytes.len() ==> {
                &&& #[trigger] hex_text(bytes)[2 * i] == hex_digit(bytes[i] / 16)
                &&& hex_text(bytes)[2 * i + 1] == hex_digit(bytes[i] % 16)
            },
    decreases bytes.len(),
{
    if bytes.len() > 0 {
        let rest = bytes.drop_first();
        lemma_hex_text_index(rest);
        let t = hex_text(bytes);
        assert forall|i: int| 0 <= i < bytes.len() implies {
            &&& #[trigger] t[2 * i] == hex_digit(bytes[i] / 16)
            &&& t[2 * i + 1] == hex_digit(bytes[i] % 16)
        } by {
            if i > 0 {
                assert(bytes[i] == rest[i - 1]);
                assert(t[2 * i] == hex_text(rest)[2 * (i - 1)]);
                assert(t[2 * i + 1] == hex_text(rest)[2 * (i - 1) + 1]);
            }
        }
    }
}

/// Hex text is made of lowercase hexadecimal digits only: ASCII, and no
/// character of it is a backslash.
pub proof fn law_hex_text_is_lowercase_digits(bytes: Seq<u8>)
    ensures
        hex_text(bytes).len() == 2 * bytes.len(),
        is_ascii_chars(hex_text(bytes)),
        forall|i: int|
            0 <= i < hex_text(bytes).len() ==> {
                let c = #[trigger] hex_text(bytes)[i];
                ('0' <= c <= '9') || ('a' <= c <= 'f')
            },
{
    lemma_hex_text_index(bytes);
    let t = hex_text(bytes);
    assert forall|i: int| 0 <= i < t.len() implies {
        let c = #[trigger] t[i];
        ('0' <= c <= '9') || ('a' <= c <= 'f')
    } by {
        let j = i / 2;
        if i % 2 == 0 {
            assert(i == 2 * j);
            assert(t[2 * j] == hex_digit(bytes[j] / 16));
        } else {
            assert(i == 2 * j + 1);
            assert(t[2 * j] == hex_digit(bytes[j] / 16));
        }
    }
}

/// Decoding the hex text of a digest gives the digest back.
pub proof fn law_parse_hex_of_hex_text(digest: Seq<u8>)
    requires
        digest.len() == 16,
    ensures
        parse_hex_bytes(encode_utf8(hex_text(digest))) == Some(digest),
{
    lemma_hex_text_index(digest);
    law_hex_text_is_lowercase_digits(digest);
    let t = hex_text(digest);
    crate::text::lemma_encode_ascii(t);
    let b = encode_utf8(t);
    assert forall|k: int| 0 <= k < b.len() implies (#[trigger] hex_digit_value(b[k])) is Some by {
        assert(b[k] as u32 == t[k] as u32);
    }
    assert forall|i: int| 0 <= i < 16 implies (hex_digit_value(b[2 * i]).unwrap() * 16
        + hex_digit_value(b[2 * i + 1]).unwrap()) as u8 == digest[i] by {
        assert(b[2 * i] as u32 == t[2 * i] as u32);
        assert(b[2 * i + 1] as u32 == t[2 * i + 1] as u32);
        assert(t[2 * i] == hex_digit(digest[i] / 16));
        assert(t[2 * i + 1] == hex_digit(digest[i] % 16));
    }
    assert(parse_hex_bytes(b).unwrap() =~= digest);
}

/// An ASCII byte with `A`-`F` turned into `a`-`f`.
pub open spec fn lower_hex_byte(b: u8) -> u8 {
    if 0x41 <= b <= 0x46 {
        (b + 0x20) as u8
    } else {
        b
    }
}

proof fn lemma_hex_digit_of_value(x: u8)
    requires
        hex_digit_value(x) is Some,
    ensures
        hex_digit(hex_digit_value(x).unwrap()) as u32 == lower_hex_byte(x) as u32,
{
    let v = hex_digit_value(x).unwrap();
    if 0x30 <= x <= 0x39 {
        assert(v < 10);
        assert(((('0' as int) + v) as char) as u32 == x as u32);
    } else if 0x61 <= x <= 0x66 {
        assert(v >= 10);
        assert(((('a' as int) + v - 10) as char) as u32 == x as u32);
    } else {
        assert(v >= 10);
        assert(((('a' as int) + v - 10) as char) as u32 == (x + 0x20) as u32);
    }
}

/// Encoding a parsed digest again gives the text it was read from, in
/// lowercase: `to_hex` undoes `parse_hex` up to letter case.
pub proof fn law_hex_text_of_parsed(b: Seq<u8>)
    requires
        parse_hex_bytes(b) is Some,
    ensures
        encode_utf8(hex_text(parse_hex_bytes(b).unwrap())) == b.map_values(
            |x: u8| lower_hex_byte(x),
        ),
{
    let d = parse_hex_bytes(b).unwrap();
    lemma_hex_text_index(d);
    law_hex_text_is_lowercase_digits(d);
    let t = hex_text(d);
    crate::text::lemma_encode_ascii(t);
    let e = encode_utf8(t);
    let l = b.map_values(|x: u8| lower_hex_byte(x));
    assert forall|k: int| 0 <= k < 32 implies e[k] == l[k] by {
        let i = k / 2;
        let hi = hex_digit_value(b[2 * i]).unwrap();
        let lo = hex_digit_value(b[2 * i + 1]).unwrap();
        assert(hex_digit_value(b[2 * i]) is Some);
        assert(hex_digit_value(b[2 * i + 1]) is Some);
        assert(d[i] == (hi * 16 + lo) as u8);
        assert(d[i] / 16 == hi && d[i] % 16 == lo) by (nonlinear_arith)
            requires
                d[i] == (hi * 16 + lo) as u8,
                hi < 16,
                lo < 16,
        ;
        assert(e[k] as u32 == t[k] as u32);
        lemma_hex_digit_of_value(b[2 * i]);
        lemma_hex_digit_of_value(b[2 * i + 1]);
        if k % 2 == 0 {
            assert(k == 2 * i);
            assert(t[2 * i] == hex_digit(hi));
        } else {
            assert(k == 2 * i + 1);
            assert(t[2 * i] == hex_digit(d[i] / 16));
            assert(t[2 * i + 1] == hex_digit(d[i] % 16));
            assert(t[2 * i + 1] == hex_digit(lo));
        }
    }
    assert(e =~= l);
}

/// An ASCII byte with `a`-`f` turned into `A`-`F`.
pub open spec fn upper_hex_byte(b: u8) -> u8 {
    if 0x61 <= b <= 0x66 {
        (b - 0x20) as u8
    } else {
        b
    }
}

/// Decoding ignores letter case: turning the letters `a`-`f` of a text into
/// `A`-`F`, or back, changes nothing of what it decodes to; and every
/// hexadecimal digit, `0`-`9`, `a`-`f`, `A`-`F`, has its usual value.
pub proof fn law_parse_hex_ignores_case(b: Seq<u8>)
    ensures
        parse_hex_bytes(b.map_values(|x: u8| upper_hex_byte(x))) == parse_hex_bytes(b),
        parse_hex_bytes(b.map_values(|x: u8| lower_hex_byte(x))) == parse_hex_bytes(b),
        forall|x: u8| 0x30 <= x <= 0x39 ==> #[trigger] hex_digit_value(x) == Some((x - 0x30) as u8),
        forall|x: u8|
            0x61 <= x <= 0x66 ==> #[trigger] hex_digit_value(x) == Some((x - 0x61 + 10) as u8)
                && hex_digit_value((x - 0x20) as u8) == hex_digit_value(x),
        forall|x: u8|
            0x41 <= x <= 0x46 ==> #[trigger] hex_digit_value(x) == Some((x - 0x41 + 10) as u8),
{
    let u = b.map_values(|x: u8| upper_hex_byte(x));
    let l = b.map_values(|x: u8| lower_hex_byte(x));
    assert forall|i: int| 0 <= i < b.len() implies hex_digit_value(#[trigger] u[i])
        == hex_digit_value(b[i]) && hex_digit_value(l[i]) == hex_digit_value(b[i]) by {}
    assert(all_hex_digits(u) == all_hex_digits(b)) by {
        if all_hex_digits(b) {
            assert forall|i: int| 0 <= i < u.len() implies (#[trigger] hex_digit_value(u[i])) is Some by {
                assert(hex_digit_value(b[i]) is Some);
            }
        }
        if all_hex_digits(u) {
            assert forall|i: int| 0 <= i < b.len() implies (#[trigger] hex_digit_value(b[i])) is Some by {
                assert(hex_digit_value(u[i]) is Some);
            }
        }
    }
    assert(all_hex_digits(l) == all_hex_digits(b)) by {
        if all_hex_digits(b) {
            assert forall|i: int| 0 <= i < l.len() implies (#[trigger] hex_digit_value(l[i])) is Some by {
                assert(hex_digit_value(b[i]) is Some);
            }
        }
        if all_hex_digits(l) {
            assert forall|i: int| 0 <= i < b.len() implies (#[trigger] hex_digit_value(b[i])) is Some by {
                assert(hex_digit_value(l[i]) is Some);
            }
        }
    }
    if parse_hex_bytes(b) is Some {
        assert(parse_hex_bytes(u).unwrap() =~= parse_hex_bytes(b).unwrap());
        assert(parse_hex_bytes(l).unwrap() =~= parse_hex_bytes(b).unwrap());
    }
}

} // verus!
