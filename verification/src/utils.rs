//! Percent-decoding of URL paths.

use vstd::prelude::*;
use crate::text::str_chars;
use vstd::utf8::{valid_utf8, decode_utf8, encode_utf8, encode_scalar};

verus! {

/// The value of one hexadecimal digit, either case.
pub open spec fn hex_digit(c: char) -> Option<int> {
    if '0' <= c && c <= '9' {
        Some((c as int) - ('0' as int))
    } else if 'a' <= c && c <= 'f' {
        Some((c as int) - ('a' as int) + 10)
    } else if 'A' <= c && c <= 'F' {
        Some((c as int) - ('A' as int) + 10)
    } else {
        None
    }
}

/// What `u8::from_str_radix` gives, base 16, on the two-character text
/// `a` followed by `b`: a leading `+` is accepted as a sign.
pub open spec fn hex_pair(a: char, b: char) -> Option<u8> {
    if a == '+' {
        match hex_digit(b) {
            Some(v) => Some(v as u8),
            None => None,
        }
    } else {
        match (hex_digit(a), hex_digit(b)) {
            (Some(x), Some(y)) => Some((x * 16 + y) as u8),
            _ => None,
        }
    }
}

/// The low byte of a character's code point (what `c as u8` keeps).
pub open spec fn low_byte(c: char) -> u8 {
    ((c as u32) % 256) as u8
}

/// The bytes that percent-decoding collects: `%XY` gives the byte `0xXY`,
/// any other character gives its low byte, and decoding stops at a `%`
/// that is not followed by two characters that form a hexadecimal byte.
pub open spec fn percent_decode_bytes(s: Seq<char>) -> Seq<u8>
    decreases s.len(),
{
    if s.len() == 0 {
        Seq::empty()
    } else if s[0] == '%' {
        if s.len() >= 3 {
            match hex_pair(s[1], s[2]) {
                Some(b) => seq![b] + percent_decode_bytes(s.skip(3)),
                None => Seq::empty(),
            }
        } else {
            Seq::empty()
        }
    } else {
        seq![low_byte(s[0])] + percent_decode_bytes(s.drop_first())
    }
}

/// What `String::from_utf8_lossy` makes of a byte sequence.
pub uninterp spec fn utf8_lossy(bytes: Seq<u8>) -> Seq<char>;

pub open spec fn all_ascii_bytes(b: Seq<u8>) -> bool {
    forall|i: int| 0 <= i < b.len() ==> b[i] < 128
}

pub open spec fn ascii_bytes_as_chars(b: Seq<u8>) -> Seq<char> {
    b.map_values(|x: u8| x as char)
}

/// `String::from_utf8_lossy`: the text that the bytes encode in UTF-8,
/// with each invalid sequence replaced by U+FFFD. Valid UTF-8 decodes to
/// the text it encodes; a byte below 128 is a whole UTF-8 sequence by
/// itself and decodes to the character of the same code, so leading
/// bytes below 128 decode to those characters, followed by what the
/// rest decodes to.
#[verifier::external_body]
fn from_utf8_lossy(bytes: &[u8]) -> (s: String)
    ensures
        s@ == utf8_lossy(bytes@),
        all_ascii_bytes(bytes@) ==> s@ == ascii_bytes_as_chars(bytes@),
        valid_utf8(bytes@) ==> s@ == decode_utf8(bytes@),
        forall|n: int|
            0 <= n <= bytes@.len() && #[trigger] all_ascii_bytes(bytes@.take(n)) ==> s@
                == ascii_bytes_as_chars(bytes@.take(n)) + utf8_lossy(bytes@.skip(n)),
{
    String::from_utf8_lossy(bytes).to_string()
}

fn hex_digit_exec(c: char) -> (r: Option<u8>)
    ensures
        match r {
            Some(v) => hex_digit(c) == Some(v as int) && v < 16,
            None => hex_digit(c) is None,
        },
{
    if '0' <= c && c <= '9' {
        Some((c as u32 - '0' as u32) as u8)
    } else if 'a' <= c && c <= 'f' {
        Some((c as u32 - 'a' as u32 + 10) as u8)
    } else if 'A' <= c && c <= 'F' {
        Some((c as u32 - 'A' as u32 + 10) as u8)
    } else {
        None
    }
}

fn hex_pair_exec(a: char, b: char) -> (r: Option<u8>)
    ensures
        r == hex_pair(a, b),
{
    if a == '+' {
        hex_digit_exec(b)
    } else {
        match (hex_digit_exec(a), hex_digit_exec(b)) {
            (Some(x), Some(y)) => Some(x * 16 + y),
            _ => None,
        }
    }
}

/// Percent-decodes `s` and reads the bytes as UTF-8 (invalid sequences
/// become U+FFFD).
pub fn url_decode_utf8(s: &str) -> (r: String)
    ensures
        r@ == utf8_lossy(percent_decode_bytes(s@)),
        all_ascii_bytes(percent_decode_bytes(s@)) ==> r@ == ascii_bytes_as_chars(percent_decode_bytes(s@)),
        valid_utf8(percent_decode_bytes(s@)) ==> r@ == decode_utf8(percent_decode_bytes(s@)),
        forall|k: int|
            0 <= k <= s@.len() && #[trigger] plain_ascii(s@.take(k)) ==> r@ == s@.take(k)
                + utf8_lossy(percent_decode_bytes(s@.skip(k))),
{
    let cs = str_chars(s);
    let mut buf: Vec<u8> = Vec::new();
    let mut i: usize = 0;
    assert(cs@.skip(0) =~= cs@);
    while i < cs.len()
        invariant_except_break
            i <= cs.len(),
            percent_decode_bytes(s@) == buf@ + percent_decode_bytes(cs@.skip(i as int)),
        invariant
            cs@ == s@,
        ensures
            percent_decode_bytes(s@) == buf@,
        decreases cs.len() - i,
    {
        let ghost rest = cs@.skip(i as int);
        let c = cs[i];
        if c == '%' {
            if cs.len() - i >= 3 {
                match hex_pair_exec(cs[i + 1], cs[i + 2]) {
                    Some(x) => {
                        assert(rest.skip(3) =~= cs@.skip(i + 3));
                        buf.push(x);
                        i = i + 3;
                    },
                    None => {
                        assert(buf@ + Seq::<u8>::empty() =~= buf@);
                        break ;
                    },
                }
            } else {
                assert(buf@ + Seq::<u8>::empty() =~= buf@);
                break ;
            }
        } else {
            assert(rest.drop_first() =~= cs@.skip(i + 1));
            buf.push(((c as u32) % 256) as u8);
            i = i + 1;
        }
        assert(buf@ + percent_decode_bytes(cs@.skip(i as int)) =~= buf@.drop_last() + (seq![
            buf@.last(),
        ] + percent_decode_bytes(cs@.skip(i as int))));
    }
    let r = from_utf8_lossy(buf.as_slice());
    proof {
        assert forall|k: int|
            0 <= k <= s@.len() && #[trigger] plain_ascii(s@.take(k)) implies r@ == s@.take(k)
                + utf8_lossy(percent_decode_bytes(s@.skip(k))) by {
            let p = s@.take(k);
            let q = s@.skip(k);
            assert(s@ =~= p + q);
            lemma_ascii_prefix_bytes(p, q);
            lemma_ascii_encode(p);
            let bytes = percent_decode_bytes(s@);
            assert(bytes.take(p.len() as int) =~= encode_utf8(p));
            assert(bytes.skip(p.len() as int) =~= percent_decode_bytes(q));
            assert(all_ascii_bytes(bytes.take(p.len() as int)));
        }
    }
    r
}

/// A hexadecimal digit for the value `v` (below 16), in upper or lower
/// case.
pub open spec fn hex_char(v: int, upper: bool) -> char {
    if v < 10 {
        (v + 48) as char
    } else if upper {
        (v + 55) as char
    } else {
        (v + 87) as char
    }
}

/// Each byte written `%XY` (hexadecimal, upper or lower case).
pub open spec fn percent_escape(b: Seq<u8>, upper: bool) -> Seq<char>
    decreases b.len(),
{
    if b.len() == 0 {
        Seq::empty()
    } else {
        seq!['%', hex_char((b[0] / 16) as int, upper), hex_char((b[0] % 16) as int, upper)] + percent_escape(
            b.drop_first(),
            upper,
        )
    }
}

proof fn lemma_hex_char(v: int, upper: bool)
    requires
        0 <= v < 16,
    ensures
        hex_digit(hex_char(v, upper)) == Some(v),
        hex_char(v, upper) != '+',
{
}

/// Escaped bytes decode to themselves: percent-decoding the `%XY` form of
/// bytes gives those bytes back.
pub proof fn lemma_escape_decodes(b: Seq<u8>, upper: bool)
    ensures
        percent_decode_bytes(percent_escape(b, upper)) == b,
    decreases b.len(),
{
    if b.len() > 0 {
        let s = percent_escape(b, upper);
        let x = b[0] / 16;
        let y = b[0] % 16;
        lemma_hex_char(x as int, upper);
        lemma_hex_char(y as int, upper);
        assert(s[0] == '%');
        assert(s[1] == hex_char(x as int, upper));
        assert(s[2] == hex_char(y as int, upper));
        assert((x * 16 + y) as u8 == b[0]);
        assert(s.skip(3) =~= percent_escape(b.drop_first(), upper));
        lemma_escape_decodes(b.drop_first(), upper);
        assert(seq![b[0]] + b.drop_first() =~= b);
    }
}

/// The `%XY` form of a text's UTF-8 bytes decodes back to those bytes,
/// which are valid UTF-8 and read as the text.
pub proof fn lemma_escaped_text_decodes(t: Seq<char>, upper: bool)
    ensures
        percent_decode_bytes(percent_escape(encode_utf8(t), upper)) == encode_utf8(t),
        valid_utf8(encode_utf8(t)),
        decode_utf8(encode_utf8(t)) == t,
{
    broadcast use vstd::utf8::group_utf8_lib;

    lemma_escape_decodes(encode_utf8(t), upper);
}

proof fn lemma_encode_utf8_concat(a: Seq<char>, b: Seq<char>)
    ensures
        encode_utf8(a + b) == encode_utf8(a) + encode_utf8(b),
    decreases a.len(),
{
    if a.len() == 0 {
        assert(a + b =~= b);
        assert(Seq::<u8>::empty() + encode_utf8(b) =~= encode_utf8(b));
    } else {
        assert((a + b).drop_first() =~= a.drop_first() + b);
        assert((a + b)[0] == a[0]);
        lemma_encode_utf8_concat(a.drop_first(), b);
        assert(encode_scalar(a[0] as u32) + (encode_utf8(a.drop_first()) + encode_utf8(b)) =~= (
        encode_scalar(a[0] as u32) + encode_utf8(a.drop_first())) + encode_utf8(b));
    }
}

/// ASCII text without `%`: each character below U+0080 and not `%`.
pub open spec fn plain_ascii(p: Seq<char>) -> bool {
    forall|i: int| 0 <= i < p.len() ==> (#[trigger] p[i] as u32) < 128 && p[i] != '%'
}

proof fn lemma_ascii_prefix_bytes(p: Seq<char>, q: Seq<char>)
    requires
        plain_ascii(p),
    ensures
        percent_decode_bytes(p + q) == encode_utf8(p) + percent_decode_bytes(q),
    decreases p.len(),
{
    if p.len() == 0 {
        assert(p + q =~= q);
        assert(Seq::<u8>::empty() + percent_decode_bytes(q) =~= percent_decode_bytes(q));
    } else {
        let c = p[0];
        let u = c as u32;
        assert(u < 128 && c != '%');
        assert((p + q)[0] == c);
        assert((p + q).drop_first() =~= p.drop_first() + q);
        assert(plain_ascii(p.drop_first())) by {
            assert forall|i: int| 0 <= i < p.drop_first().len() implies (#[trigger] p.drop_first()[i]
                as u32) < 128 && p.drop_first()[i] != '%' by {
                assert(p.drop_first()[i] == p[i + 1]);
            }
        }
        lemma_ascii_prefix_bytes(p.drop_first(), q);
        assert((u % 256) as u8 == (u & 0x7F) as u8) by (bit_vector)
            requires
                u < 128,
        ;
        assert(encode_scalar(u) == seq![(u & 0x7F) as u8]);
        assert(seq![low_byte(c)] + (encode_utf8(p.drop_first()) + percent_decode_bytes(q)) =~= (
        encode_scalar(u) + encode_utf8(p.drop_first())) + percent_decode_bytes(q));
    }
}

/// An ASCII prefix without `%` decodes to itself: when the bytes of `q`
/// are valid UTF-8, so are those of `p` followed by `q`, and they read
/// as `p` followed by what `q` reads as.
pub proof fn lemma_ascii_prefix_decodes(p: Seq<char>, q: Seq<char>)
    requires
        plain_ascii(p),
        valid_utf8(percent_decode_bytes(q)),
    ensures
        valid_utf8(percent_decode_bytes(p + q)),
        decode_utf8(percent_decode_bytes(p + q)) == p + decode_utf8(percent_decode_bytes(q)),
{
    broadcast use vstd::utf8::group_utf8_lib;

    let qb = percent_decode_bytes(q);
    let d = decode_utf8(qb);
    lemma_ascii_prefix_bytes(p, q);
    assert(encode_utf8(d) == qb);
    lemma_encode_utf8_concat(p, d);
    assert(percent_decode_bytes(p + q) == encode_utf8(p + d));
}

/// The UTF-8 bytes of ASCII text are its character codes.
proof fn lemma_ascii_encode(p: Seq<char>)
    requires
        plain_ascii(p),
    ensures
        encode_utf8(p).len() == p.len(),
        all_ascii_bytes(encode_utf8(p)),
        ascii_bytes_as_chars(encode_utf8(p)) == p,
    decreases p.len(),
{
    if p.len() > 0 {
        let c = p[0];
        let u = c as u32;
        assert(u < 128);
        assert(plain_ascii(p.drop_first())) by {
            assert forall|i: int| 0 <= i < p.drop_first().len() implies (#[trigger] p.drop_first()[i]
                as u32) < 128 && p.drop_first()[i] != '%' by {
                assert(p.drop_first()[i] == p[i + 1]);
            }
        }
        lemma_ascii_encode(p.drop_first());
        let b = (u & 0x7F) as u8;
        assert(((u & 0x7F) as u8) as u32 == u && ((u & 0x7F) as u8) < 128) by (bit_vector)
            requires
                u < 128,
        ;
        vstd::utf8::char_u32_cast(c, u);
        assert(encode_scalar(u) == seq![b]);
        assert(encode_utf8(p) == seq![b] + encode_utf8(p.drop_first()));
        assert(ascii_bytes_as_chars(encode_utf8(p)) =~= seq![b as char] + ascii_bytes_as_chars(
            encode_utf8(p.drop_first()),
        ));
        assert(b as char == c);
        assert(ascii_bytes_as_chars(encode_utf8(p)) =~= p);
    }
}

/// Text whose every `%` starts a complete escape: `%` and two characters
/// that form a hexadecimal byte.
pub open spec fn well_escaped(p: Seq<char>) -> bool
    decreases p.len(),
{
    if p.len() == 0 {
        true
    } else if p[0] == '%' {
        p.len() >= 3 && hex_pair(p[1], p[2]) is Some && well_escaped(p.skip(3))
    } else {
        well_escaped(p.drop_first())
    }
}

/// A `%` not followed by two characters that form a hexadecimal byte.
pub open spec fn malformed_escape(q: Seq<char>) -> bool {
    q.len() > 0 && q[0] == '%' && (q.len() < 3 || hex_pair(q[1], q[2]) is None)
}

/// A malformed escape ends decoding: after well-escaped text, a
/// malformed escape and all that follows it add nothing.
pub proof fn lemma_malformed_escape_ends(p: Seq<char>, q: Seq<char>)
    requires
        well_escaped(p),
        malformed_escape(q),
    ensures
        percent_decode_bytes(p + q) == percent_decode_bytes(p),
    decreases p.len(),
{
    if p.len() == 0 {
        assert(p + q =~= q);
    } else if p[0] == '%' {
        assert((p + q)[0] == '%' && (p + q)[1] == p[1] && (p + q)[2] == p[2]);
        assert((p + q).skip(3) =~= p.skip(3) + q);
        lemma_malformed_escape_ends(p.skip(3), q);
    } else {
        assert((p + q)[0] == p[0]);
        assert((p + q).drop_first() =~= p.drop_first() + q);
        lemma_malformed_escape_ends(p.drop_first(), q);
    }
}

} // verus!
