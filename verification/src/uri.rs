//! Percent-decoding of request targets.
//!
//! A target may contain escapes `%XX` (two hexadecimal digits) standing for
//! one byte.  Decoding is permissive: whatever does not form a complete
//! escape is kept literally, and the only failure is a decoded byte sequence
//! that is not valid UTF-8.

use vstd::prelude::*;

verus! {

use vstd::utf8::{valid_utf8, decode_utf8, encode_utf8, encode_scalar};
use vstd::string::StringSliceAdditionalSpecFns;

/// The byte value of `'%'`, the escape introducer.
pub const PERCENT_BYTE: u8 = 0x25;

/// The one way decoding a target can fail.
#[derive(Clone, Copy, Debug, PartialEq, Eq, Structural)]
pub enum DecodeError {
    /// The decoded bytes are not valid UTF-8.
    InvalidUtf8,
}

/// True for the ASCII bytes `0`-`9`, `A`-`F` and `a`-`f`.
pub open spec fn is_hex_digit(b: u8) -> bool {
    (0x30 <= b <= 0x39) || (0x41 <= b <= 0x46) || (0x61 <= b <= 0x66)
}

/// Numerical value of a hexadecimal digit byte.
pub open spec fn hex_value(b: u8) -> u8
    recommends
        is_hex_digit(b),
{
    if 0x30 <= b <= 0x39 {
        (b - 0x30) as u8
    } else if 0x41 <= b <= 0x46 {
        (b - 0x41 + 10) as u8
    } else {
        (b - 0x61 + 10) as u8
    }
}

/// The percent-decoding of a byte sequence: a `%` followed by two
/// hexadecimal digits becomes the byte they encode; any other `%`, and every
/// other byte, is kept literally.
pub open spec fn percent_decoded(s: Seq<u8>) -> Seq<u8>
    decreases s.len(),
{
    if s.len() == 0 {
        Seq::<u8>::empty()
    } else if s[0] == PERCENT_BYTE {
        if s.len() >= 3 && is_hex_digit(s[1]) && is_hex_digit(s[2]) {
            seq![(hex_value(s[1]) * 16 + hex_value(s[2])) as u8] + percent_decoded(s.skip(3))
        } else {
            seq![PERCENT_BYTE] + percent_decoded(s.skip(1))
        }
    } else {
        seq![s[0]] + percent_decoded(s.skip(1))
    }
}

/// What `decode_uri` computes, over the view of its input: decode the
/// escapes byte-wise, then insist the result is valid UTF-8.
pub open spec fn spec_decode_uri(s: Seq<char>) -> Result<Seq<char>, DecodeError> {
    let bytes = percent_decoded(encode_utf8(s));
    if valid_utf8(bytes) {
        Result::Ok(decode_utf8(bytes))
    } else {
        Result::Err(DecodeError::InvalidUtf8)
    }
}

/// The numerical value of a hexadecimal digit byte, or `None` for any other
/// byte.
fn hex_digit_value(b: u8) -> (r: Option<u8>)
    ensures
        r == if is_hex_digit(b) {
            Some(hex_value(b))
        } else {
            None::<u8>
        },
{
    if 0x30 <= b && b <= 0x39 {
        Some(b - 0x30)
    } else if 0x41 <= b && b <= 0x46 {
        Some(b - 0x41 + 10)
    } else if 0x61 <= b && b <= 0x66 {
        Some(b - 0x61 + 10)
    } else {
        None
    }
}

/// Percent-decodes a byte sequence, leaving malformed escapes untouched.
pub fn decode_percent_bytes(input: &[u8]) -> (out: Vec<u8>)
    ensures
        out@ == percent_decoded(input@),
{
    let n: usize = input.len();
    let mut out: Vec<u8> = Vec::new();
    let mut i: usize = 0;
    proof {
        assert(input@.skip(0) =~= input@);
        assert(Seq::<u8>::empty() + percent_decoded(input@) =~= percent_decoded(input@));
    }
    while i < n
        invariant
            n == input@.len(),
            i <= n,
            percent_decoded(input@) == out@ + percent_decoded(input@.skip(i as int)),
        decreases n - i,
    {
        let ghost tail = input@.skip(i as int);
        let ghost prev = out@;
        let b = input[i];
        assert(tail[0] == b);
        if b == PERCENT_BYTE && n - i >= 3 {
            let hi = input[i + 1];
            let lo = input[i + 2];
            assert(tail[1] == hi && tail[2] == lo);
            match (hex_digit_value(hi), hex_digit_value(lo)) {
                (Some(h), Some(l)) => {
                    out.push(h * 16 + l);
                    i = i + 3;
                    proof {
                        assert(tail.skip(3) =~= input@.skip(i as int));
                        assert(prev + (seq![(h * 16 + l) as u8] + percent_decoded(tail.skip(3)))
                            =~= out@ + percent_decoded(input@.skip(i as int)));
                    }
                },
                _ => {
                    out.push(PERCENT_BYTE);
                    i = i + 1;
                    proof {
                        assert(tail.skip(1) =~= input@.skip(i as int));
                        assert(prev + (seq![PERCENT_BYTE] + percent_decoded(tail.skip(1)))
                            =~= out@ + percent_decoded(input@.skip(i as int)));
                    }
                },
            }
        } else {
            out.push(b);
            i = i + 1;
            proof {
                assert(tail.skip(1) =~= input@.skip(i as int));
                assert(prev + (seq![b] + percent_decoded(tail.skip(1))) =~= out@
                    + percent_decoded(input@.skip(i as int)));
            }
        }
    }
    proof {
        assert(input@.skip(n as int) =~= Seq::<u8>::empty());
        assert(out@ + percent_decoded(Seq::<u8>::empty()) =~= out@);
    }
    out
}

/// Relies on `String::from_utf8`: it returns `Ok` exactly when the bytes are
/// valid UTF-8, and the string it then returns reads those very bytes as
/// UTF-8.
#[verifier::external_body]
fn string_from_utf8(bytes: Vec<u8>) -> (r: Option<String>)
    ensures
        r is Some <==> valid_utf8(bytes@),
        r matches Some(s) ==> s@ == decode_utf8(bytes@),
{
    String::from_utf8(bytes).ok()
}

/// Decodes a percent-encoded URI into the UTF-8 string it stands for.
///
/// Malformed escapes pass through literally; the only failure is a decoded
/// byte sequence that is not valid UTF-8.
pub fn decode_uri(encoded_uri: &str) -> (r: Result<String, DecodeError>)
    ensures
        r is Ok <==> spec_decode_uri(encoded_uri@) is Ok,
        r matches Ok(s) ==> spec_decode_uri(encoded_uri@) == Result::<Seq<char>, DecodeError>::Ok(
            s@,
        ),
        r matches Err(e) ==> spec_decode_uri(encoded_uri@) == Result::<
            Seq<char>,
            DecodeError,
        >::Err(e),
{
    let bytes = encoded_uri.as_bytes();
    assert(bytes@ == encode_utf8(encoded_uri@));
    let decoded = decode_percent_bytes(bytes);
    match string_from_utf8(decoded) {
        Some(s) => Ok(s),
        None => Err(DecodeError::InvalidUtf8),
    }
}

/// A byte sequence without `%` decodes to itself.
proof fn lemma_percent_decoded_identity(b: Seq<u8>)
    requires
        forall|i: int| 0 <= i < b.len() ==> b[i] != PERCENT_BYTE,
    ensures
        percent_decoded(b) == b,
    decreases b.len(),
{
    if b.len() == 0 {
        assert(percent_decoded(b) =~= b);
    } else {
        lemma_percent_decoded_identity(b.skip(1));
        assert(percent_decoded(b) =~= b);
    }
}

/// No byte of the UTF-8 encoding of a character other than `'%'` is the
/// `'%'` byte: one-byte encodings are the character's own value, and every
/// byte of a longer encoding is `0x80` or above.
proof fn lemma_encode_scalar_no_percent(c: char)
    requires
        c != '%',
    ensures
        forall|i: int|
            0 <= i < encode_scalar(c as u32).len() ==> #[trigger] encode_scalar(c as u32)[i]
                != PERCENT_BYTE,
{
    vstd::utf8::char_is_scalar(c);
    let s = c as u32;
    let e = encode_scalar(s);
    if vstd::utf8::has_width_1_encoding(s) {
        assert((s & 0x7F) as u8 as u32 == s) by (bit_vector)
            requires
                s <= 0x7F,
        ;
        if e[0] == PERCENT_BYTE {
            assert(s == 0x25);
            vstd::utf8::char_u32_cast(c, s);
            assert(c == '%');
        }
    } else {
        assert((0x80u8 | ((s & 0x3F) as u8)) != 0x25) by (bit_vector);
        assert((0x80u8 | (((s >> 6) & 0x3F) as u8)) != 0x25) by (bit_vector);
        assert((0x80u8 | (((s >> 12) & 0x3F) as u8)) != 0x25) by (bit_vector);
        assert((0xC0u8 | (((s >> 6) & 0x1F) as u8)) != 0x25) by (bit_vector);
        assert((0xE0u8 | (((s >> 12) & 0x0F) as u8)) != 0x25) by (bit_vector);
        assert((0xF0u8 | (((s >> 18) & 0x7) as u8)) != 0x25) by (bit_vector);
    }
}

/// No byte of the UTF-8 encoding of a percent-free string is the `'%'` byte.
proof fn lemma_encode_no_percent(s: Seq<char>)
    requires
        forall|i: int| 0 <= i < s.len() ==> s[i] != '%',
    ensures
        forall|i: int| 0 <= i < encode_utf8(s).len() ==> encode_utf8(s)[i] != PERCENT_BYTE,
    decreases s.len(),
{
    if s.len() > 0 {
        lemma_encode_scalar_no_percent(s[0]);
        lemma_encode_no_percent(s.drop_first());
        let e0 = encode_scalar(s[0] as u32);
        let rest = encode_utf8(s.drop_first());
        assert(encode_utf8(s) == e0 + rest);
        assert forall|i: int| 0 <= i < encode_utf8(s).len() implies encode_utf8(s)[i]
            != PERCENT_BYTE by {
            if i < e0.len() {
                assert(encode_utf8(s)[i] == e0[i]);
            } else {
                assert(encode_utf8(s)[i] == rest[i - e0.len()]);
            }
        }
    }
}

/// Law: a string without `'%'` decodes to itself, unchanged.
pub proof fn lemma_decode_uri_without_percent(s: Seq<char>)
    requires
        forall|i: int| 0 <= i < s.len() ==> s[i] != '%',
    ensures
        spec_decode_uri(s) == Result::<Seq<char>, DecodeError>::Ok(s),
{
    broadcast use vstd::utf8::encode_utf8_valid_utf8, vstd::utf8::encode_utf8_decode_utf8;

    lemma_encode_no_percent(s);
    lemma_percent_decoded_identity(encode_utf8(s));
}

} // verus!
