//! Checksums written in hexadecimal.

use vstd::prelude::*;
use vstd::string::StringSliceAdditionalSpecFns;

verus! {

/// Why a text is no checksum in hexadecimal.
#[derive(Clone, Copy, Debug, PartialEq, Eq, Structural)]
pub enum HexError {
    /// A pair of characters is no number in hexadecimal.
    InvalidDigit,
}

/// The value of a hexadecimal digit; nothing for another byte.
pub open spec fn hex_value(b: u8) -> Option<u8> {
    if 48 <= b <= 57 {
        Some((b - 48) as u8)
    } else if 97 <= b <= 102 {
        Some((b - 87) as u8)
    } else if 65 <= b <= 70 {
        Some((b - 55) as u8)
    } else {
        None
    }
}

/// The number that two bytes stand for: two hexadecimal digits, or a plus
/// sign and one hexadecimal digit; nothing for other bytes.
pub open spec fn pair_value(hi: u8, lo: u8) -> Option<u8> {
    if hex_value(lo) is None {
        None
    } else if hi == 43 {
        hex_value(lo)
    } else if hex_value(hi) is None {
        None
    } else {
        Some((hex_value(hi)->0 * 16 + hex_value(lo)->0) as u8)
    }
}

/// Whether the text, from byte `i` on, can be read pair by pair up to its
/// end or up to a pair that is no number: each pair lies within the text
/// and ends between two characters.
pub open spec fn pairs_readable(bytes: Seq<u8>, i: int) -> bool
    decreases bytes.len() - i,
{
    if i < 0 || i >= bytes.len() {
        true
    } else if i + 2 > bytes.len() {
        false
    } else if pair_value(bytes[i], bytes[i + 1]) is Some {
        pairs_readable(bytes, i + 2)
    } else {
        vstd::utf8::is_char_boundary(bytes, i + 2)
    }
}

/// The numbers that the pairs of the text stand for, from byte `i` on;
/// nothing where a pair is no number.
pub open spec fn pairs_decoded(bytes: Seq<u8>, i: int) -> Option<Seq<u8>>
    decreases bytes.len() - i,
{
    if i < 0 || i + 2 > bytes.len() {
        Some(Seq::empty())
    } else {
        match (pair_value(bytes[i], bytes[i + 1]), pairs_decoded(bytes, i + 2)) {
            (Some(v), Some(rest)) => Some(seq![v] + rest),
            _ => None,
        }
    }
}

fn digit_value(b: u8) -> (v: Option<u8>)
    ensures
        v == hex_value(b),
        v is Some ==> v->0 < 16,
{
    if 48 <= b && b <= 57 {
        Some(b - 48)
    } else if 97 <= b && b <= 102 {
        Some(b - 87)
    } else if 65 <= b && b <= 70 {
        Some(b - 55)
    } else {
        None
    }
}

fn decode_pair(hi: u8, lo: u8) -> (v: Option<u8>)
    ensures
        v == pair_value(hi, lo),
{
    match digit_value(lo) {
        None => None,
        Some(l) => {
            if hi == 43 {
                Some(l)
            } else {
                match digit_value(hi) {
                    None => None,
                    Some(h) => Some(h * 16 + l),
                }
            }
        },
    }
}

/// Reads a checksum that is written in hexadecimal, two bytes of text for
/// a byte, where the text can be read pair by pair; says `None` where it
/// cannot.
pub fn try_decode_hex(bytes: &[u8]) -> (decoded: Option<Result<Vec<u8>, HexError>>)
    requires
        vstd::utf8::valid_utf8(bytes@),
    ensures
        decoded is Some <==> pairs_readable(bytes@, 0),
        match decoded {
            Some(Ok(out)) => pairs_decoded(bytes@, 0) == Some(out@),
            Some(Err(e)) => pairs_decoded(bytes@, 0) is None,
            None => true,
        },
{
    let mut out: Vec<u8> = Vec::new();
    let mut i: usize = 0;
    while i < bytes.len()
        invariant
            vstd::utf8::valid_utf8(bytes@),
            i <= bytes.len(),
            pairs_readable(bytes@, i as int) == pairs_readable(bytes@, 0),
            match pairs_decoded(bytes@, i as int) {
                Some(rest) => pairs_decoded(bytes@, 0) == Some(out@ + rest),
                None => pairs_decoded(bytes@, 0) is None,
            },
        decreases bytes.len() - i,
    {
        if bytes.len() - i < 2 {
            return None;
        }
        match decode_pair(bytes[i], bytes[i + 1]) {
            Some(v) => {
                proof {
                    let rest = pairs_decoded(bytes@, i + 2);
                    if rest is Some {
                        assert(out@.push(v) + rest->0 =~= out@ + (seq![v] + rest->0));
                    }
                }
                out.push(v);
            },
            None => {
                proof {
                    vstd::utf8::is_char_boundary_start_end_of_seq(bytes@);
                    if i + 2 < bytes.len() {
                        vstd::utf8::is_char_boundary_iff_not_is_continuation_byte(bytes@, i + 2);
                    }
                }
                if i + 2 == bytes.len() || !is_continuation(bytes[i + 2]) {
                    return Some(Err(HexError::InvalidDigit));
                }
                return None;
            },
        }
        i += 2;
    }
    assert(out@ + Seq::<u8>::empty() =~= out@);
    Some(Ok(out))
}

/// Tells whether a byte continues a character in UTF-8.
fn is_continuation(b: u8) -> (c: bool)
    ensures
        c == vstd::utf8::is_continuation_byte(b),
{
    0x80 <= b && b <= 0xBF
}

/// Reads a checksum that is written in hexadecimal, two characters for a
/// byte. The text must be one that can be read pair by pair: a text of odd
/// length without a wrong pair before its end cannot.
pub fn decode_hex(s: &str) -> (decoded: Result<Vec<u8>, HexError>)
    requires
        pairs_readable(s.spec_bytes(), 0),
    ensures
        match decoded {
            Ok(bytes) => pairs_decoded(s.spec_bytes(), 0) == Some(bytes@),
            Err(e) => pairs_decoded(s.spec_bytes(), 0) is None,
        },
{
    proof {
        vstd::utf8::encode_utf8_valid_utf8(s@);
    }
    match try_decode_hex(s.as_bytes()) {
        Some(decoded) => decoded,
        None => vstd::pervasive::unreached(),
    }
}

} // verus!
