//! Numbers read from text, as the standard library reads them.

use vstd::prelude::*;

verus! {

/// Why a text is no number of the wanted type.
#[derive(Clone, Copy, Debug, PartialEq, Eq, Structural)]
pub enum NumberError {
    /// The text is empty.
    Empty,
    /// The text holds a character that is no digit, or a sign alone.
    InvalidDigit,
    /// The number is too large for the type.
    PosOverflow,
    /// The number is too small for the type.
    NegOverflow,
}

/// Why the reading of digits stopped.
pub enum ScanStop {
    /// A byte is no digit.
    Invalid,
    /// The number is beyond the limit.
    Beyond,
}

/// The plus sign.
pub const PLUS: u8 = 43;

/// The minus sign.
pub const MINUS: u8 = 45;

/// The value of a digit in a radix of at most ten; nothing for another
/// byte.
pub open spec fn digit_in(b: u8, radix: nat) -> Option<nat> {
    if 48 <= b && b - 48 < radix {
        Some((b - 48) as nat)
    } else {
        None
    }
}

/// The number that the digits from position `i` on add to `acc`, read from
/// left to right; the reading stops at the first byte that is no digit and
/// at the first digit with which the number goes beyond `limit`.
pub open spec fn scan_digits(d: Seq<u8>, radix: nat, limit: nat, acc: nat, i: int) -> Result<
    nat,
    ScanStop,
>
    decreases d.len() - i,
{
    if i < 0 || i >= d.len() {
        Ok(acc)
    } else {
        match digit_in(d[i], radix) {
            None => Err(ScanStop::Invalid),
            Some(x) => if acc * radix + x > limit {
                Err(ScanStop::Beyond)
            } else {
                scan_digits(d, radix, limit, acc * radix + x, i + 1)
            },
        }
    }
}

/// A text read as a number without sign that is at most `max`: a plus sign
/// may stand before the digits.
pub open spec fn unsigned_of(s: Seq<u8>, radix: nat, max: nat) -> Result<nat, NumberError> {
    if s.len() == 0 {
        Err(NumberError::Empty)
    } else if s.len() == 1 && (s[0] == PLUS || s[0] == MINUS) {
        Err(NumberError::InvalidDigit)
    } else {
        let from: int = if s[0] == PLUS {
            1
        } else {
            0
        };
        match scan_digits(s, radix, max, 0, from) {
            Ok(v) => Ok(v),
            Err(ScanStop::Invalid) => Err(NumberError::InvalidDigit),
            Err(ScanStop::Beyond) => Err(NumberError::PosOverflow),
        }
    }
}

/// A text read as a number with sign between `-below` and `max`: a plus or
/// a minus sign may stand before the digits.
pub open spec fn signed_of(s: Seq<u8>, radix: nat, below: nat, max: nat) -> Result<int, NumberError> {
    if s.len() == 0 {
        Err(NumberError::Empty)
    } else if s.len() == 1 && (s[0] == PLUS || s[0] == MINUS) {
        Err(NumberError::InvalidDigit)
    } else if s[0] == MINUS {
        match scan_digits(s, radix, below, 0, 1) {
            Ok(v) => Ok(-(v as int)),
            Err(ScanStop::Invalid) => Err(NumberError::InvalidDigit),
            Err(ScanStop::Beyond) => Err(NumberError::NegOverflow),
        }
    } else {
        let from: int = if s[0] == PLUS {
            1
        } else {
            0
        };
        match scan_digits(s, radix, max, 0, from) {
            Ok(v) => Ok(v as int),
            Err(ScanStop::Invalid) => Err(NumberError::InvalidDigit),
            Err(ScanStop::Beyond) => Err(NumberError::PosOverflow),
        }
    }
}

/// What the reading of digits gives is within the limit.
pub proof fn lemma_scan_bound(d: Seq<u8>, radix: nat, limit: nat, acc: nat, i: int)
    requires
        acc <= limit,
    ensures
        scan_digits(d, radix, limit, acc, i) is Ok ==> scan_digits(d, radix, limit, acc, i)->Ok_0
            <= limit,
    decreases d.len() - i,
{
    if 0 <= i < d.len() {
        match digit_in(d[i], radix) {
            None => {},
            Some(x) => {
                if acc * radix + x <= limit {
                    lemma_scan_bound(d, radix, limit, acc * radix + x, i + 1);
                }
            },
        }
    }
}

/// A number without sign that was read is at most `max`.
pub proof fn lemma_unsigned_bound(s: Seq<u8>, radix: nat, max: nat)
    ensures
        unsigned_of(s, radix, max) is Ok ==> unsigned_of(s, radix, max)->Ok_0 <= max,
{
    lemma_scan_bound(s, radix, max, 0, 0);
    lemma_scan_bound(s, radix, max, 0, 1);
}

/// Reads the digits from position `from` on.
fn scan(d: &[u8], radix: u64, limit: u64, from: usize) -> (r: Result<u64, ScanStop>)
    requires
        2 <= radix <= 10,
        from <= d.len(),
    ensures
        match r {
            Ok(v) => v <= limit && scan_digits(d@, radix as nat, limit as nat, 0, from as int)
                == Ok::<nat, ScanStop>(v as nat),
            Err(e) => scan_digits(d@, radix as nat, limit as nat, 0, from as int) == Err::<
                nat,
                ScanStop,
            >(e),
        },
{
    let mut acc: u64 = 0;
    let mut i: usize = from;
    while i < d.len()
        invariant
            2 <= radix <= 10,
            from <= i <= d.len(),
            acc <= limit,
            scan_digits(d@, radix as nat, limit as nat, 0, from as int) == scan_digits(
                d@,
                radix as nat,
                limit as nat,
                acc as nat,
                i as int,
            ),
        decreases d.len() - i,
    {
        let b = d[i];
        if b < 48 || (b - 48) as u64 >= radix {
            return Err(ScanStop::Invalid);
        }
        let x = (b - 48) as u128;
        assert(acc as u128 * radix as u128 <= 0xffff_ffff_ffff_ffff * 10) by (nonlinear_arith)
            requires
                acc <= 0xffff_ffff_ffff_ffff,
                radix <= 10,
        ;
        let next: u128 = acc as u128 * radix as u128 + x;
        if next > limit as u128 {
            return Err(ScanStop::Beyond);
        }
        acc = next as u64;
        i += 1;
    }
    Ok(acc)
}

/// Reads a number without sign that is at most `max`, in a radix of at
/// most ten.
pub fn parse_unsigned(s: &[u8], radix: u64, max: u64) -> (r: Result<u64, NumberError>)
    requires
        2 <= radix <= 10,
    ensures
        match r {
            Ok(v) => unsigned_of(s@, radix as nat, max as nat) == Ok::<nat, NumberError>(v as nat),
            Err(e) => unsigned_of(s@, radix as nat, max as nat) == Err::<nat, NumberError>(e),
        },
{
    if s.len() == 0 {
        return Err(NumberError::Empty);
    }
    if s.len() == 1 && (s[0] == PLUS || s[0] == MINUS) {
        return Err(NumberError::InvalidDigit);
    }
    let from: usize = if s[0] == PLUS {
        1
    } else {
        0
    };
    match scan(s, radix, max, from) {
        Ok(v) => Ok(v),
        Err(ScanStop::Invalid) => Err(NumberError::InvalidDigit),
        Err(ScanStop::Beyond) => Err(NumberError::PosOverflow),
    }
}

/// Reads a number of 64 bits with sign, in decimal.
pub fn parse_i64(s: &[u8]) -> (r: Result<i64, NumberError>)
    ensures
        match r {
            Ok(v) => signed_of(s@, 10, 0x8000_0000_0000_0000, 0x7fff_ffff_ffff_ffff) == Ok::<
                int,
                NumberError,
            >(v as int),
            Err(e) => signed_of(s@, 10, 0x8000_0000_0000_0000, 0x7fff_ffff_ffff_ffff) == Err::<
                int,
                NumberError,
            >(e),
        },
{
    if s.len() == 0 {
        return Err(NumberError::Empty);
    }
    if s.len() == 1 && (s[0] == PLUS || s[0] == MINUS) {
        return Err(NumberError::InvalidDigit);
    }
    if s[0] == MINUS {
        match scan(s, 10, 0x8000_0000_0000_0000, 1) {
            Ok(v) => {
                if v == 0x8000_0000_0000_0000 {
                    Ok(i64::MIN)
                } else {
                    Ok(-(v as i64))
                }
            },
            Err(ScanStop::Invalid) => Err(NumberError::InvalidDigit),
            Err(ScanStop::Beyond) => Err(NumberError::NegOverflow),
        }
    } else {
        let from: usize = if s[0] == PLUS {
            1
        } else {
            0
        };
        match scan(s, 10, 0x7fff_ffff_ffff_ffff, from) {
            Ok(v) => Ok(v as i64),
            Err(ScanStop::Invalid) => Err(NumberError::InvalidDigit),
            Err(ScanStop::Beyond) => Err(NumberError::PosOverflow),
        }
    }
}

} // verus!
