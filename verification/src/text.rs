//! Text for people: paths and names as text, numbers in decimal.

use vstd::prelude::*;

verus! {

/// The text that the standard library makes of a byte string when it reads
/// it as UTF-8 and puts U+FFFD in place of what is not UTF-8.
pub uninterp spec fn lossy_text(bytes: Seq<u8>) -> Seq<char>;

/// `String::from_utf8_lossy`: the text of a path or of a name. The
/// contract names the result, and states what the documentation says of
/// valid UTF-8: it is decoded as it stands.
#[verifier::external_body]
pub(crate) fn path_text(path: &[u8]) -> (text: String)
    ensures
        text@ == lossy_text(path@),
        vstd::utf8::valid_utf8(path@) ==> text@ == vstd::utf8::decode_utf8(path@),
{
    String::from_utf8_lossy(path).into_owned()
}

/// `std::str::from_utf8`: tells whether the bytes are valid UTF-8.
#[verifier::external_body]
pub(crate) fn is_utf8(bytes: &[u8]) -> (valid: bool)
    ensures
        valid == vstd::utf8::valid_utf8(bytes@),
{
    std::str::from_utf8(bytes).is_ok()
}

/// The letter of the file type that the mode's type bits stand for.
pub open spec fn type_letter(mode: u32) -> char {
    let kind = (mode >> 12) & 0xf;
    if kind == 1 {
        'p'
    } else if kind == 2 {
        'c'
    } else if kind == 4 {
        'd'
    } else if kind == 6 {
        'b'
    } else if kind == 8 {
        '-'
    } else if kind == 10 {
        'l'
    } else if kind == 12 {
        's'
    } else if kind == 14 {
        'w'
    } else {
        '?'
    }
}

/// The letter of a permission: `letter` where the bit is set, else a
/// hyphen.
pub open spec fn access_letter(mode: u32, bit: u32, letter: char) -> char {
    if mode & bit != 0 {
        letter
    } else {
        '-'
    }
}

/// The letter of a permission to execute: where the special bit is set,
/// `set` with the permission and `unset` without it; else `x` or a hyphen.
pub open spec fn execute_letter(mode: u32, bit: u32, special: u32, set: char, unset: char) -> char {
    if mode & special != 0 {
        if mode & bit != 0 {
            set
        } else {
            unset
        }
    } else {
        access_letter(mode, bit, 'x')
    }
}

/// The mode as `ls -l` shows it: the letter of the file type, and three
/// letters of permissions each for the owner, the group and the others,
/// with the set-user-ID, set-group-ID and sticky bits shown in the places
/// of the permissions to execute.
pub open spec fn mode_string(mode: u32) -> Seq<char> {
    seq![
        type_letter(mode),
        access_letter(mode, 0o400, 'r'),
        access_letter(mode, 0o200, 'w'),
        execute_letter(mode, 0o100, 0o4000, 's', 'S'),
        access_letter(mode, 0o040, 'r'),
        access_letter(mode, 0o020, 'w'),
        execute_letter(mode, 0o010, 0o2000, 's', 'S'),
        access_letter(mode, 0o004, 'r'),
        access_letter(mode, 0o002, 'w'),
        execute_letter(mode, 0o001, 0o1000, 't', 'T'),
    ]
}

/// `unix_mode::to_string`: the mode as `ls -l` shows it, ten letters that
/// the crate makes by testing the mode's bits one by one.
#[verifier::external_body]
pub(crate) fn mode_text(mode: u32) -> (text: String)
    ensures
        text@ == mode_string(mode),
{
    unix_mode::to_string(mode)
}

/// `String::push`: appends one character.
#[verifier::external_body]
fn push_char(text: &mut String, c: char)
    ensures
        final(text)@ == old(text)@.push(c),
{
    text.push(c)
}

/// The character of a decimal digit.
pub open spec fn digit_of(d: int) -> char {
    if d == 0 {
        '0'
    } else if d == 1 {
        '1'
    } else if d == 2 {
        '2'
    } else if d == 3 {
        '3'
    } else if d == 4 {
        '4'
    } else if d == 5 {
        '5'
    } else if d == 6 {
        '6'
    } else if d == 7 {
        '7'
    } else if d == 8 {
        '8'
    } else {
        '9'
    }
}

/// A number in decimal, without leading zeros.
pub open spec fn decimal(n: nat) -> Seq<char>
    decreases n,
{
    if n < 10 {
        seq![digit_of(n as int)]
    } else {
        decimal(n / 10).push(digit_of((n % 10) as int))
    }
}

fn digit_char(d: u64) -> (c: char)
    requires
        d < 10,
    ensures
        c == digit_of(d as int),
{
    if d == 0 {
        '0'
    } else if d == 1 {
        '1'
    } else if d == 2 {
        '2'
    } else if d == 3 {
        '3'
    } else if d == 4 {
        '4'
    } else if d == 5 {
        '5'
    } else if d == 6 {
        '6'
    } else if d == 7 {
        '7'
    } else if d == 8 {
        '8'
    } else {
        '9'
    }
}

/// Appends a number in decimal to a text.
pub fn push_decimal(text: &mut String, n: u64)
    ensures
        final(text)@ == old(text)@ + decimal(n as nat),
    decreases n,
{
    if n < 10 {
        assert(old(text)@ + decimal(n as nat) =~= old(text)@.push(digit_of(n as int)));
        push_char(text, digit_char(n));
    } else {
        push_decimal(text, n / 10);
        assert(old(text)@ + decimal(n as nat) =~= (old(text)@ + decimal((n / 10) as nat)).push(
            digit_of((n % 10) as int),
        ));
        push_char(text, digit_char(n % 10));
    }
}

/// Writes a number in decimal.
pub fn decimal_text(n: u64) -> (text: String)
    ensures
        text@ == decimal(n as nat),
{
    let mut text = String::new();
    push_decimal(&mut text, n);
    assert(Seq::<char>::empty() + decimal(n as nat) =~= decimal(n as nat));
    text
}

} // verus!
