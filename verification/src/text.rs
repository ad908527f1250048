//! Text forms of bytes and numbers: hexadecimal, base58 and decimal.

use vstd::prelude::*;

verus! {

/// The lower-case hexadecimal digit of a value below 16.
pub open spec fn hex_digit(value: u8) -> char {
    if value < 10 {
        (48 + value) as char
    } else {
        (87 + value) as char
    }
}

/// The hexadecimal text of a byte string: two lower-case digits per byte, the
/// high half first.
pub open spec fn hex_text(bytes: Seq<u8>) -> Seq<char>
    decreases bytes.len(),
{
    if bytes.len() == 0 {
        Seq::empty()
    } else {
        hex_text(bytes.drop_last()) + seq![
            hex_digit(bytes.last() / 16),
            hex_digit(bytes.last() % 16),
        ]
    }
}

/// The value of a hexadecimal digit of either case.
pub open spec fn hex_value(digit: char) -> Option<u8> {
    if '0' <= digit <= '9' {
        Some((digit as u8 - 48) as u8)
    } else if 'a' <= digit <= 'f' {
        Some((digit as u8 - 87) as u8)
    } else if 'A' <= digit <= 'F' {
        Some((digit as u8 - 55) as u8)
    } else {
        None
    }
}

/// The bytes that a hexadecimal text stands for: none where it has an odd
/// number of characters or one that is no hexadecimal digit.
pub open spec fn hex_bytes(text: Seq<char>) -> Option<Seq<u8>>
    decreases text.len(),
{
    if text.len() == 0 {
        Some(Seq::empty())
    } else if text.len() == 1 {
        None
    } else {
        let front = hex_bytes(text.subrange(0, text.len() - 2));
        let high = hex_value(text[text.len() - 2]);
        let low = hex_value(text[text.len() - 1]);
        if front is Some && high is Some && low is Some {
            Some(front->0.push((high->0 * 16 + low->0) as u8))
        } else {
            None
        }
    }
}

/// Calls `hex::encode`, which gives each byte two lower-case hexadecimal
/// digits, the high half first.
#[verifier::external_body]
pub(crate) fn hex_encode(bytes: &[u8]) -> (text: String)
    ensures
        text@ == hex_text(bytes@),
{
    hex::encode(bytes)
}

/// Calls `hex::decode`, which takes digits of either case, two per byte, and
/// fails on a text of odd length or with any other character.
#[verifier::external_body]
pub(crate) fn hex_decode(text: &str) -> (bytes: Option<Vec<u8>>)
    ensures
        match bytes {
            Some(b) => hex_bytes(text@) == Some(b@),
            None => hex_bytes(text@) is None,
        },
{
    hex::decode(text).ok()
}

/// The base58 text of a byte string, in the Bitcoin alphabet.
pub uninterp spec fn base58_text(bytes: Seq<u8>) -> Seq<char>;

/// The bytes that a base58 text in the Bitcoin alphabet stands for, none where
/// it is no such text.
pub uninterp spec fn base58_bytes(text: Seq<char>) -> Option<Seq<u8>>;

/// Calls `bs58::encode(..).into_string()` with the default alphabet. The text
/// is a function of the bytes alone.
#[verifier::external_body]
pub(crate) fn base58_encode(bytes: &[u8]) -> (text: String)
    ensures
        text@ == base58_text(bytes@),
{
    bs58::encode(bytes).into_string()
}

/// Calls `bs58::decode(..).into_vec()` with the default alphabet; its error
/// comes back as no bytes. The outcome is a function of the text alone.
#[verifier::external_body]
pub(crate) fn base58_decode(text: &str) -> (bytes: Option<Vec<u8>>)
    ensures
        match bytes {
            Some(b) => base58_bytes(text@) == Some(b@),
            None => base58_bytes(text@) is None,
        },
{
    bs58::decode(text).into_vec().ok()
}

/// Calls `String::push`, which puts one character at the end.
#[verifier::external_body]
pub(crate) fn push_char(text: &mut String, c: char)
    ensures
        final(text)@ == old(text)@.push(c),
{
    text.push(c)
}

/// The decimal digit of a value below 10.
pub open spec fn decimal_digit(value: u64) -> char {
    (48 + value) as char
}

/// The decimal text of a number, without leading zeros.
pub open spec fn decimal_text(value: u64) -> Seq<char>
    decreases value,
{
    if value < 10 {
        seq![decimal_digit(value)]
    } else {
        decimal_text(value / 10).push(decimal_digit(value % 10))
    }
}

/// The character of a decimal digit.
fn digit_char(value: u64) -> (c: char)
    requires
        value < 10,
    ensures
        c == decimal_digit(value),
{
    match value {
        0 => '0',
        1 => '1',
        2 => '2',
        3 => '3',
        4 => '4',
        5 => '5',
        6 => '6',
        7 => '7',
        8 => '8',
        _ => '9',
    }
}

/// The decimal text of a number.
pub fn decimal_string(value: u64) -> (text: String)
    ensures
        text@ == decimal_text(value),
{
    let mut digits: Vec<char> = Vec::new();
    let mut rest: u64 = value;
    while rest >= 10
        invariant
            decimal_text(value) == decimal_text(rest) + digits@.reverse(),
        decreases rest,
    {
        let ghost before = digits@;
        digits.push(digit_char(rest % 10));
        assert(digits@.reverse() =~= seq![decimal_digit(rest % 10)] + before.reverse());
        assert(decimal_text(rest) + before.reverse() =~= decimal_text(rest / 10)
            + digits@.reverse());
        rest = rest / 10;
    }
    digits.push(digit_char(rest));
    let mut text = String::new();
    let mut i: usize = digits.len();
    assert(digits@.reverse().take(0) =~= Seq::empty());
    while i > 0
        invariant
            i <= digits@.len(),
            text@ == digits@.reverse().take(digits@.len() - i),
        decreases i,
    {
        i -= 1;
        push_char(&mut text, digits[i]);
        assert(text@ =~= digits@.reverse().take(digits@.len() - i));
    }
    assert(digits@.reverse().take(digits@.len() as int) =~= digits@.reverse());
    text
}

} // verus!
