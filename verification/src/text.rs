//! Text: UTF-8 decoding and the rendering of numbers and identities.

use vstd::prelude::*;
use vstd::string::StringSliceAdditionalSpecFns;
use vstd::utf8;

use crate::artifact_codec::same_bytes;

verus! {

/// The text that `bytes` spell, where they are valid UTF-8.
pub open spec fn decoded_text(bytes: Seq<u8>) -> Option<Seq<char>> {
    if utf8::valid_utf8(bytes) {
        Some(utf8::decode_utf8(bytes))
    } else {
        None
    }
}

/// Text is decoded from its own encoding, and what was decoded encodes to the
/// bytes that it was decoded from.
pub proof fn law_text_round_trip(text: Seq<char>, bytes: Seq<u8>)
    ensures
        decoded_text(utf8::encode_utf8(text)) == Some(text),
        decoded_text(bytes) matches Some(decoded) ==> utf8::encode_utf8(decoded) == bytes,
{
    utf8::encode_utf8_valid_utf8(text);
    utf8::encode_utf8_decode_utf8(text);
    if utf8::valid_utf8(bytes) {
        utf8::decode_utf8_encode_utf8(bytes);
    }
}

/// Checks that `bytes` are UTF-8 with `std::str::from_utf8`.
///
/// The claim is that the call succeeds exactly on valid UTF-8 and then gives
/// the text whose UTF-8 encoding `bytes` is.
#[verifier::external_body]
fn checked_utf8(bytes: &[u8]) -> (text: Option<&str>)
    ensures
        text is Some <==> utf8::valid_utf8(bytes@),
        text matches Some(decoded) ==> decoded.spec_bytes() == bytes@,
{
    std::str::from_utf8(bytes).ok()
}

/// Decodes UTF-8 bytes into owned text.
pub fn decode_text(bytes: &[u8]) -> (text: Option<String>)
    ensures
        match text {
            Some(decoded) => decoded_text(bytes@) == Some(decoded@),
            None => decoded_text(bytes@) is None,
        },
{
    match checked_utf8(bytes) {
        Some(text) => {
            proof {
                utf8::encode_utf8_decode_utf8(text@);
            }
            Some(text.to_owned())
        },
        None => None,
    }
}

/// The character of a decimal or lower-case hexadecimal digit.
pub open spec fn digit_character(digit: nat) -> char {
    if digit < 10 {
        (48 + digit) as char
    } else {
        (87 + digit) as char
    }
}

/// The decimal digits of a number, without leading zeros.
pub open spec fn decimal(value: nat) -> Seq<char>
    decreases value,
{
    if value < 10 {
        seq![digit_character(value)]
    } else {
        decimal(value / 10).push(digit_character(value % 10))
    }
}

/// The `width` low-order lower-case hexadecimal digits of a number.
pub open spec fn hexadecimal(value: nat, width: nat) -> Seq<char>
    decreases width,
{
    if width == 0 {
        Seq::empty()
    } else {
        hexadecimal(value / 16, (width - 1) as nat).push(digit_character(value % 16))
    }
}

/// The text of an identity: its sixteen bytes as thirty-two lower-case
/// hexadecimal digits. The messages of this library render identities in this
/// form, which is its own.
pub open spec fn identity_text(value: u128) -> Seq<char> {
    hexadecimal(value as nat, 32)
}

/// The one-character text of a decimal or hexadecimal digit.
fn digit_text(digit: u8) -> (text: &'static str)
    requires
        digit < 16,
    ensures
        text@ == seq![digit_character(digit as nat)],
{
    proof {
        reveal_strlit("0");
        reveal_strlit("1");
        reveal_strlit("2");
        reveal_strlit("3");
        reveal_strlit("4");
        reveal_strlit("5");
        reveal_strlit("6");
        reveal_strlit("7");
        reveal_strlit("8");
        reveal_strlit("9");
        reveal_strlit("a");
        reveal_strlit("b");
        reveal_strlit("c");
        reveal_strlit("d");
        reveal_strlit("e");
        reveal_strlit("f");
    }
    let text = match digit {
        0 => "0",
        1 => "1",
        2 => "2",
        3 => "3",
        4 => "4",
        5 => "5",
        6 => "6",
        7 => "7",
        8 => "8",
        9 => "9",
        10 => "a",
        11 => "b",
        12 => "c",
        13 => "d",
        14 => "e",
        _ => "f",
    };
    assert(text@ =~= seq![digit_character(digit as nat)]);
    text
}

/// Appends the decimal digits of a number.
pub fn append_decimal(text: &mut String, value: u64)
    ensures
        final(text)@ == old(text)@ + decimal(value as nat),
    decreases value,
{
    if value >= 10 {
        append_decimal(text, value / 10);
    }
    text.append(digit_text((value % 10) as u8));
    assert(text@ =~= old(text)@ + decimal(value as nat));
}

/// Appends `width` hexadecimal digits of a number.
fn append_hexadecimal(text: &mut String, value: u128, width: u8)
    ensures
        final(text)@ == old(text)@ + hexadecimal(value as nat, width as nat),
    decreases width,
{
    if width > 0 {
        append_hexadecimal(text, value / 16, width - 1);
        text.append(digit_text((value % 16) as u8));
    }
    assert(text@ =~= old(text)@ + hexadecimal(value as nat, width as nat));
}

/// Appends the text of an identity.
pub fn append_identity(text: &mut String, value: u128)
    ensures
        final(text)@ == old(text)@ + identity_text(value),
{
    append_hexadecimal(text, value, 32);
}

/// Tells whether two texts are the same.
pub fn same_text(left: &str, right: &str) -> (same: bool)
    ensures
        same == (left@ == right@),
{
    proof {
        law_text_round_trip(left@, left.spec_bytes());
        law_text_round_trip(right@, right.spec_bytes());
    }
    same_bytes(left.as_bytes(), right.as_bytes())
}

/// The texts of a list.
pub open spec fn texts(list: Seq<String>) -> Seq<Seq<char>> {
    Seq::new(list.len(), |index: int| list[index]@)
}

/// Tells whether a list holds a text.
pub fn holds_text(list: &[String], text: &str) -> (held: bool)
    ensures
        held == texts(list@).contains(text@),
{
    let mut index: usize = 0;
    while index < list.len()
        invariant
            index <= list@.len(),
            forall|place: int| 0 <= place < index ==> #[trigger] texts(list@)[place] != text@,
        decreases list@.len() - index,
    {
        if same_text(list[index].as_str(), text) {
            assert(texts(list@)[index as int] == text@);
            return true;
        }
        index += 1;
    }
    false
}

/// A message that ends in a number.
pub fn with_number(before: &str, number: u64) -> (message: String)
    ensures
        message@ == before@ + decimal(number as nat),
{
    let mut message = before.to_owned();
    append_decimal(&mut message, number);
    message
}

/// A message that holds a number.
pub fn with_number_then(before: &str, number: u64, after: &str) -> (message: String)
    ensures
        message@ == before@ + decimal(number as nat) + after@,
{
    let mut message = with_number(before, number);
    message.append(after);
    message
}

/// A message that holds two numbers.
pub fn with_numbers(before: &str, first: u64, between: &str, second: u64) -> (message: String)
    ensures
        message@ == before@ + decimal(first as nat) + between@ + decimal(second as nat),
{
    let mut message = with_number_then(before, first, between);
    append_decimal(&mut message, second);
    message
}

/// A message that ends in an identity.
pub fn with_identity(before: &str, identity: u128) -> (message: String)
    ensures
        message@ == before@ + identity_text(identity),
{
    let mut message = before.to_owned();
    append_identity(&mut message, identity);
    message
}

/// A message that holds an identity.
pub fn with_identity_then(before: &str, identity: u128, after: &str) -> (message: String)
    ensures
        message@ == before@ + identity_text(identity) + after@,
{
    let mut message = with_identity(before, identity);
    message.append(after);
    message
}

/// A message that holds two identities.
pub fn with_identities(before: &str, first: u128, between: &str, second: u128) -> (message: String)
    ensures
        message@ == before@ + identity_text(first) + between@ + identity_text(second),
{
    let mut message = with_identity_then(before, first, between);
    append_identity(&mut message, second);
    message
}

/// A message that ends in other text.
pub fn with_text(before: &str, text: &str) -> (message: String)
    ensures
        message@ == before@ + text@,
{
    let mut message = before.to_owned();
    message.append(text);
    message
}

/// A message that holds other text.
pub fn with_text_then(before: &str, text: &str, after: &str) -> (message: String)
    ensures
        message@ == before@ + text@ + after@,
{
    let mut message = with_text(before, text);
    message.append(after);
    message
}

} // verus!
