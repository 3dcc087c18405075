//! What rendered numbers, identities and messages hold.

use vstd::prelude::*;

use crate::application::error::ApplicationError;
use crate::text::{append_decimal, append_identity, decimal, digit_character, hexadecimal};

verus! {

/// The number that a decimal or lower-case hexadecimal digit stands for.
pub open spec fn digit_value(digit: char) -> nat {
    if '0' <= digit <= '9' {
        (digit as int - '0' as int) as nat
    } else {
        (digit as int - 'a' as int + 10) as nat
    }
}

/// The number that digits spell in a base.
pub open spec fn spelled(digits: Seq<char>, base: nat) -> nat
    decreases digits.len(),
{
    if digits.len() == 0 {
        0
    } else {
        base * spelled(digits.drop_last(), base) + digit_value(digits.last())
    }
}

/// Tells whether every character is a decimal digit.
pub open spec fn all_decimal(digits: Seq<char>) -> bool {
    forall|place: int| 0 <= place < digits.len() ==> '0' <= #[trigger] digits[place] <= '9'
}

/// Tells whether every character is a lower-case hexadecimal digit.
pub open spec fn all_hexadecimal(digits: Seq<char>) -> bool {
    forall|place: int|
        0 <= place < digits.len() ==> '0' <= #[trigger] digits[place] <= '9' || 'a' <= digits[place] <= 'f'
}

/// The digits of a number spell it.
proof fn lemma_decimal(value: nat)
    ensures
        decimal(value).len() > 0,
        all_decimal(decimal(value)),
        spelled(decimal(value), 10) == value,
        value > 0 ==> decimal(value)[0] != '0',
    decreases value,
{
    reveal_with_fuel(spelled, 2);
    if value >= 10 {
        lemma_decimal(value / 10);
        assert(decimal(value).drop_last() =~= decimal(value / 10));
        assert(decimal(value).last() == digit_character(value % 10));
        assert(decimal(value)[0] == decimal(value / 10)[0]);
    } else {
        assert(decimal(value).drop_last() =~= Seq::empty());
    }
}

/// The hexadecimal digits of a number that fits in them spell it.
proof fn lemma_hexadecimal(value: nat, width: nat, limit: nat)
    requires
        value < limit,
        limit <= sixteen_to(width),
    ensures
        hexadecimal(value, width).len() == width,
        all_hexadecimal(hexadecimal(value, width)),
        spelled(hexadecimal(value, width), 16) == value,
    decreases width,
{
    reveal_with_fuel(spelled, 2);
    if width > 0 {
        let before = (width - 1) as nat;
        assert(value / 16 < sixteen_to(before));
        lemma_hexadecimal(value / 16, before, sixteen_to(before));
        assert(hexadecimal(value, width).drop_last() =~= hexadecimal(value / 16, before));
        assert(hexadecimal(value, width).last() == digit_character(value % 16));
    }
}

/// How many numbers a width of hexadecimal digits can spell.
spec fn sixteen_to(width: nat) -> nat
    decreases width,
{
    if width == 0 {
        1
    } else {
        16 * sixteen_to((width - 1) as nat)
    }
}

/// A number is appended as its decimal digits, without leading zeros: they spell
/// it.
pub proof fn law_number_appended(text: &mut String, value: u64)
    requires
        call_ensures(append_decimal, (text, value), ()),
    ensures
        exists|digits: Seq<char>|
            #![trigger spelled(digits, 10)]
            final(text)@ == old(text)@ + digits && all_decimal(digits) && spelled(digits, 10) == value && digits.len()
                > 0 && (value > 0 ==> digits[0] != '0'),
{
    lemma_decimal(value as nat);
    assert(spelled(decimal(value as nat), 10) == value);
}

/// An identity is appended as thirty-two lower-case hexadecimal digits that spell
/// it.
pub proof fn law_identity_appended(text: &mut String, value: u128)
    requires
        call_ensures(append_identity, (text, value), ()),
    ensures
        exists|digits: Seq<char>|
            #![trigger spelled(digits, 16)]
            final(text)@ == old(text)@ + digits && all_hexadecimal(digits) && spelled(digits, 16) == value
                && digits.len() == 32,
{
    assert(sixteen_to(32) > u128::MAX) by {
        reveal_with_fuel(sixteen_to, 33);
    }
    lemma_hexadecimal(value as nat, 32, sixteen_to(32));
    assert(spelled(hexadecimal(value as nat, 32), 16) == value);
}

/// Tells whether a message holds a text.
pub open spec fn mentions(message: Seq<char>, text: Seq<char>) -> bool {
    exists|start: int|
        0 <= start && start + text.len() <= message.len() && #[trigger] message.subrange(start, start + text.len())
            == text
}

/// The message of an error that names an entry, a table, a code or a reason
/// mentions it, and two such messages of one sort are the same only where they
/// name the same.
pub proof fn law_messages_name_their_subject(
    error: ApplicationError,
    message: String,
    other: ApplicationError,
    other_message: String,
)
    requires
        call_ensures(ApplicationError::message, (&error,), message),
        call_ensures(ApplicationError::message, (&other,), other_message),
    ensures
        subject(error) matches Some(name) ==> mentions(message@, name),
        message@ == other_message@ && subject(error) is Some && same_sort(error, other) ==> subject(error) == subject(
            other,
        ),
{
    let before = before_subject(error);
    let after = after_subject(error);
    if let Some(name) = subject(error) {
        assert(message@ =~= before + name + after);
        assert(message@.subrange(before.len() as int, before.len() as int + name.len()) =~= name);
        if message@ == other_message@ && same_sort(error, other) {
            let second = subject(other)->Some_0;
            assert(other_message@ =~= before + second + after);
            assert(name.len() == second.len());
            assert(second =~= other_message@.subrange(before.len() as int, before.len() as int + name.len()));
        }
    }
}

/// What an error names.
pub open spec fn subject(error: ApplicationError) -> Option<Seq<char>> {
    match error {
        ApplicationError::MissingEntry(name) => Some(name@),
        ApplicationError::Evaluation(code) => Some(code@),
        ApplicationError::Runtime(reason) => Some(reason@),
        ApplicationError::UnadmittedTable(name) => Some(name@),
        ApplicationError::EffectRejected(code) => Some(code@),
        _ => None,
    }
}

/// Tells whether two errors are of one sort.
pub open spec fn same_sort(error: ApplicationError, other: ApplicationError) -> bool {
    ||| error is MissingEntry && other is MissingEntry
    ||| error is Evaluation && other is Evaluation
    ||| error is Runtime && other is Runtime
    ||| error is UnadmittedTable && other is UnadmittedTable
    ||| error is EffectRejected && other is EffectRejected
}

/// The words in front of what an error names.
spec fn before_subject(error: ApplicationError) -> Seq<char> {
    match error {
        ApplicationError::MissingEntry(_) => "application entry `"@,
        ApplicationError::Evaluation(_) => "application evaluation failed: "@,
        ApplicationError::Runtime(_) => "runtime activation staging failed: "@,
        ApplicationError::UnadmittedTable(_) => "table `"@,
        ApplicationError::EffectRejected(_) => "admitted effect was rejected: "@,
        _ => Seq::empty(),
    }
}

/// The words behind what an error names.
spec fn after_subject(error: ApplicationError) -> Seq<char> {
    match error {
        ApplicationError::MissingEntry(_) => "` was not admitted"@,
        ApplicationError::UnadmittedTable(_) => "` has no admitted write schema"@,
        _ => Seq::empty(),
    }
}

} // verus!
