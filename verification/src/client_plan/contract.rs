//! Identities of external runtime contracts.
//!
//! An identity is a dotted name, an `@` and a decimal revision, such as
//! `std.ui.window@1`. A name segment is either a plain identifier or a quoted
//! one in which a quote is written twice.

use vstd::prelude::*;

use crate::client_plan::error::ClientPlanError;
use crate::client_plan::NODE_EXTERNAL_CONTRACT;

verus! {

/// What `char::is_alphabetic` answers.
pub uninterp spec fn unicode_alphabetic(character: char) -> bool;

/// What `char::is_numeric` answers.
pub uninterp spec fn unicode_numeric(character: char) -> bool;

/// Asks `char::is_alphabetic` whether a character has the Unicode `Alphabetic`
/// property.
///
/// The claim is only that the answer depends on nothing but the character.
#[verifier::external_body]
fn is_alphabetic(character: char) -> (answer: bool)
    ensures
        answer == unicode_alphabetic(character),
{
    character.is_alphabetic()
}

/// Asks `char::is_numeric` whether a character is in one of the Unicode number
/// categories.
///
/// The claim is only that the answer depends on nothing but the character.
#[verifier::external_body]
fn is_numeric(character: char) -> (answer: bool)
    ensures
        answer == unicode_numeric(character),
{
    character.is_numeric()
}

/// Tells whether a character may stand in a plain name segment, given its
/// Unicode classification.
pub open spec fn plain_character(character: char, first: bool, alphabetic: bool, numeric: bool) -> bool {
    character == '_' || alphabetic || (!first && numeric)
}

/// Tells whether `name[start..end]` lies between two dots or ends of the name.
pub open spec fn is_segment(name: Seq<char>, start: int, end: int) -> bool {
    &&& 0 <= start <= end <= name.len()
    &&& start == 0 || name[start - 1] == '.'
    &&& end == name.len() || name[end] == '.'
    &&& forall|index: int| start <= index < end ==> name[index] != '.'
}

/// Tells whether every quote in a quoted segment is written twice.
pub open spec fn quotes_doubled(inner: Seq<char>) -> bool
    decreases inner.len(),
{
    if inner.len() == 0 {
        true
    } else if inner[0] != '"' {
        quotes_doubled(inner.skip(1))
    } else {
        inner.len() >= 2 && inner[1] == '"' && quotes_doubled(inner.skip(2))
    }
}

/// Tells whether a dotted segment is a plain or a quoted identifier.
pub open spec fn valid_segment(segment: Seq<char>) -> bool {
    if segment.len() > 0 && segment[0] == '"' {
        &&& segment.len() > 2
        &&& segment.last() == '"'
        &&& quotes_doubled(segment.subrange(1, segment.len() - 1))
    } else {
        &&& segment.len() > 0
        &&& forall|index: int|
            0 <= index < segment.len() ==> plain_character(
                #[trigger] segment[index],
                index == 0,
                unicode_alphabetic(segment[index]),
                unicode_numeric(segment[index]),
            )
    }
}

/// Tells whether every segment of a dotted name is valid.
pub open spec fn valid_name(name: Seq<char>) -> bool {
    forall|start: int, end: int| #[trigger] is_segment(name, start, end) ==> valid_segment(name.subrange(start, end))
}

/// The number that decimal digits spell.
pub open spec fn decimal_value(digits: Seq<char>) -> nat
    decreases digits.len(),
{
    if digits.len() == 0 {
        0
    } else {
        decimal_value(digits.drop_last()) * 10 + (digits.last() as nat - '0' as nat) as nat
    }
}

/// The digits of a revision, behind an optional plus sign.
pub open spec fn revision_digits(revision: Seq<char>) -> Seq<char> {
    if revision.len() > 0 && revision[0] == '+' {
        revision.skip(1)
    } else {
        revision
    }
}

/// Tells whether a revision is a decimal number from one to the largest 64-bit
/// integer.
pub open spec fn valid_revision(revision: Seq<char>) -> bool {
    let digits = revision_digits(revision);
    &&& digits.len() > 0
    &&& forall|index: int| 0 <= index < digits.len() ==> '0' <= #[trigger] digits[index] <= '9'
    &&& 0 < decimal_value(digits) <= u64::MAX
}

/// Tells whether `at` is the only mark between name and revision that has no
/// other before it.
pub open spec fn is_revision_mark(identity: Seq<char>, at: int) -> bool {
    &&& 0 <= at < identity.len()
    &&& identity[at] == '@'
    &&& forall|index: int| 0 <= index < at ==> identity[index] != '@'
}

/// Tells whether a text is an external contract identity.
pub open spec fn valid_contract_identity(identity: Seq<char>) -> bool {
    exists|at: int|
        {
            &&& #[trigger] is_revision_mark(identity, at)
            &&& at > 0
            &&& valid_name(identity.take(at))
            &&& valid_revision(identity.skip(at + 1))
        }
}

/// Decides whether a character may stand in a plain name segment.
pub fn plain_character_allowed(character: char, first: bool, alphabetic: bool, numeric: bool) -> (allowed: bool)
    ensures
        allowed == plain_character(character, first, alphabetic, numeric),
{
    character == '_' || alphabetic || (!first && numeric)
}

/// Returns the characters of a text.
fn characters(text: &str) -> (characters: Vec<char>)
    ensures
        characters@ == text@,
{
    let mut characters: Vec<char> = Vec::new();
    for character in remaining: text.chars()
        invariant
            remaining.seq() == text@,
            characters@ == text@.take(remaining.index() as int),
    {
        characters.push(character);
    }
    characters
}

/// Decides whether every quote between `start` and `end` is written twice.
fn check_quotes(characters: &Vec<char>, start: usize, end: usize) -> (doubled: bool)
    requires
        start <= end <= characters.len(),
    ensures
        doubled == quotes_doubled(characters@.subrange(start as int, end as int)),
{
    let mut index: usize = start;
    while index < end
        invariant
            start <= index <= end <= characters.len(),
            quotes_doubled(characters@.subrange(start as int, end as int)) == quotes_doubled(
                characters@.subrange(index as int, end as int),
            ),
        decreases end - index,
    {
        let ghost rest = characters@.subrange(index as int, end as int);
        if characters[index] != '"' {
            assert(rest.skip(1) =~= characters@.subrange(index + 1, end as int));
            index = index + 1;
        } else {
            if index + 1 >= end || characters[index + 1] != '"' {
                return false;
            }
            assert(rest.skip(2) =~= characters@.subrange(index + 2, end as int));
            index = index + 2;
        }
    }
    true
}

/// Decides whether the characters between `start` and `end` are a valid name
/// segment.
fn valid_external_contract_name_segment(characters: &Vec<char>, start: usize, end: usize) -> (valid: bool)
    requires
        start <= end <= characters.len(),
    ensures
        valid == valid_segment(characters@.subrange(start as int, end as int)),
{
    let ghost segment = characters@.subrange(start as int, end as int);
    if start == end {
        return false;
    }
    if characters[start] == '"' {
        if end - start <= 2 || characters[end - 1] != '"' {
            return false;
        }
        assert(segment.subrange(1, segment.len() - 1) =~= characters@.subrange(start + 1, end - 1));
        return check_quotes(characters, start + 1, end - 1);
    }
    let mut index: usize = start;
    while index < end
        invariant
            start <= index <= end <= characters.len(),
            start < end,
            segment == characters@.subrange(start as int, end as int),
            segment[0] != '"',
            forall|i: int|
                0 <= i < index - start ==> plain_character(
                    #[trigger] segment[i],
                    i == 0,
                    unicode_alphabetic(segment[i]),
                    unicode_numeric(segment[i]),
                ),
        decreases end - index,
    {
        let character = characters[index];
        assert(character == segment[index - start]);
        if !plain_character_allowed(character, index == start, is_alphabetic(character), is_numeric(character)) {
            return false;
        }
        index = index + 1;
    }
    true
}

/// Decides whether the characters before `end` are a valid dotted name.
fn check_name(characters: &Vec<char>, end: usize) -> (valid: bool)
    requires
        end <= characters.len(),
    ensures
        valid == valid_name(characters@.take(end as int)),
{
    let ghost name = characters@.take(end as int);
    let mut start: usize = 0;
    let mut index: usize = 0;
    while index < end
        invariant
            start <= index <= end <= characters.len(),
            name == characters@.take(end as int),
            start == 0 || name[start - 1] == '.',
            forall|i: int| start <= i < index ==> name[i] != '.',
            forall|first: int, last: int|
                #[trigger] is_segment(name, first, last) && first < start ==> valid_segment(name.subrange(first, last)),
        decreases end - index,
    {
        if characters[index] == '.' {
            assert(is_segment(name, start as int, index as int));
            assert(name.subrange(start as int, index as int) =~= characters@.subrange(start as int, index as int));
            if !valid_external_contract_name_segment(characters, start, index) {
                return false;
            }
            assert forall|first: int, last: int| #[trigger] is_segment(name, first, last) && first < index
                + 1 implies valid_segment(name.subrange(first, last)) by {
                if first >= start {
                    if first > start {
                        assert(name[first - 1] != '.');
                    }
                    if last > index {
                        assert(name[index as int] != '.');
                    }
                    if last < index {
                        assert(name[last] != '.');
                    }
                }
            }
            start = index + 1;
        }
        index = index + 1;
    }
    assert(is_segment(name, start as int, end as int));
    assert(name.subrange(start as int, end as int) =~= characters@.subrange(start as int, end as int));
    let valid = valid_external_contract_name_segment(characters, start, end);
    proof {
        if valid {
            assert forall|first: int, last: int| #[trigger] is_segment(name, first, last) implies valid_segment(
                name.subrange(first, last),
            ) by {
                if first >= start {
                    if first > start {
                        assert(name[first - 1] != '.');
                    }
                    if last < end {
                        assert(name[last] != '.');
                    }
                }
            }
        }
    }
    valid
}

/// A number grows with its digits.
proof fn lemma_decimal_value_grows(digits: Seq<char>, count: int)
    requires
        0 <= count <= digits.len(),
    ensures
        decimal_value(digits.take(count)) <= decimal_value(digits),
    decreases digits.len() - count,
{
    if count == digits.len() {
        assert(digits.take(count) =~= digits);
    } else {
        lemma_decimal_value_grows(digits, count + 1);
        assert(digits.take(count + 1).drop_last() =~= digits.take(count));
    }
}

/// Decides whether the characters from `start` on are a valid revision.
fn check_revision(characters: &Vec<char>, start: usize) -> (valid: bool)
    requires
        start <= characters.len(),
    ensures
        valid == valid_revision(characters@.skip(start as int)),
{
    let ghost digits = revision_digits(characters@.skip(start as int));
    let mut index: usize = start;
    if index < characters.len() && characters[index] == '+' {
        index = index + 1;
    }
    let first: usize = index;
    assert(digits =~= characters@.skip(first as int));
    let mut value: u64 = 0;
    assert(digits.take(0) =~= Seq::<char>::empty());
    while index < characters.len()
        invariant
            first <= index <= characters.len(),
            digits == characters@.skip(first as int),
            digits == revision_digits(characters@.skip(start as int)),
            value as nat == decimal_value(digits.take(index - first)),
            forall|i: int| 0 <= i < index - first ==> '0' <= #[trigger] digits[i] <= '9',
        decreases characters.len() - index,
    {
        let character = characters[index];
        let ghost count = index - first;
        assert(character == digits[count]);
        if character < '0' || character > '9' {
            return false;
        }
        let digit: u64 = (character as u32 - '0' as u32) as u64;
        proof {
            assert(digits.take(count + 1).drop_last() =~= digits.take(count));
            assert(decimal_value(digits.take(count + 1)) == value * 10 + digit);
            lemma_decimal_value_grows(digits, count + 1);
        }
        value = match value.checked_mul(10) {
            None => return false,
            Some(scaled) => match scaled.checked_add(digit) {
                None => return false,
                Some(sum) => sum,
            },
        };
        index = index + 1;
    }
    assert(digits.take(index - first) =~= digits);
    index > first && value > 0
}

/// Refuses a text that is not an external contract identity.
pub fn validate_external_contract_identity(identity: &str) -> (result: Result<(), ClientPlanError>)
    ensures
        result == if valid_contract_identity(identity@) {
            Ok::<(), ClientPlanError>(())
        } else {
            Err(ClientPlanError::InvalidExpressionNode(NODE_EXTERNAL_CONTRACT))
        },
{
    let characters = characters(identity);
    let mut at: usize = 0;
    while at < characters.len() && characters[at] != '@'
        invariant
            at <= characters.len(),
            characters@ == identity@,
            forall|index: int| 0 <= index < at ==> characters@[index] != '@',
        decreases characters.len() - at,
    {
        at = at + 1;
    }
    let valid = at > 0 && at < characters.len() && check_name(&characters, at) && check_revision(&characters, at + 1);
    proof {
        assert forall|other: int| #[trigger] is_revision_mark(identity@, other) implies other == at && at
            < identity@.len() by {
            if other < at {
                assert(characters@[other] != '@');
            }
        }
        if valid {
            assert(is_revision_mark(identity@, at as int));
        }
    }
    if valid {
        Ok(())
    } else {
        Err(ClientPlanError::InvalidExpressionNode(NODE_EXTERNAL_CONTRACT))
    }
}

} // verus!
