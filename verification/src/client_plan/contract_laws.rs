//! What external contract identities are.
//!
//! An identity is put together from a dotted name and a revision, and a name from
//! its segments. The laws say when what is put together is an identity.

use vstd::prelude::*;

use crate::client_plan::contract::{
    decimal_value, is_revision_mark, is_segment, quotes_doubled, revision_digits, unicode_alphabetic, unicode_numeric,
    valid_contract_identity, valid_name, valid_revision, valid_segment,
};

verus! {

/// A name and a revision around a mark are an identity exactly where the name is
/// a nonempty valid name and the revision a valid revision.
pub proof fn law_identity_composed(name: Seq<char>, revision: Seq<char>)
    requires
        !name.contains('@'),
    ensures
        valid_contract_identity(name + seq!['@'] + revision) <==> name.len() > 0 && valid_name(name)
            && valid_revision(revision),
{
    let identity = name + seq!['@'] + revision;
    let at = name.len() as int;
    assert forall|index: int| 0 <= index < at implies identity[index] != '@' by {
        assert(identity[index] == name[index]);
        assert(name.contains(name[index]));
    }
    assert(is_revision_mark(identity, at));
    assert(identity.take(at) =~= name);
    assert(identity.skip(at + 1) =~= revision);
    assert forall|other: int| #[trigger] is_revision_mark(identity, other) implies other == at by {}
}

/// An identity has exactly one mark, with something on both sides of it.
pub proof fn law_identity_has_one_mark(identity: Seq<char>)
    requires
        valid_contract_identity(identity),
    ensures
        exists|at: int|
            0 < at < identity.len() - 1 && #[trigger] identity[at] == '@' && forall|other: int|
                0 <= other < identity.len() && other != at ==> #[trigger] identity[other] != '@',
{
    let at = choose|at: int|
        {
            &&& #[trigger] is_revision_mark(identity, at)
            &&& at > 0
            &&& valid_name(identity.take(at))
            &&& valid_revision(identity.skip(at + 1))
        };
    let revision = identity.skip(at + 1);
    let digits = revision_digits(revision);
    assert forall|other: int| 0 <= other < identity.len() && other != at implies #[trigger] identity[other] != '@' by {
        if other > at {
            assert(identity[other] == revision[other - at - 1]);
            if revision[0] == '+' {
                if other - at - 1 > 0 {
                    assert(digits[other - at - 2] == identity[other]);
                }
            } else {
                assert(digits[other - at - 1] == identity[other]);
            }
        }
    }
    assert(identity[at] == '@');
}

/// Two names joined by a dot are a valid name exactly where both are.
pub proof fn law_names_joined(first: Seq<char>, second: Seq<char>)
    ensures
        valid_name(first + seq!['.'] + second) <==> valid_name(first) && valid_name(second),
{
    let name = first + seq!['.'] + second;
    let dot = first.len() as int;
    assert(name[dot] == '.');
    if valid_name(name) {
        assert forall|start: int, end: int| #[trigger] is_segment(first, start, end) implies valid_segment(
            first.subrange(start, end),
        ) by {
            assert forall|index: int| start <= index < end implies name[index] != '.' by {
                assert(name[index] == first[index]);
            }
            if start > 0 {
                assert(name[start - 1] == first[start - 1]);
            }
            if end < dot {
                assert(name[end] == first[end]);
            }
            assert(is_segment(name, start, end));
            assert(name.subrange(start, end) =~= first.subrange(start, end));
        }
        assert forall|start: int, end: int| #[trigger] is_segment(second, start, end) implies valid_segment(
            second.subrange(start, end),
        ) by {
            let from = start + dot + 1;
            let to = end + dot + 1;
            assert forall|index: int| from <= index < to implies name[index] != '.' by {
                assert(name[index] == second[index - dot - 1]);
            }
            if start > 0 {
                assert(name[from - 1] == second[start - 1]);
            }
            if end < second.len() {
                assert(name[to] == second[end]);
            }
            assert(is_segment(name, from, to));
            assert(name.subrange(from, to) =~= second.subrange(start, end));
        }
    }
    if valid_name(first) && valid_name(second) {
        assert forall|start: int, end: int| #[trigger] is_segment(name, start, end) implies valid_segment(
            name.subrange(start, end),
        ) by {
            if end <= dot {
                assert forall|index: int| start <= index < end implies first[index] != '.' by {
                    assert(name[index] == first[index]);
                }
                if start > 0 {
                    assert(name[start - 1] == first[start - 1]);
                }
                if end < dot {
                    assert(name[end] == first[end]);
                }
                assert(is_segment(first, start, end));
                assert(name.subrange(start, end) =~= first.subrange(start, end));
            } else {
                if start <= dot {
                    assert(name[dot] != '.');
                }
                let from = start - dot - 1;
                let to = end - dot - 1;
                assert forall|index: int| from <= index < to implies second[index] != '.' by {
                    assert(name[index + dot + 1] == second[index]);
                }
                if from > 0 {
                    assert(name[start - 1] == second[from - 1]);
                }
                if to < second.len() {
                    assert(name[end] == second[to]);
                }
                assert(is_segment(second, from, to));
                assert(name.subrange(start, end) =~= second.subrange(from, to));
            }
        }
    }
}

/// A name without a dot is its own only segment.
proof fn lemma_only_segment(name: Seq<char>)
    requires
        !name.contains('.'),
    ensures
        valid_name(name) <==> valid_segment(name),
{
    assert forall|index: int| 0 <= index < name.len() implies name[index] != '.' by {
        assert(name.contains(name[index]));
    }
    assert(name.subrange(0, name.len() as int) =~= name);
    assert(is_segment(name, 0, name.len() as int));
    assert forall|start: int, end: int| #[trigger] is_segment(name, start, end) implies start == 0 && end
        == name.len() by {
        if start > 0 {
            assert(name[start - 1] != '.');
        }
        if end < name.len() {
            assert(name[end] != '.');
        }
    }
}

/// A name without dots and without a leading quote is valid exactly where it is
/// not empty, starts with an underscore or an alphabetic character, and goes on
/// with those and numeric characters.
pub proof fn law_plain_names(name: Seq<char>)
    requires
        !name.contains('.'),
        name.len() > 0 ==> name[0] != '"',
    ensures
        valid_name(name) <==> {
            &&& name.len() > 0
            &&& name[0] == '_' || unicode_alphabetic(name[0])
            &&& forall|index: int|
                0 < index < name.len() ==> #[trigger] name[index] == '_' || unicode_alphabetic(name[index])
                    || unicode_numeric(name[index])
        },
{
    lemma_only_segment(name);
}

/// A text with every quote written twice.
pub open spec fn escaped(text: Seq<char>) -> Seq<char>
    decreases text.len(),
{
    if text.len() == 0 {
        Seq::empty()
    } else if text[0] == '"' {
        seq!['"', '"'] + escaped(text.skip(1))
    } else {
        seq![text[0]] + escaped(text.skip(1))
    }
}

/// An escaped text has its quotes written twice.
proof fn lemma_escaped_doubled(text: Seq<char>)
    ensures
        quotes_doubled(escaped(text)),
    decreases text.len(),
{
    if text.len() > 0 {
        let rest = escaped(text.skip(1));
        lemma_escaped_doubled(text.skip(1));
        if text[0] == '"' {
            assert((seq!['"', '"'] + rest).skip(2) =~= rest);
        } else {
            assert((seq![text[0]] + rest).skip(1) =~= rest);
        }
    }
}

/// What has its quotes written twice is an escaped text.
proof fn lemma_doubled_escaped(inner: Seq<char>) -> (text: Seq<char>)
    requires
        quotes_doubled(inner),
    ensures
        escaped(text) == inner,
    decreases inner.len(),
{
    if inner.len() == 0 {
        assert(escaped(Seq::empty()) =~= inner);
        Seq::empty()
    } else if inner[0] != '"' {
        let rest = lemma_doubled_escaped(inner.skip(1));
        let text = seq![inner[0]] + rest;
        assert(text.skip(1) =~= rest);
        assert(escaped(text) =~= inner);
        text
    } else {
        let rest = lemma_doubled_escaped(inner.skip(2));
        let text = seq!['"'] + rest;
        assert(text.skip(1) =~= rest);
        assert(escaped(text) =~= inner);
        text
    }
}

/// A quoted name without dots is valid exactly where a nonempty text stands
/// between its quotes, escaped.
pub proof fn law_quoted_names(inner: Seq<char>)
    requires
        !inner.contains('.'),
    ensures
        valid_name(seq!['"'] + inner + seq!['"']) <==> inner.len() > 0 && exists|text: Seq<char>|
            #[trigger] escaped(text) == inner,
{
    let name = seq!['"'] + inner + seq!['"'];
    assert forall|index: int| 0 <= index < name.len() implies name[index] != '.' by {
        if 0 < index < name.len() - 1 {
            assert(name[index] == inner[index - 1]);
            assert(inner.contains(inner[index - 1]));
        }
    }
    lemma_only_segment(name);
    assert(name.subrange(1, name.len() - 1) =~= inner);
    assert(name.last() == '"');
    if quotes_doubled(inner) {
        let text = lemma_doubled_escaped(inner);
        assert(escaped(text) == inner);
    }
    if exists|text: Seq<char>| #[trigger] escaped(text) == inner {
        let text = choose|text: Seq<char>| #[trigger] escaped(text) == inner;
        lemma_escaped_doubled(text);
    }
}

/// The decimal digits of a number.
pub open spec fn decimal_text(number: nat) -> Seq<char>
    decreases number,
{
    let digit = ('0' as nat + number % 10) as char;
    if number < 10 {
        seq![digit]
    } else {
        decimal_text(number / 10).push(digit)
    }
}

/// The digits of a number are decimal digits and spell it.
proof fn lemma_decimal_text(number: nat)
    ensures
        decimal_text(number).len() > 0,
        forall|index: int| 0 <= index < decimal_text(number).len() ==> '0' <= #[trigger] decimal_text(number)[index]
            <= '9',
        decimal_value(decimal_text(number)) == number,
    decreases number,
{
    let text = decimal_text(number);
    let digit = ('0' as nat + number % 10) as char;
    assert('0' <= digit <= '9');
    assert(digit as nat - '0' as nat == number % 10);
    if number < 10 {
        assert(text.drop_last() =~= Seq::empty());
        assert(decimal_value(Seq::<char>::empty()) == 0);
    } else {
        lemma_decimal_text(number / 10);
        assert(text.drop_last() =~= decimal_text(number / 10));
    }
}

/// The digits of a number are a revision exactly where the number is from one to
/// the largest 64-bit integer.
pub proof fn law_revision_numbers(number: nat)
    ensures
        valid_revision(decimal_text(number)) <==> 1 <= number <= 0xffff_ffff_ffff_ffff,
{
    lemma_decimal_text(number);
    assert(decimal_text(number)[0] != '+');
}

/// A revision may have a plus sign in front of it, and only one.
pub proof fn law_revision_sign(revision: Seq<char>)
    ensures
        valid_revision(seq!['+'] + revision) <==> valid_revision(revision) && revision[0] != '+',
{
    let signed = seq!['+'] + revision;
    assert(signed.skip(1) =~= revision);
    if revision.len() > 0 && revision[0] == '+' {
        assert(revision_digits(signed)[0] == '+');
    }
    if valid_revision(revision) {
        assert(revision.len() > 0);
    }
}

/// Nothing but decimal digits stands in a revision behind its sign.
pub proof fn law_revision_digits(revision: Seq<char>, index: int)
    requires
        valid_revision(revision),
        0 <= index < revision.len(),
    ensures
        '0' <= revision[index] <= '9' || (index == 0 && revision[index] == '+' && revision.len() > 1),
{
    let digits = revision_digits(revision);
    if revision[0] == '+' {
        if index > 0 {
            assert(digits[index - 1] == revision[index]);
        }
    } else {
        assert(digits[index] == revision[index]);
    }
}

/// A zero in front of digits changes no number, and so no revision.
pub proof fn law_revision_leading_zero(digits: Seq<char>)
    requires
        digits.len() > 0,
        digits[0] != '+',
    ensures
        valid_revision(seq!['0'] + digits) <==> valid_revision(digits),
{
    let longer = seq!['0'] + digits;
    assert(revision_digits(longer) == longer);
    assert(revision_digits(digits) == digits);
    lemma_leading_zero(digits);
    if valid_revision(longer) {
        assert forall|index: int| 0 <= index < digits.len() implies '0' <= #[trigger] digits[index] <= '9' by {
            assert(longer[index + 1] == digits[index]);
        }
    }
    if valid_revision(digits) {
        assert forall|index: int| 0 <= index < longer.len() implies '0' <= #[trigger] longer[index] <= '9' by {
            if index > 0 {
                assert(longer[index] == digits[index - 1]);
            }
        }
    }
}

/// A zero in front of digits adds nothing to their number.
proof fn lemma_leading_zero(digits: Seq<char>)
    ensures
        decimal_value(seq!['0'] + digits) == decimal_value(digits),
    decreases digits.len(),
{
    let longer = seq!['0'] + digits;
    if digits.len() == 0 {
        assert(longer.drop_last() =~= Seq::empty());
        assert(decimal_value(Seq::<char>::empty()) == 0);
    } else {
        lemma_leading_zero(digits.drop_last());
        assert(longer.drop_last() =~= seq!['0'] + digits.drop_last());
    }
}

} // verus!
