//! Laws of numbers in text, and of the groups of a match that hold them.

use crate::laws::text::law_written_count_is_read_back;
use crate::pattern::{
    captured, compiled, first_match, group_count_of, group_of, group_text_of, optional_groups,
    GroupTexts, Groups,
};
use crate::text::{all_digits, count_of, decimal, digits_value, is_digit};
use regex::Regex;
use vstd::prelude::*;

verus! {

/// A number below ten is written with its digit, and a greater one with its last
/// digit behind the others.
pub proof fn law_decimal_grows_by_its_last_digit(n: nat, d: nat)
    requires
        d < 10,
    ensures
        decimal(d) == seq!["0123456789"@[d as int]],
        n > 0 ==> decimal(10 * n + d) == decimal(n).push("0123456789"@[d as int]),
{
    reveal_strlit("0123456789");
    assert((48 + d) as char == "0123456789"@[d as int]);
    if n > 0 {
        assert((10 * n + d) / 10 == n);
        assert((10 * n + d) % 10 == d);
    }
}

/// Each further digit makes the number ten times as great and adds its own value.
pub proof fn law_digits_are_read_in_order(text: Seq<char>, d: nat)
    requires
        d < 10,
    ensures
        digits_value(Seq::<char>::empty()) == 0,
        digits_value(text.push("0123456789"@[d as int])) == 10 * digits_value(text) + d,
{
    reveal_strlit("0123456789");
    let longer = text.push("0123456789"@[d as int]);
    assert(longer.drop_last() =~= text);
    assert(longer.last() as int - 48 == d);
}

/// A text is a count just if it is one or more digits, with or without a plus sign
/// in front, and the number fits.
pub proof fn law_count_is_digits(text: Seq<char>)
    requires
        text.len() > 0 ==> text[0] != '+',
    ensures
        ({
            let digits = text.len() > 0 && forall|i: int|
                0 <= i < text.len() ==> '0' <= #[trigger] text[i] <= '9';
            let fits = digits_value(text) <= usize::MAX;
            &&& digits && fits ==> count_of(text) == Some(digits_value(text) as usize)
            &&& !(digits && fits) ==> count_of(text) is None
            &&& count_of(seq!['+'] + text) == count_of(text)
        }),
{
    let signed = seq!['+'] + text;
    assert(signed.skip(1) =~= text);
    let digits = text.len() > 0 && forall|i: int|
        0 <= i < text.len() ==> '0' <= #[trigger] text[i] <= '9';
    if digits {
        assert forall|i: int| 0 <= i < text.len() implies is_digit(#[trigger] text[i]) by {}
        assert(all_digits(text));
    } else if text.len() > 0 {
        let i = choose|i: int| 0 <= i < text.len() && !('0' <= #[trigger] text[i] <= '9');
        assert(!is_digit(text[i]));
        assert(!all_digits(text));
    }
}

/// Two signs make no count.
pub proof fn law_second_sign_makes_no_count(text: Seq<char>)
    ensures
        count_of(seq!['+', '+'] + text) is None,
{
    let signed = seq!['+', '+'] + text;
    let rest = signed.skip(1);
    assert(signed[0] == '+');
    assert(!is_digit(rest[0]));
}

/// What is read of a group: its text and its count where it took part in the match,
/// else nothing, no text and zero.
pub proof fn law_group_is_read(groups: GroupTexts, i: int)
    ensures
        0 <= i < groups.len() ==> group_of(groups, i) == groups[i],
        !(0 <= i < groups.len()) ==> group_of(groups, i) is None,
        group_of(groups, i) matches Some(text) ==> {
            &&& group_text_of(groups, i) == text
            &&& count_of(text) is Some ==> group_count_of(groups, i) == count_of(text)->0
            &&& count_of(text) is None ==> group_count_of(groups, i) == 0
        },
        group_of(groups, i) is None ==> {
            &&& group_text_of(groups, i).len() == 0
            &&& group_count_of(groups, i) == 0
        },
{
}

/// Whether group `i` holds `count` in decimal, or took no part where there is no
/// count.
pub open spec fn holds_count(groups: GroupTexts, i: int, count: Option<usize>) -> bool {
    &&& 0 <= i < groups.len()
    &&& match count {
        Some(n) => groups[i] == Some(decimal(n as nat)),
        None => groups[i] is None,
    }
}

/// A group that holds a number in decimal counts as that number, and a group that
/// took no part as zero.
pub proof fn law_group_counts_what_it_holds(groups: GroupTexts, i: int, count: Option<usize>)
    requires
        holds_count(groups, i, count),
    ensures
        group_count_of(groups, i) == (match count {
            Some(n) => n,
            None => 0,
        }),
{
    if let Some(n) = count {
        law_written_count_is_read_back(n);
    }
}

/// A pattern finds what its compiled form finds, and one that is refused nothing.
pub proof fn law_match_is_the_compiled_patterns(
    pattern: Seq<char>,
    text: Seq<char>,
    regex: Regex,
)
    ensures
        compiled(pattern) == Some(regex) ==> first_match(pattern, text) == captured(regex, text),
        compiled(pattern) is None ==> first_match(pattern, text) is None,
{
}

/// The groups of a match stand for their texts, one by one.
pub proof fn law_groups_stand_for_their_texts(groups: Groups, i: int)
    requires
        0 <= i < groups.texts@.len(),
    ensures
        groups@.len() == groups.texts@.len(),
        groups.texts@[i] is None ==> groups@[i] is None,
        groups.texts@[i] matches Some(text) ==> groups@[i] == Some(text@),
        optional_groups(None) is None,
        optional_groups(Some(groups)) == Some(groups@),
{
}

} // verus!
