//! Laws of noise: which lines are passed on.

use crate::laws::text::{
    is_blank, is_whole_line, law_blank_ends_are_trimmed, law_joined_lines_are_read_back,
    law_joined_text_holds_its_parts, law_lines_have_no_line_feed, law_trim_is_idempotent,
};
use crate::noise::{is_noise, passed_through, without_noise, PASSTHROUGH_LIMIT};
use crate::text::{decimal, joined, lines_of, occurs_in, trim_of};
use vstd::prelude::*;

verus! {

/// White space round a line does not decide whether it is noise.
pub proof fn law_indentation_does_not_matter(line: Seq<char>)
    ensures
        is_noise(trim_of(line)) == is_noise(line),
{
    law_trim_is_idempotent(line);
}

/// White space added round a line does not make it noise, nor noise anything else.
pub proof fn law_white_space_does_not_matter(
    before: Seq<char>,
    line: Seq<char>,
    after: Seq<char>,
)
    requires
        is_blank(before),
        is_blank(after),
    ensures
        is_noise(before + line + after) == is_noise(line),
{
    law_blank_ends_are_trimmed(before, line, after);
}

/// A line is passed on just if it is one of the lines and no noise.
pub proof fn law_passed_lines_are_the_lines_without_noise(list: Seq<Seq<char>>, line: Seq<char>)
    ensures
        without_noise(list).contains(line) <==> list.contains(line) && !is_noise(line),
    decreases list.len(),
{
    reveal_with_fuel(Seq::<_>::filter, 1);
    if list.len() > 0 {
        let shorter = list.drop_last();
        let last = list.last();
        law_passed_lines_are_the_lines_without_noise(shorter, line);
        assert(shorter.push(last) == list);
        lemma_push_contains(shorter, last, line);
        lemma_push_contains(without_noise(shorter), last, line);
    }
}

proof fn lemma_push_contains(list: Seq<Seq<char>>, last: Seq<char>, line: Seq<char>)
    ensures
        list.push(last).contains(line) <==> list.contains(line) || line == last,
{
    let longer = list.push(last);
    if list.contains(line) {
        let i = choose|i: int| 0 <= i < list.len() && list[i] == line;
        assert(longer[i] == line);
    }
    assert(longer[list.len() as int] == last);
}

/// Lines that hold no noise are passed on as they are.
pub proof fn law_lines_without_noise_stay(list: Seq<Seq<char>>)
    requires
        forall|i: int| 0 <= i < list.len() ==> !is_noise(#[trigger] list[i]),
    ensures
        without_noise(list) == list,
    decreases list.len(),
{
    reveal_with_fuel(Seq::<_>::filter, 1);
    if list.len() > 0 {
        let shorter = list.drop_last();
        assert forall|i: int| 0 <= i < shorter.len() implies !is_noise(#[trigger] shorter[i]) by {
            assert(shorter[i] == list[i]);
        }
        law_lines_without_noise_stay(shorter);
        assert(!is_noise(list[list.len() - 1]));
        assert(shorter.push(list.last()) == list);
    } else {
        assert(without_noise(list) == list);
    }
}

/// What is passed on depends on the lines that are no noise alone.
pub proof fn law_noise_is_not_passed_on(a: Seq<char>, b: Seq<char>)
    requires
        without_noise(lines_of(a)) == without_noise(lines_of(b)),
    ensures
        passed_through(a) == passed_through(b),
{
}

/// Passing on what was passed on changes nothing, where it was not cut and no
/// line of it ends in a carriage return.
pub proof fn law_passing_on_twice_changes_nothing(text: Seq<char>)
    requires
        joined(without_noise(lines_of(text)), "\n"@).len() <= PASSTHROUGH_LIMIT,
        forall|i: int|
            0 <= i < without_noise(lines_of(text)).len() ==> (#[trigger] without_noise(
                lines_of(text),
            )[i]).last() != '\r',
    ensures
        passed_through(passed_through(text)) == passed_through(text),
{
    let all = lines_of(text);
    let kept = without_noise(all);
    assert forall|i: int| 0 <= i < kept.len() implies is_whole_line(#[trigger] kept[i])
        && !is_noise(kept[i]) by {
        assert(kept.contains(kept[i]));
        law_passed_lines_are_the_lines_without_noise(all, kept[i]);
        let k = choose|k: int| 0 <= k < all.len() && all[k] == kept[i];
        law_lines_have_no_line_feed(text, k);
        if kept[i].len() == 0 {
            assert(trim_of(kept[i]).len() == 0);
        }
    }
    law_joined_lines_are_read_back(kept);
    law_lines_without_noise_stay(kept);
}

/// A line with nothing on it is noise, and so is one that begins with, or is, one of
/// the phrases that Yarn, a build or Jest prints in every run.
pub proof fn law_known_phrases_are_noise(line: Seq<char>)
    ensures
        trim_of(line).len() == 0 ==> is_noise(line),
        "yarn run v"@.is_prefix_of(trim_of(line)) ==> is_noise(line),
        "$ jest"@.is_prefix_of(trim_of(line)) ==> is_noise(line),
        "$ react-scripts test"@.is_prefix_of(trim_of(line)) ==> is_noise(line),
        "$ node "@.is_prefix_of(trim_of(line)) ==> is_noise(line),
        "$ cross-env "@.is_prefix_of(trim_of(line)) ==> is_noise(line),
        "$ ng test"@.is_prefix_of(trim_of(line)) ==> is_noise(line),
        "$ vitest"@.is_prefix_of(trim_of(line)) ==> is_noise(line),
        "Start at"@.is_prefix_of(trim_of(line)) ==> is_noise(line),
        "\u{27a4} YN"@.is_prefix_of(trim_of(line)) ==> is_noise(line),
        "Done in "@.is_prefix_of(trim_of(line)) ==> is_noise(line),
        "error Command failed"@.is_prefix_of(trim_of(line)) ==> is_noise(line),
        "info Visit https://yarnpkg.com"@.is_prefix_of(trim_of(line)) ==> is_noise(line),
        "Snapshots:"@.is_prefix_of(trim_of(line)) ==> is_noise(line),
        trim_of(line) == "Building..."@ ==> is_noise(line),
        trim_of(line) == "Ran all test suites."@ ==> is_noise(line),
        "Snapshot"@.is_prefix_of(trim_of(line)) && occurs_in("total"@, trim_of(line))
            ==> is_noise(line),
{
}

/// A line that is not empty and has none of these phrases is no noise.
pub proof fn law_any_other_line_is_no_noise(line: Seq<char>)
    requires
        trim_of(line).len() > 0,
        !"yarn run v"@.is_prefix_of(trim_of(line)),
        !"$ jest"@.is_prefix_of(trim_of(line)),
        !"$ react-scripts test"@.is_prefix_of(trim_of(line)),
        !"$ node "@.is_prefix_of(trim_of(line)),
        !"$ cross-env "@.is_prefix_of(trim_of(line)),
        !"$ ng test"@.is_prefix_of(trim_of(line)),
        !"$ vitest"@.is_prefix_of(trim_of(line)),
        !"Start at"@.is_prefix_of(trim_of(line)),
        !"\u{27a4} YN"@.is_prefix_of(trim_of(line)),
        !"Done in "@.is_prefix_of(trim_of(line)),
        !"error Command failed"@.is_prefix_of(trim_of(line)),
        !"info Visit https://yarnpkg.com"@.is_prefix_of(trim_of(line)),
        !"Snapshots:"@.is_prefix_of(trim_of(line)),
        trim_of(line) != "Building..."@,
        trim_of(line) != "Ran all test suites."@,
        !("Snapshot"@.is_prefix_of(trim_of(line)) && occurs_in("total"@, trim_of(line))),
    ensures
        !is_noise(line),
{
}

/// A text that begins with another begins with the first character of that.
proof fn lemma_first_char(prefix: Seq<char>, text: Seq<char>)
    requires
        prefix.len() > 0,
        prefix.is_prefix_of(text),
    ensures
        text.len() > 0,
        text[0] == prefix[0],
{
    assert(text.subrange(0, prefix.len() as int)[0] == text[0]);
}

/// The characters that the phrases begin with.
proof fn lemma_first_chars(trimmed: Seq<char>)
    ensures
        "yarn run v"@.is_prefix_of(trimmed) ==> trimmed[0] == 'y',
        "$ jest"@.is_prefix_of(trimmed) ==> trimmed[0] == '$',
        "$ react-scripts test"@.is_prefix_of(trimmed) ==> trimmed[0] == '$',
        "$ node "@.is_prefix_of(trimmed) ==> trimmed[0] == '$',
        "$ cross-env "@.is_prefix_of(trimmed) ==> trimmed[0] == '$',
        "$ ng test"@.is_prefix_of(trimmed) ==> trimmed[0] == '$',
        "$ vitest"@.is_prefix_of(trimmed) ==> trimmed[0] == '$',
        "Start at"@.is_prefix_of(trimmed) ==> trimmed[0] == 'S',
        "\u{27a4} YN"@.is_prefix_of(trimmed) ==> trimmed[0] == '\u{27a4}',
        "Done in "@.is_prefix_of(trimmed) ==> trimmed[0] == 'D',
        "error Command failed"@.is_prefix_of(trimmed) ==> trimmed[0] == 'e',
        "info Visit https://yarnpkg.com"@.is_prefix_of(trimmed) ==> trimmed[0] == 'i',
        "Snapshots:"@.is_prefix_of(trimmed) ==> trimmed[0] == 'S',
        "Snapshot"@.is_prefix_of(trimmed) ==> trimmed[0] == 'S',
        trimmed == "Building..."@ ==> trimmed[0] == 'B',
        trimmed == "Ran all test suites."@ ==> trimmed[0] == 'R',
{
    reveal_strlit("yarn run v");
    reveal_strlit("$ jest");
    reveal_strlit("$ react-scripts test");
    reveal_strlit("$ node ");
    reveal_strlit("$ cross-env ");
    reveal_strlit("$ ng test");
    reveal_strlit("$ vitest");
    reveal_strlit("Start at");
    reveal_strlit("\u{27a4} YN");
    reveal_strlit("Done in ");
    reveal_strlit("error Command failed");
    reveal_strlit("info Visit https://yarnpkg.com");
    reveal_strlit("Snapshots:");
    reveal_strlit("Snapshot");
    reveal_strlit("Building...");
    reveal_strlit("Ran all test suites.");
    if "yarn run v"@.is_prefix_of(trimmed) {
        lemma_first_char("yarn run v"@, trimmed);
    }
    if "$ jest"@.is_prefix_of(trimmed) {
        lemma_first_char("$ jest"@, trimmed);
    }
    if "$ react-scripts test"@.is_prefix_of(trimmed) {
        lemma_first_char("$ react-scripts test"@, trimmed);
    }
    if "$ node "@.is_prefix_of(trimmed) {
        lemma_first_char("$ node "@, trimmed);
    }
    if "$ cross-env "@.is_prefix_of(trimmed) {
        lemma_first_char("$ cross-env "@, trimmed);
    }
    if "$ ng test"@.is_prefix_of(trimmed) {
        lemma_first_char("$ ng test"@, trimmed);
    }
    if "$ vitest"@.is_prefix_of(trimmed) {
        lemma_first_char("$ vitest"@, trimmed);
    }
    if "Start at"@.is_prefix_of(trimmed) {
        lemma_first_char("Start at"@, trimmed);
    }
    if "\u{27a4} YN"@.is_prefix_of(trimmed) {
        lemma_first_char("\u{27a4} YN"@, trimmed);
    }
    if "Done in "@.is_prefix_of(trimmed) {
        lemma_first_char("Done in "@, trimmed);
    }
    if "error Command failed"@.is_prefix_of(trimmed) {
        lemma_first_char("error Command failed"@, trimmed);
    }
    if "info Visit https://yarnpkg.com"@.is_prefix_of(trimmed) {
        lemma_first_char("info Visit https://yarnpkg.com"@, trimmed);
    }
    if "Snapshots:"@.is_prefix_of(trimmed) {
        lemma_first_char("Snapshots:"@, trimmed);
    }
    if "Snapshot"@.is_prefix_of(trimmed) {
        lemma_first_char("Snapshot"@, trimmed);
    }
}

/// Whatever a line says, it is no noise where it begins with a character that none
/// of the phrases begins with.
pub proof fn law_first_character_can_rule_noise_out(line: Seq<char>)
    requires
        trim_of(line).len() > 0,
        trim_of(line)[0] != 'y',
        trim_of(line)[0] != '$',
        trim_of(line)[0] != 'S',
        trim_of(line)[0] != '\u{27a4}',
        trim_of(line)[0] != 'D',
        trim_of(line)[0] != 'e',
        trim_of(line)[0] != 'i',
        trim_of(line)[0] != 'B',
        trim_of(line)[0] != 'R',
    ensures
        !is_noise(line),
{
    lemma_first_chars(trim_of(line));
}

/// An error that is not the one of a command that failed is no noise.
pub proof fn law_other_errors_are_no_noise(line: Seq<char>)
    requires
        "error "@.is_prefix_of(trim_of(line)),
        !"error Command failed"@.is_prefix_of(trim_of(line)),
    ensures
        !is_noise(line),
{
    let trimmed = trim_of(line);
    reveal_strlit("error ");
    lemma_first_char("error "@, trimmed);
    lemma_first_chars(trimmed);
}

/// The lines that are no noise are told line by line.
pub proof fn law_noise_is_taken_out_line_by_line(list: Seq<Seq<char>>, line: Seq<char>)
    ensures
        without_noise(Seq::<Seq<char>>::empty()).len() == 0,
        is_noise(line) ==> without_noise(list.push(line)) == without_noise(list),
        !is_noise(line) ==> without_noise(list.push(line)) == without_noise(list).push(line),
{
    reveal_with_fuel(Seq::<_>::filter, 2);
    assert(list.push(line).drop_last() =~= list);
}

/// What is passed on is the lines that are no noise, one under the other; of more
/// than two thousand characters the first two thousand, and behind them how many
/// there were.
pub proof fn law_passed_output_is_written_out(text: Seq<char>)
    ensures
        ({
            let kept = joined(without_noise(lines_of(text)), "\n"@);
            &&& kept.len() <= 2000 ==> passed_through(text) == kept
            &&& kept.len() > 2000 ==> passed_through(text) == kept.take(2000)
                + "\n\n[RTK:PASSTHROUGH] Output truncated ("@ + decimal(kept.len())
                + " chars \u{2192} 2000 chars)"@
        }),
{
    reveal_strlit(" chars \u{2192} 2000 chars)");
    reveal_strlit(" chars \u{2192} ");
    reveal_strlit(" chars)");
    reveal_with_fuel(decimal, 5);
    assert(decimal(2000) =~= seq!['2', '0', '0', '0']);
    assert(" chars \u{2192} "@ + decimal(2000) + " chars)"@ =~= " chars \u{2192} 2000 chars)"@);
    let kept = joined(without_noise(lines_of(text)), "\n"@);
    if kept.len() > 2000 {
        assert(passed_through(text) =~= kept.take(2000)
            + "\n\n[RTK:PASSTHROUGH] Output truncated ("@ + decimal(kept.len())
            + " chars \u{2192} 2000 chars)"@);
    }
}

/// A line that is no noise stands in what is passed on, where that is not cut.
pub proof fn law_line_is_passed_on(text: Seq<char>, k: int)
    requires
        0 <= k < lines_of(text).len(),
        !is_noise(lines_of(text)[k]),
        joined(without_noise(lines_of(text)), "\n"@).len() <= 2000,
    ensures
        occurs_in(lines_of(text)[k], passed_through(text)),
{
    let all = lines_of(text);
    let kept = without_noise(all);
    assert(all.contains(all[k]));
    law_passed_lines_are_the_lines_without_noise(all, all[k]);
    let i = choose|i: int| 0 <= i < kept.len() && kept[i] == all[k];
    law_joined_text_holds_its_parts(kept, "\n"@, i);
}

} // verus!
