//! Laws of the lines of Jest output: what each of them changes.

use crate::jest::{
    after_line, after_lines, facts_of, final_report, jest_output, JestFacts, JestLine, JestModel,
    JestParser, ParseState,
};
use crate::jest_report::{any_failed, empty_tally, test_report, JestCounts, JestTally};
use crate::laws::numbers::{holds_count, law_group_counts_what_it_holds};
use crate::laws::report::law_failed_run_begins_with_its_counts;
use crate::noise::{is_noise, passed_through};
use crate::pattern::{first_match, group_count_of, group_of, group_text_of, GroupTexts, Groups};
use crate::text::{decimal, joined, lines_of, texts, trim_of};
use vstd::prelude::*;

verus! {

/// A line is noise, or the first of these that it matches once trimmed: the summary of
/// the suites, the summary of the tests, the time. Any other line is kept, trimmed,
/// with its match as the result of a suite.
pub proof fn law_line_is_told_by_the_patterns(line: Seq<char>)
    ensures
        ({
            let trimmed = trim_of(line);
            let suites = first_match(
                r"Test Suites:\s+(?:(\d+)\s+failed,\s*)?(?:(\d+)\s+passed,\s*)?(\d+)\s+total"@,
                trimmed,
            );
            let tests = first_match(
                r"Tests:\s+(?:(\d+)\s+failed,\s*)?(?:(\d+)\s+(?:skipped|pending|todo),\s*)?(?:(\d+)\s+passed,\s*)?(\d+)\s+total"@,
                trimmed,
            );
            let time = first_match(r"Time:\s+(.+)"@, trimmed);
            let suite = first_match(r"^\s*(PASS|FAIL)\s+(.+)$"@, trimmed);
            let facts = facts_of(line);
            &&& is_noise(line) ==> facts == JestFacts::Noise
            &&& !is_noise(line) && suites is Some ==> facts == JestFacts::Suites(suites->0)
            &&& !is_noise(line) && suites is None && tests is Some ==> facts == JestFacts::Tests(
                tests->0,
            )
            &&& !is_noise(line) && suites is None && tests is None && time is Some ==> facts
                == JestFacts::Time(time->0)
            &&& !is_noise(line) && suites is None && tests is None && time is None ==> facts
                == JestFacts::Other(trimmed, suite)
        }),
{
}

/// Before the first line nothing is counted, no failure and no suite is known.
pub proof fn law_reading_begins_with_nothing()
    ensures
        ({
            let model = after_lines(Seq::<Seq<char>>::empty());
            &&& model.state == ParseState::Preamble
            &&& model.failures.len() == 0
            &&& model.current.len() == 0
            &&& model.suites.len() == 0
            &&& !model.found_any_suite
            &&& model.tally.suites_failed == 0
            &&& model.tally.suites_passed == 0
            &&& model.tally.suites_total == 0
            &&& model.tally.tests_failed == 0
            &&& model.tally.tests_skipped == 0
            &&& model.tally.tests_passed == 0
            &&& model.tally.tests_total == 0
            &&& model.tally.time.len() == 0
        }),
{
}

/// Each line is taken in behind those before it.
pub proof fn law_lines_are_read_one_by_one(list: Seq<Seq<char>>, line: Seq<char>)
    ensures
        after_lines(list.push(line)) == after_line(after_lines(list), facts_of(line)),
{
    assert(list.push(line).drop_last() =~= list);
}

/// Noise changes nothing.
pub proof fn law_noise_changes_nothing(model: JestModel)
    ensures
        after_line(model, JestFacts::Noise) == model,
{
}

/// The summary of the suites completes the failure that is being read and ends the
/// reading of failures; beyond that it changes the counts of the suites alone.
pub proof fn law_suite_summary_changes_the_suites_alone(model: JestModel, groups: GroupTexts)
    ensures
        ({
            let after = after_line(model, JestFacts::Suites(groups));
            &&& after.state == ParseState::Summary
            &&& after.current.len() == 0
            &&& model.current.len() == 0 ==> after.failures == model.failures
            &&& model.current.len() > 0 ==> after.failures == model.failures.push(
                joined(model.current, "\n"@),
            )
            &&& after.suites == model.suites
            &&& after.found_any_suite == model.found_any_suite
            &&& after.tally == (JestTally {
                suites_failed: group_count_of(groups, 1),
                suites_passed: group_count_of(groups, 2),
                suites_total: group_count_of(groups, 3),
                ..model.tally
            })
        }),
{
}

/// The summary of the suites gives the counts that it holds in decimal; a count that it
/// leaves out is zero.
pub proof fn law_suite_summary_is_counted(
    model: JestModel,
    groups: GroupTexts,
    failed: Option<usize>,
    passed: Option<usize>,
    total: usize,
)
    requires
        holds_count(groups, 1, failed),
        holds_count(groups, 2, passed),
        holds_count(groups, 3, Some(total)),
    ensures
        ({
            let tally = after_line(model, JestFacts::Suites(groups)).tally;
            &&& failed matches Some(n) ==> tally.suites_failed == n
            &&& failed is None ==> tally.suites_failed == 0
            &&& passed matches Some(n) ==> tally.suites_passed == n
            &&& passed is None ==> tally.suites_passed == 0
            &&& tally.suites_total == total
        }),
{
    law_group_counts_what_it_holds(groups, 1, failed);
    law_group_counts_what_it_holds(groups, 2, passed);
    law_group_counts_what_it_holds(groups, 3, Some(total));
}

/// The summary of the tests changes their counts alone.
pub proof fn law_test_summary_changes_the_tests_alone(model: JestModel, groups: GroupTexts)
    ensures
        ({
            let after = after_line(model, JestFacts::Tests(groups));
            &&& after.state == model.state
            &&& after.failures == model.failures
            &&& after.current == model.current
            &&& after.suites == model.suites
            &&& after.found_any_suite == model.found_any_suite
            &&& after.tally == (JestTally {
                tests_failed: group_count_of(groups, 1),
                tests_skipped: group_count_of(groups, 2),
                tests_passed: group_count_of(groups, 3),
                tests_total: group_count_of(groups, 4),
                ..model.tally
            })
        }),
{
}

/// The summary of the tests gives the counts that it holds in decimal; a count that it
/// leaves out is zero.
pub proof fn law_test_summary_is_counted(
    model: JestModel,
    groups: GroupTexts,
    failed: Option<usize>,
    skipped: Option<usize>,
    passed: Option<usize>,
    total: usize,
)
    requires
        holds_count(groups, 1, failed),
        holds_count(groups, 2, skipped),
        holds_count(groups, 3, passed),
        holds_count(groups, 4, Some(total)),
    ensures
        ({
            let tally = after_line(model, JestFacts::Tests(groups)).tally;
            &&& failed matches Some(n) ==> tally.tests_failed == n
            &&& failed is None ==> tally.tests_failed == 0
            &&& skipped matches Some(n) ==> tally.tests_skipped == n
            &&& skipped is None ==> tally.tests_skipped == 0
            &&& passed matches Some(n) ==> tally.tests_passed == n
            &&& passed is None ==> tally.tests_passed == 0
            &&& tally.tests_total == total
        }),
{
    law_group_counts_what_it_holds(groups, 1, failed);
    law_group_counts_what_it_holds(groups, 2, skipped);
    law_group_counts_what_it_holds(groups, 3, passed);
    law_group_counts_what_it_holds(groups, 4, Some(total));
}

/// The line of the time gives the time as it is written, trimmed, and changes nothing
/// else.
pub proof fn law_time_is_kept_as_written(model: JestModel, groups: GroupTexts)
    ensures
        ({
            let after = after_line(model, JestFacts::Time(groups));
            &&& after.state == model.state
            &&& after.failures == model.failures
            &&& after.current == model.current
            &&& after.suites == model.suites
            &&& after.found_any_suite == model.found_any_suite
            &&& after.tally == (JestTally { time: after.tally.time, ..model.tally })
            &&& group_of(groups, 1) matches Some(time) ==> after.tally.time == trim_of(time)
            &&& group_of(groups, 1) is None ==> after.tally.time == model.tally.time
        }),
{
}

/// The result of a suite is recorded, unless the summary of the suites was read: its
/// word, a space and its path. It completes the failure that is being read, and the
/// first result says that a suite was found.
pub proof fn law_suite_result_is_recorded(model: JestModel, line: Seq<char>, groups: GroupTexts)
    requires
        model.state != ParseState::Summary,
        model.state != ParseState::Failures ==> model.current.len() == 0,
    ensures
        ({
            let after = after_line(model, JestFacts::Other(line, Some(groups)));
            &&& after.state == ParseState::TestSection
            &&& after.suites == model.suites.push(
                group_text_of(groups, 1) + " "@ + trim_of(group_text_of(groups, 2)),
            )
            &&& after.current.len() == 0
            &&& model.current.len() == 0 ==> after.failures == model.failures
            &&& model.current.len() > 0 ==> after.failures == model.failures.push(
                joined(model.current, "\n"@),
            )
            &&& after.found_any_suite == (model.found_any_suite || model.state
                == ParseState::Preamble)
            &&& after.tally == model.tally
        }),
{
}

/// Before the first result of a suite, and after the summary of the suites, a line that
/// is no result of a suite changes nothing; after the summary a result does not either.
pub proof fn law_lines_outside_the_suites_change_nothing(
    model: JestModel,
    line: Seq<char>,
    suite: Option<GroupTexts>,
)
    requires
        model.state == ParseState::Summary || (model.state == ParseState::Preamble
            && suite is None),
    ensures
        after_line(model, JestFacts::Other(line, suite)) == model,
{
}

/// Between the suites a line with the mark of a failure, or one that begins with the word
/// of a failed suite but is no result, opens a failure; any other line changes nothing.
pub proof fn law_mark_opens_a_failure(model: JestModel, line: Seq<char>)
    requires
        model.state == ParseState::TestSection,
    ensures
        ({
            let after = after_line(model, JestFacts::Other(line, None));
            let opens = (line.len() > 0 && line[0] == '\u{25cf}') || "FAIL "@.is_prefix_of(line);
            &&& !opens ==> after == model
            &&& opens ==> {
                &&& after.state == ParseState::Failures
                &&& after.current == model.current.push(
                    if line.len() <= 120 {
                        line
                    } else {
                        line.take(117) + "..."@
                    },
                )
                &&& after.failures == model.failures
                &&& after.suites == model.suites
                &&& after.found_any_suite == model.found_any_suite
                &&& after.tally == model.tally
            }
        }),
{
}

/// A further mark completes the failure that is being read and opens the next.
pub proof fn law_mark_separates_failures(model: JestModel, line: Seq<char>)
    requires
        model.state == ParseState::Failures,
        line.len() > 0,
        line[0] == '\u{25cf}',
    ensures
        ({
            let after = after_line(model, JestFacts::Other(line, None));
            &&& after.state == ParseState::Failures
            &&& model.current.len() == 0 ==> after.failures == model.failures
            &&& model.current.len() > 0 ==> after.failures == model.failures.push(
                joined(model.current, "\n"@),
            )
            &&& after.current == seq![
                if line.len() <= 120 {
                    line
                } else {
                    line.take(117) + "..."@
                },
            ]
            &&& after.suites == model.suites
            &&& after.found_any_suite == model.found_any_suite
            &&& after.tally == model.tally
        }),
{
    let after = after_line(model, JestFacts::Other(line, None));
    let short = if line.len() <= 120 {
        line
    } else {
        line.take(117) + "..."@
    };
    assert(after.current =~= seq![short]);
}

/// Any other line that is not empty is one more line of the failure that is being read,
/// shortened; an empty one changes nothing.
pub proof fn law_line_belongs_to_its_failure(model: JestModel, line: Seq<char>)
    requires
        model.state == ParseState::Failures,
        line.len() > 0 ==> line[0] != '\u{25cf}',
    ensures
        ({
            let after = after_line(model, JestFacts::Other(line, None));
            &&& line.len() == 0 ==> after == model
            &&& line.len() > 0 ==> after == (JestModel {
                current: model.current.push(
                    if line.len() <= 120 {
                        line
                    } else {
                        line.take(117) + "..."@
                    },
                ),
                ..model
            })
        }),
{
}

/// However many lines follow while a failure is being read that are not empty, no noise, no
/// summary, no time, no result of a suite and not marked: each of them is one more line of
/// the failure, trimmed and shortened, in their order. Nothing else changes.
pub proof fn law_failure_takes_every_line(before: Seq<Seq<char>>, details: Seq<Seq<char>>)
    requires
        after_lines(before).state == ParseState::Failures,
        forall|i: int|
            0 <= i < details.len() ==> {
                &&& facts_of(#[trigger] details[i]) == JestFacts::Other(trim_of(details[i]), None)
                &&& trim_of(details[i]).len() > 0
                &&& trim_of(details[i])[0] != '\u{25cf}'
            },
    ensures
        after_lines(before + details) == (JestModel {
            current: after_lines(before).current + Seq::new(
                details.len(),
                |i: int|
                    if trim_of(details[i]).len() <= 120 {
                        trim_of(details[i])
                    } else {
                        trim_of(details[i]).take(117) + "..."@
                    },
            ),
            ..after_lines(before)
        }),
    decreases details.len(),
{
    let start = after_lines(before);
    let added = Seq::new(
        details.len(),
        |i: int|
            if trim_of(details[i]).len() <= 120 {
                trim_of(details[i])
            } else {
                trim_of(details[i]).take(117) + "..."@
            },
    );
    if details.len() == 0 {
        assert(before + details =~= before);
        assert(start.current + added =~= start.current);
    } else {
        let fewer = details.drop_last();
        let line = details.last();
        assert forall|i: int| 0 <= i < fewer.len() implies {
            &&& facts_of(#[trigger] fewer[i]) == JestFacts::Other(trim_of(fewer[i]), None)
            &&& trim_of(fewer[i]).len() > 0
            &&& trim_of(fewer[i])[0] != '\u{25cf}'
        } by {
            assert(fewer[i] == details[i]);
        }
        law_failure_takes_every_line(before, fewer);
        assert(line == details[details.len() - 1]);
        assert((before + details).drop_last() =~= before + fewer);
        let middle = after_lines(before + fewer);
        law_line_belongs_to_its_failure(middle, trim_of(line));
        let end = after_lines(before + details);
        let added_fewer = Seq::new(
            fewer.len(),
            |i: int|
                if trim_of(fewer[i]).len() <= 120 {
                    trim_of(fewer[i])
                } else {
                    trim_of(fewer[i]).take(117) + "..."@
                },
        );
        assert(middle.current == start.current + added_fewer);
        assert(added_fewer =~= added.drop_last());
        assert(end.current =~= start.current + added);
    }
}

/// A failure is complete with every line that was read of it, one under the other, as soon
/// as the summary of the suites, the result of a suite or the next mark is read.
pub proof fn law_failure_is_complete_with_every_line(
    before: Seq<Seq<char>>,
    details: Seq<Seq<char>>,
    end: Seq<char>,
)
    requires
        after_lines(before).state == ParseState::Failures,
        after_lines(before).current.len() > 0,
        forall|i: int|
            0 <= i < details.len() ==> {
                &&& facts_of(#[trigger] details[i]) == JestFacts::Other(trim_of(details[i]), None)
                &&& trim_of(details[i]).len() > 0
                &&& trim_of(details[i])[0] != '\u{25cf}'
            },
        ({
            ||| facts_of(end) is Suites
            ||| facts_of(end) matches JestFacts::Other(_, Some(_))
            ||| facts_of(end) matches JestFacts::Other(text, None) && text.len() > 0 && text[0]
                == '\u{25cf}'
        }),
    ensures
        after_lines((before + details).push(end)).failures == after_lines(before).failures.push(
            joined(
                after_lines(before).current + Seq::new(
                    details.len(),
                    |i: int|
                        if trim_of(details[i]).len() <= 120 {
                            trim_of(details[i])
                        } else {
                            trim_of(details[i]).take(117) + "..."@
                        },
                ),
                "\n"@,
            ),
        ),
{
    law_failure_takes_every_line(before, details);
    law_lines_are_read_one_by_one(before + details, end);
}

/// There is a report just if a test was counted or a suite found, and it is that of the
/// counts and of all failures, the one that is being read last.
pub proof fn law_report_holds_all_failures(model: JestModel)
    ensures
        model.tally.tests_total == 0 && !model.found_any_suite ==> final_report(model) is None,
        model.tally.tests_total > 0 || model.found_any_suite ==> final_report(model) == Some(
            test_report(
                model.tally,
                if model.current.len() == 0 {
                    model.failures
                } else {
                    model.failures.push(joined(model.current, "\n"@))
                },
            ),
        ),
{
}

/// The compact form of a Jest output is its report, and where there is none the output
/// itself is passed on.
pub proof fn law_jest_output_is_its_report(clean: Seq<char>)
    ensures
        ({
            let report = final_report(after_lines(lines_of(clean)));
            &&& report matches Some(text) ==> jest_output(clean) == text
            &&& report is None ==> jest_output(clean) == passed_through(clean)
        }),
{
}

/// Lines without a summary of the tests leave the counts of the tests as they were.
proof fn lemma_test_counts_stay(before: Seq<Seq<char>>, after: Seq<Seq<char>>)
    requires
        forall|i: int| 0 <= i < after.len() ==> !(facts_of(#[trigger] after[i]) is Tests),
    ensures
        ({
            let a = after_lines(before).tally;
            let b = after_lines(before + after).tally;
            a.tests_failed == b.tests_failed && a.tests_skipped == b.tests_skipped
                && a.tests_passed == b.tests_passed && a.tests_total == b.tests_total
        }),
    decreases after.len(),
{
    if after.len() == 0 {
        assert(before + after =~= before);
    } else {
        let fewer = after.drop_last();
        assert forall|i: int| 0 <= i < fewer.len() implies !(facts_of(
            #[trigger] fewer[i],
        ) is Tests) by {
            assert(fewer[i] == after[i]);
        }
        lemma_test_counts_stay(before, fewer);
        assert((before + after).drop_last() =~= before + fewer);
        assert(!(facts_of(after[after.len() - 1]) is Tests));
    }
}

/// The compact form of a run with failed tests begins with the counts that its last summary
/// of the tests holds, whatever else was printed.
pub proof fn law_run_begins_with_the_counts_of_its_summary(
    clean: Seq<char>,
    k: int,
    groups: GroupTexts,
    failed: usize,
    skipped: Option<usize>,
    passed: usize,
    total: usize,
)
    requires
        0 <= k < lines_of(clean).len(),
        facts_of(lines_of(clean)[k]) == JestFacts::Tests(groups),
        forall|i: int|
            k < i < lines_of(clean).len() ==> !(facts_of(#[trigger] lines_of(clean)[i]) is Tests),
        holds_count(groups, 1, Some(failed)),
        holds_count(groups, 2, skipped),
        holds_count(groups, 3, Some(passed)),
        holds_count(groups, 4, Some(total)),
        failed > 0,
        total > 0,
    ensures
        ("Yarn test: "@ + decimal(failed as nat) + " failed, "@ + decimal(passed as nat)
            + " passed"@ + (match skipped {
            Some(n) if n > 0 => ", "@ + decimal(n as nat) + " skipped"@,
            _ => Seq::<char>::empty(),
        }) + " ("@ + decimal(total as nat) + " total)"@).is_prefix_of(jest_output(clean)),
{
    let list = lines_of(clean);
    let before = list.take(k);
    let line = list[k];
    let after = list.skip(k + 1);
    let upto = before.push(line);
    assert(list =~= upto + after);
    law_lines_are_read_one_by_one(before, line);
    law_test_summary_is_counted(
        after_lines(before),
        groups,
        Some(failed),
        skipped,
        Some(passed),
        total,
    );
    assert forall|i: int| 0 <= i < after.len() implies !(facts_of(
        #[trigger] after[i],
    ) is Tests) by {
        assert(after[i] == list[k + 1 + i]);
    }
    lemma_test_counts_stay(upto, after);
    let model = after_lines(list);
    law_report_holds_all_failures(model);
    let failures = if model.current.len() == 0 {
        model.failures
    } else {
        model.failures.push(joined(model.current, "\n"@))
    };
    law_failed_run_begins_with_its_counts(model.tally, failures);
}

/// A run has failures just if a test or a suite failed.
pub proof fn law_failure_is_of_a_test_or_a_suite(tally: JestTally)
    ensures
        any_failed(tally) <==> tally.tests_failed > 0 || tally.suites_failed > 0,
{
}

/// Before anything is counted all counts are zero, and no time is known.
pub proof fn law_nothing_is_counted_at_first()
    ensures
        ({
            let tally = empty_tally();
            &&& tally.suites_failed == 0
            &&& tally.suites_passed == 0
            &&& tally.suites_total == 0
            &&& tally.tests_failed == 0
            &&& tally.tests_skipped == 0
            &&& tally.tests_passed == 0
            &&& tally.tests_total == 0
            &&& tally.time.len() == 0
        }),
{
}

/// The counts stand for themselves, field by field.
pub proof fn law_counts_stand_for_themselves(counts: JestCounts)
    ensures
        counts@ == (JestTally {
            suites_failed: counts.suites_failed,
            suites_passed: counts.suites_passed,
            suites_total: counts.suites_total,
            tests_failed: counts.tests_failed,
            tests_skipped: counts.tests_skipped,
            tests_passed: counts.tests_passed,
            tests_total: counts.tests_total,
            time: counts.time@,
        }),
{
}

/// A parser stands for what its fields hold, and a line for its kind and its texts.
pub proof fn law_parser_stands_for_its_fields(parser: JestParser, groups: Groups, text: String)
    ensures
        parser@.state == parser.state,
        parser@.tally == parser.counts@,
        parser@.failures == texts(parser.failure_lines@),
        parser@.current == texts(parser.current_failure@),
        parser@.suites == texts(parser.suite_results@),
        parser@.found_any_suite == parser.found_any_suite,
        JestLine::Noise@ == JestFacts::Noise,
        JestLine::Suites(groups)@ == JestFacts::Suites(groups@),
        JestLine::Tests(groups)@ == JestFacts::Tests(groups@),
        JestLine::Time(groups)@ == JestFacts::Time(groups@),
        JestLine::Other(text, None)@ == JestFacts::Other(text@, None),
        JestLine::Other(text, Some(groups))@ == JestFacts::Other(text@, Some(groups@)),
{
}

} // verus!
