//! Laws of the lines of Vitest output: what each of them changes.

use crate::duration::duration_of;
use crate::laws::duration::law_written_seconds_are_exact;
use crate::laws::numbers::{holds_count, law_group_counts_what_it_holds};
use crate::laws::report::law_compact_form_is_written_out;
use crate::noise::passed_through;
use crate::pattern::{first_match, group_count_of, group_text_of, GroupTexts};
use crate::test_result::{compact_form, failure_texts, FailureText, TestFailure};
use crate::text::{decimal, joined, lines_of, optional_text, texts, trim_of, without_leading};
use crate::vitest::{
    after_line, after_lines, facts_of, final_report, vitest_output, with_failure_closed,
    OpenFailure, VitestFacts, VitestLine, VitestModel, VitestParser,
};
use vstd::prelude::*;

verus! {

/// A line is trimmed and matched as the summary of the tests and as the time.
pub proof fn law_line_is_told_by_the_patterns(line: Seq<char>)
    ensures
        facts_of(line).text == trim_of(line),
        facts_of(line).tests == first_match(
            r"Tests\s+(?:(\d+)\s+failed\s*\|\s*)?(?:(\d+)\s+skipped\s*\|\s*)?(\d+)\s+passed\s*\((\d+)\)"@,
            trim_of(line),
        ),
        facts_of(line).duration == first_match(r"Duration\s+([\d.]+)(ms|s)"@, trim_of(line)),
{
}

/// Before the first line nothing is counted and no failure is known.
pub proof fn law_reading_begins_with_nothing()
    ensures
        ({
            let model = after_lines(Seq::<Seq<char>>::empty());
            &&& model.failed == 0
            &&& model.skipped == 0
            &&& model.passed == 0
            &&& model.total == 0
            &&& model.duration_ms is None
            &&& model.failures.len() == 0
            &&& model.open is None
        }),
{
}

/// Each line is taken in behind those before it.
pub proof fn law_lines_are_read_one_by_one(list: Seq<Seq<char>>, line: Seq<char>)
    ensures
        after_lines(list.push(line)) == after_line(after_lines(list), facts_of(line)),
{
    assert(list.push(line).drop_last() =~= list);
}

/// A line with an arrow behind a failed test is one more line of its message, without
/// its arrows and the white space round the rest, and changes nothing else.
pub proof fn law_error_line_is_added(model: VitestModel, line: VitestFacts)
    requires
        model.open is Some,
        line.text.len() > 0,
        line.text[0] == '\u{2192}',
    ensures
        after_line(model, line) == (VitestModel {
            open: Some(
                (
                    (model.open->0).0,
                    (model.open->0).1.push(trim_of(without_leading(line.text, '\u{2192}'))),
                ),
            ),
            ..model
        }),
{
}

/// Any other line completes the failed test that is being read: its name, no file, its
/// message with the lines one under the other, and no stack trace.
pub proof fn law_any_other_line_completes_the_failure(model: VitestModel, line: VitestFacts)
    requires
        model.open is None || line.text.len() == 0 || line.text[0] != '\u{2192}',
    ensures
        model.open is None ==> after_line(model, line).failures == model.failures,
        model.open matches Some((name, errors)) ==> after_line(model, line).failures
            == model.failures.push(
            FailureText {
                name,
                file_path: Seq::empty(),
                message: joined(errors, "\n"@),
                stack_trace: None,
            },
        ),
{
}

/// Which line changes what: a summary of the tests the counts alone, any other time the
/// time alone, and a cross opens a failed test; no other line does any of these.
pub proof fn law_line_changes_one_thing(model: VitestModel, line: VitestFacts)
    requires
        model.open is None || line.text.len() == 0 || line.text[0] != '\u{2192}',
    ensures
        ({
            let after = after_line(model, line);
            let same_counts = after.failed == model.failed && after.skipped == model.skipped
                && after.passed == model.passed && after.total == model.total;
            let same_time = after.duration_ms == model.duration_ms;
            let cross = line.text.len() > 0 && line.text[0] == '\u{d7}';
            &&& line.tests matches Some(groups) ==> {
                &&& after.failed == group_count_of(groups, 1)
                &&& after.skipped == group_count_of(groups, 2)
                &&& after.passed == group_count_of(groups, 3)
                &&& after.total == group_count_of(groups, 4)
                &&& same_time
                &&& after.open is None
            }
            &&& line.tests is None && line.duration is Some ==> same_counts && after.open is None
            &&& line.tests is None && line.duration is None ==> same_counts && same_time
            &&& line.tests is None && line.duration is None && !cross ==> after.open is None
            &&& line.tests is None && line.duration is None && cross ==> {
                &&& after.open is Some
                &&& (after.open->0).0 == trim_of(without_leading(line.text, '\u{d7}'))
                &&& (after.open->0).1.len() == 0
            }
        }),
{
}

/// The summary of the tests gives the counts that it holds in decimal; a count that it
/// leaves out is zero.
pub proof fn law_test_summary_is_counted(
    model: VitestModel,
    line: VitestFacts,
    groups: GroupTexts,
    failed: Option<usize>,
    skipped: Option<usize>,
    passed: usize,
    total: usize,
)
    requires
        model.open is None || line.text.len() == 0 || line.text[0] != '\u{2192}',
        line.tests == Some(groups),
        holds_count(groups, 1, failed),
        holds_count(groups, 2, skipped),
        holds_count(groups, 3, Some(passed)),
        holds_count(groups, 4, Some(total)),
    ensures
        ({
            let after = after_line(model, line);
            &&& failed matches Some(n) ==> after.failed == n
            &&& failed is None ==> after.failed == 0
            &&& skipped matches Some(n) ==> after.skipped == n
            &&& skipped is None ==> after.skipped == 0
            &&& after.passed == passed
            &&& after.total == total
        }),
{
    law_group_counts_what_it_holds(groups, 1, failed);
    law_group_counts_what_it_holds(groups, 2, skipped);
    law_group_counts_what_it_holds(groups, 3, Some(passed));
    law_group_counts_what_it_holds(groups, 4, Some(total));
}

/// The time taken is what its number and its unit stand for, whatever was known before;
/// where the number is none, the time stays as it was.
pub proof fn law_duration_is_recorded(
    model: VitestModel,
    line: VitestFacts,
    groups: GroupTexts,
    number: Seq<char>,
    unit: Seq<char>,
)
    requires
        model.open is None || line.text.len() == 0 || line.text[0] != '\u{2192}',
        line.tests is None,
        line.duration == Some(groups),
        number == group_text_of(groups, 1),
        unit == group_text_of(groups, 2),
    ensures
        duration_of(number, unit) matches Some(millis) ==> {
            &&& after_line(model, line).duration_ms is Some
            &&& after_line(model, line).duration_ms->0 == millis
        },
        duration_of(number, unit) is None ==> after_line(model, line).duration_ms
            == model.duration_ms,
{
    if let Some(millis) = duration_of(number, unit) {
        assert(millis <= u64::MAX);
    }
}

/// There is a report just if a test was counted: its title, and the compact form of the
/// counts, the time and all failures, the one that is being read last.
pub proof fn law_report_holds_all_failures(model: VitestModel)
    ensures
        model.total == 0 ==> final_report(model) is None,
        model.total > 0 ==> final_report(model) == Some(
            "Yarn test (vitest): "@ + compact_form(
                model.passed,
                model.failed,
                model.duration_ms,
                match model.open {
                    None => model.failures,
                    Some((name, errors)) => model.failures.push(
                        FailureText {
                            name,
                            file_path: Seq::empty(),
                            message: joined(errors, "\n"@),
                            stack_trace: None,
                        },
                    ),
                },
            ),
        ),
{
    if model.open is Some {
        let (name, errors) = model.open->0;
        let failure = FailureText {
            name,
            file_path: Seq::empty(),
            message: joined(errors, "\n"@),
            stack_trace: None,
        };
        assert(with_failure_closed(model).failures =~= model.failures.push(failure));
    }
}

/// The compact form of a Vitest output is its report, and where there is none the output
/// itself is passed on.
pub proof fn law_vitest_output_is_its_report(clean: Seq<char>)
    ensures
        ({
            let report = final_report(after_lines(lines_of(clean)));
            &&& report matches Some(text) ==> vitest_output(clean) == text
            &&& report is None ==> vitest_output(clean) == passed_through(clean)
        }),
{
}

/// A report begins with the counts of the tests that passed and failed, and ends in the
/// time where it is known.
pub proof fn law_report_has_its_counts_and_its_time(model: VitestModel)
    requires
        model.total > 0,
    ensures
        final_report(model) is Some,
        ("Yarn test (vitest): PASS ("@ + decimal(model.passed as nat) + ") FAIL ("@ + decimal(
            model.failed as nat,
        ) + ")"@).is_prefix_of(final_report(model)->0),
        model.duration_ms matches Some(millis) ==> ("\n\nTime: "@ + decimal(millis as nat)
            + "ms"@).is_suffix_of(final_report(model)->0),
{
    reveal_strlit("Yarn test (vitest): PASS (");
    reveal_strlit("Yarn test (vitest): ");
    reveal_strlit("PASS (");
    let end = with_failure_closed(model);
    let report = final_report(model)->0;
    law_compact_form_is_written_out(end.passed, end.failed, end.duration_ms, end.failures);
    let form = compact_form(end.passed, end.failed, end.duration_ms, end.failures);
    let counts = "PASS ("@ + decimal(model.passed as nat) + ") FAIL ("@ + decimal(
        model.failed as nat,
    ) + ")"@;
    let head = "Yarn test (vitest): PASS ("@ + decimal(model.passed as nat) + ") FAIL ("@
        + decimal(model.failed as nat) + ")"@;
    let title = "Yarn test (vitest): "@;
    assert(report == title + form);
    assert(head =~= title + counts);
    assert(form.subrange(0, counts.len() as int) =~= counts);
    assert(report.subrange(0, head.len() as int) =~= title + form.subrange(
        0,
        counts.len() as int,
    ));
    if let Some(millis) = model.duration_ms {
        let tail = "\n\nTime: "@ + decimal(millis as nat) + "ms"@;
        let n = tail.len() as int;
        assert(form.subrange(form.len() - n, form.len() as int) =~= tail);
        assert(report.subrange(report.len() - n, report.len() as int) =~= form.subrange(
            form.len() - n,
            form.len() as int,
        ));
    }
}

/// Lines without a summary of the tests leave the counts as they were.
proof fn lemma_counts_stay(before: Seq<Seq<char>>, after: Seq<Seq<char>>)
    requires
        forall|i: int| 0 <= i < after.len() ==> facts_of(#[trigger] after[i]).tests is None,
    ensures
        ({
            let a = after_lines(before);
            let b = after_lines(before + after);
            a.failed == b.failed && a.skipped == b.skipped && a.passed == b.passed && a.total
                == b.total
        }),
    decreases after.len(),
{
    if after.len() == 0 {
        assert(before + after =~= before);
    } else {
        let fewer = after.drop_last();
        assert forall|i: int| 0 <= i < fewer.len() implies facts_of(
            #[trigger] fewer[i],
        ).tests is None by {
            assert(fewer[i] == after[i]);
        }
        lemma_counts_stay(before, fewer);
        assert((before + after).drop_last() =~= before + fewer);
        assert(facts_of(after[after.len() - 1]).tests is None);
    }
}

/// The compact form of a run begins with the counts that its last summary of the tests
/// holds, whatever else was printed.
pub proof fn law_run_begins_with_the_counts_of_its_summary(
    clean: Seq<char>,
    k: int,
    groups: GroupTexts,
    failed: Option<usize>,
    passed: usize,
    total: usize,
)
    requires
        0 <= k < lines_of(clean).len(),
        trim_of(lines_of(clean)[k]).len() > 0 ==> trim_of(lines_of(clean)[k])[0] != '\u{2192}',
        first_match(
            r"Tests\s+(?:(\d+)\s+failed\s*\|\s*)?(?:(\d+)\s+skipped\s*\|\s*)?(\d+)\s+passed\s*\((\d+)\)"@,
            trim_of(lines_of(clean)[k]),
        ) == Some(groups),
        forall|i: int|
            k < i < lines_of(clean).len() ==> first_match(
                r"Tests\s+(?:(\d+)\s+failed\s*\|\s*)?(?:(\d+)\s+skipped\s*\|\s*)?(\d+)\s+passed\s*\((\d+)\)"@,
                trim_of(#[trigger] lines_of(clean)[i]),
            ) is None,
        holds_count(groups, 1, failed),
        holds_count(groups, 3, Some(passed)),
        holds_count(groups, 4, Some(total)),
        total > 0,
    ensures
        ("Yarn test (vitest): PASS ("@ + decimal(passed as nat) + ") FAIL ("@ + decimal(
            match failed {
                Some(n) => n as nat,
                None => 0,
            },
        ) + ")"@).is_prefix_of(vitest_output(clean)),
{
    let list = lines_of(clean);
    let before = list.take(k);
    let line = list[k];
    let after = list.skip(k + 1);
    let upto = before.push(line);
    assert(list =~= upto + after);
    law_lines_are_read_one_by_one(before, line);
    law_group_counts_what_it_holds(groups, 1, failed);
    law_group_counts_what_it_holds(groups, 3, Some(passed));
    law_group_counts_what_it_holds(groups, 4, Some(total));
    assert forall|i: int| 0 <= i < after.len() implies facts_of(
        #[trigger] after[i],
    ).tests is None by {
        assert(after[i] == list[k + 1 + i]);
    }
    lemma_counts_stay(upto, after);
    law_report_has_its_counts_and_its_time(after_lines(list));
}

/// Lines without a time leave the time as it was.
proof fn lemma_time_stays(before: Seq<Seq<char>>, after: Seq<Seq<char>>)
    requires
        forall|i: int| 0 <= i < after.len() ==> facts_of(#[trigger] after[i]).duration is None,
    ensures
        after_lines(before + after).duration_ms == after_lines(before).duration_ms,
    decreases after.len(),
{
    if after.len() == 0 {
        assert(before + after =~= before);
    } else {
        let fewer = after.drop_last();
        assert forall|i: int| 0 <= i < fewer.len() implies facts_of(
            #[trigger] fewer[i],
        ).duration is None by {
            assert(fewer[i] == after[i]);
        }
        lemma_time_stays(before, fewer);
        assert((before + after).drop_last() =~= before + fewer);
        assert(facts_of(after[after.len() - 1]).duration is None);
    }
}

/// The compact form of a run in which tests were counted ends in the time that its last
/// line of the time stands for, in milliseconds.
pub proof fn law_run_ends_in_the_time_of_its_last_line(
    clean: Seq<char>,
    k: int,
    groups: GroupTexts,
    number: Seq<char>,
    unit: Seq<char>,
)
    requires
        0 <= k < lines_of(clean).len(),
        after_lines(lines_of(clean)).total > 0,
        trim_of(lines_of(clean)[k]).len() > 0 ==> trim_of(lines_of(clean)[k])[0] != '\u{2192}',
        facts_of(lines_of(clean)[k]).tests is None,
        first_match(r"Duration\s+([\d.]+)(ms|s)"@, trim_of(lines_of(clean)[k])) == Some(groups),
        forall|i: int|
            k < i < lines_of(clean).len() ==> first_match(
                r"Duration\s+([\d.]+)(ms|s)"@,
                trim_of(#[trigger] lines_of(clean)[i]),
            ) is None,
        groups.len() > 2,
        groups[1] == Some(number),
        groups[2] == Some(unit),
        duration_of(number, unit) is Some,
    ensures
        ("\n\nTime: "@ + decimal(duration_of(number, unit)->0) + "ms"@).is_suffix_of(
            vitest_output(clean),
        ),
{
    let list = lines_of(clean);
    let before = list.take(k);
    let line = list[k];
    let after = list.skip(k + 1);
    let upto = before.push(line);
    assert(list =~= upto + after);
    law_lines_are_read_one_by_one(before, line);
    law_duration_is_recorded(after_lines(before), facts_of(line), groups, number, unit);
    assert forall|i: int| 0 <= i < after.len() implies facts_of(
        #[trigger] after[i],
    ).duration is None by {
        assert(after[i] == list[k + 1 + i]);
    }
    lemma_time_stays(upto, after);
    law_report_has_its_counts_and_its_time(after_lines(list));
}

/// Whole seconds are reported as a thousand milliseconds each, however many there are.
pub proof fn law_whole_seconds_end_the_report(
    model: VitestModel,
    line: VitestFacts,
    groups: GroupTexts,
    seconds: nat,
)
    requires
        model.open is None || line.text.len() == 0 || line.text[0] != '\u{2192}',
        model.total > 0,
        line.tests is None,
        line.duration == Some(groups),
        groups.len() > 2,
        groups[1] == Some(decimal(seconds)),
        groups[2] == Some("s"@),
        seconds * 1000 < 0x20_0000_0000_0000,
    ensures
        after_line(model, line).duration_ms is Some,
        after_line(model, line).duration_ms->0 == seconds * 1000,
        final_report(after_line(model, line)) is Some,
        ("\n\nTime: "@ + decimal(seconds * 1000) + "ms"@).is_suffix_of(
            final_report(after_line(model, line))->0,
        ),
{
    law_written_seconds_are_exact(seconds);
    law_duration_is_recorded(model, line, groups, decimal(seconds), "s"@);
    law_report_has_its_counts_and_its_time(after_line(model, line));
}

/// A failure stands for its four fields, and a list of failures for its failures, one by
/// one.
pub proof fn law_failures_stand_for_their_fields(list: Seq<TestFailure>, i: int)
    requires
        0 <= i < list.len(),
    ensures
        failure_texts(list).len() == list.len(),
        failure_texts(list)[i] == list[i]@,
        list[i]@.name == list[i].test_name@,
        list[i]@.file_path == list[i].file_path@,
        list[i]@.message == list[i].error_message@,
        list[i]@.stack_trace == optional_text(list[i].stack_trace),
{
}

/// A parser stands for what its fields hold, and so does a line.
pub proof fn law_parser_stands_for_its_fields(
    parser: VitestParser,
    line: VitestLine,
    open: OpenFailure,
)
    ensures
        parser@.failed == parser.failed,
        parser@.skipped == parser.skipped,
        parser@.passed == parser.passed,
        parser@.total == parser.total,
        parser@.duration_ms == parser.duration_ms,
        parser@.failures == failure_texts(parser.failures@),
        parser.open is None ==> parser@.open is None,
        parser.open == Some(open) ==> parser@.open == Some(
            (open.test_name@, texts(open.errors@)),
        ),
        line@.text == line.text@,
        line.tests is None ==> line@.tests is None,
        line.tests matches Some(groups) ==> line@.tests == Some(groups@),
        line.duration is None ==> line@.duration is None,
        line.duration matches Some(groups) ==> line@.duration == Some(groups@),
{
}

} // verus!
