//! Laws of the reading of Jest output and of its report.

use crate::jest::{
    after_line, after_lines, facts_of, is_marked, jest_output, with_failure_closed, JestFacts,
    JestModel, ParseState, FAILURE_LINE_LIMIT,
};
use crate::jest_report::{
    any_failed, failure_head, failure_list, numbered, test_report, with_skipped, with_suites,
    with_time, JestTally, SHOWN_FAILURES,
};
use crate::laws::text::{
    is_trimmed, law_shortened_text_fits, law_trim_keeps_solid_head, law_trim_leaves_no_space,
    lemma_joined_one,
};
use crate::noise::{is_noise, without_noise};
use crate::pattern::GroupTexts;
use crate::text::{decimal, joined, lines_of, occurs_at, occurs_in, shortened};
use vstd::prelude::*;

verus! {

/// Noise leaves no trace in what is read.
pub proof fn law_noise_is_not_read(list: Seq<Seq<char>>)
    ensures
        after_lines(without_noise(list)) == after_lines(list),
    decreases list.len(),
{
    reveal_with_fuel(Seq::<_>::filter, 1);
    if list.len() > 0 {
        let shorter = list.drop_last();
        law_noise_is_not_read(shorter);
        if !is_noise(list.last()) {
            let kept = without_noise(list);
            assert(kept == without_noise(shorter).push(list.last()));
            assert(kept.drop_last() == without_noise(shorter));
        }
    } else {
        assert(without_noise(list) == list);
    }
}

/// The compact form of a Jest output depends on the lines that are no noise
/// alone.
pub proof fn law_noise_does_not_change_the_report(a: Seq<char>, b: Seq<char>)
    requires
        without_noise(lines_of(a)) == without_noise(lines_of(b)),
    ensures
        jest_output(a) == jest_output(b),
{
    law_noise_is_not_read(lines_of(a));
    law_noise_is_not_read(lines_of(b));
}

/// Whether `text` is not empty and has no white space at its ends.
pub open spec fn is_solid(text: Seq<char>) -> bool {
    text.len() > 0 && is_trimmed(text)
}

/// Whether a line was trimmed before it was matched.
pub open spec fn is_trimmed_line(line: JestFacts) -> bool {
    line matches JestFacts::Other(text, _) ==> is_trimmed(text)
}

/// What holds of every state of the reading: a failure is being read just while
/// the state says so, a suite was found just if a result is recorded, no line of
/// a failure is longer than the limit, and neither a line of a failure nor a whole
/// one is empty or has white space at its ends.
pub open spec fn is_consistent(model: JestModel) -> bool {
    &&& model.state == ParseState::Failures <==> model.current.len() > 0
    &&& model.found_any_suite <==> model.suites.len() > 0
    &&& model.state == ParseState::TestSection ==> model.found_any_suite
    &&& model.state == ParseState::Failures ==> model.found_any_suite
    &&& model.failures.len() > 0 ==> model.found_any_suite
    &&& forall|i: int|
        0 <= i < model.current.len() ==> is_solid(#[trigger] model.current[i])
            && model.current[i].len() <= FAILURE_LINE_LIMIT
    &&& forall|i: int| 0 <= i < model.failures.len() ==> is_solid(#[trigger] model.failures[i])
}

/// A shortened line stays solid.
proof fn lemma_shortened_is_solid(text: Seq<char>)
    requires
        is_solid(text),
    ensures
        is_solid(shortened(text, FAILURE_LINE_LIMIT as nat)),
        shortened(text, FAILURE_LINE_LIMIT as nat).len() <= FAILURE_LINE_LIMIT,
{
    law_shortened_text_fits(text, FAILURE_LINE_LIMIT as nat);
    reveal_strlit("...");
    let short = shortened(text, FAILURE_LINE_LIMIT as nat);
    if text.len() > FAILURE_LINE_LIMIT {
        assert(short[0] == text[0]);
        assert(short.last() == '.');
    }
}

/// Solid lines, joined, are solid.
proof fn lemma_joined_is_solid(list: Seq<Seq<char>>)
    requires
        list.len() > 0,
        forall|i: int| 0 <= i < list.len() ==> is_solid(#[trigger] list[i]),
    ensures
        is_solid(joined(list, "\n"@)),
    decreases list.len(),
{
    let text = joined(list, "\n"@);
    let last = list.last();
    assert(is_solid(list[list.len() - 1]));
    if list.len() == 1 {
        lemma_joined_one(list, "\n"@);
    } else {
        let shorter = list.drop_last();
        assert forall|i: int| 0 <= i < shorter.len() implies is_solid(#[trigger] shorter[i]) by {
            assert(shorter[i] == list[i]);
        }
        lemma_joined_is_solid(shorter);
        let front = joined(shorter, "\n"@);
        assert(text == front + "\n"@ + last);
        assert(text[0] == front[0]);
        assert(text.last() == last.last());
    }
}

/// Completing a failure keeps the failures solid.
proof fn lemma_closed_failures_are_solid(model: JestModel)
    requires
        is_consistent(model),
    ensures
        forall|i: int|
            0 <= i < with_failure_closed(model).failures.len() ==> is_solid(
                #[trigger] with_failure_closed(model).failures[i],
            ),
{
    if model.current.len() > 0 {
        lemma_joined_is_solid(model.current);
        let failure = joined(model.current, "\n"@);
        let all = with_failure_closed(model).failures;
        assert forall|i: int| 0 <= i < all.len() implies is_solid(#[trigger] all[i]) by {
            if i < model.failures.len() {
                assert(all[i] == model.failures[i]);
            } else {
                assert(all[i] == failure);
            }
        }
    }
}

/// Every trimmed line keeps the state consistent.
pub proof fn law_line_keeps_consistency(model: JestModel, line: JestFacts)
    requires
        is_consistent(model),
        is_trimmed_line(line),
    ensures
        is_consistent(after_line(model, line)),
{
    lemma_closed_failures_are_solid(model);
    reveal_strlit("FAIL ");
    if let JestFacts::Other(text, suite) = line {
        if text.len() > 0 {
            lemma_shortened_is_solid(text);
        }
    }
}

/// The state is consistent after any lines.
pub proof fn law_reading_is_consistent(list: Seq<Seq<char>>)
    ensures
        is_consistent(after_lines(list)),
    decreases list.len(),
{
    if list.len() > 0 {
        law_reading_is_consistent(list.drop_last());
        law_trim_leaves_no_space(list.last());
        law_line_keeps_consistency(after_lines(list.drop_last()), facts_of(list.last()));
    }
}

/// A failure that is complete stays, and so does the record of a suite.
pub proof fn law_nothing_read_is_lost(model: JestModel, line: JestFacts)
    ensures
        model.failures.is_prefix_of(after_line(model, line).failures),
        model.suites.is_prefix_of(after_line(model, line).suites),
        model.found_any_suite ==> after_line(model, line).found_any_suite,
{
    let after = after_line(model, line);
    assert(after.failures.subrange(0, model.failures.len() as int) == model.failures);
    assert(after.suites.subrange(0, model.suites.len() as int) == model.suites);
}

/// After the summary of the suites nothing opens or closes a failure and no
/// suite is recorded: only the counts and the time can change.
pub proof fn law_summary_is_final(model: JestModel, line: JestFacts)
    requires
        is_consistent(model),
        model.state == ParseState::Summary,
    ensures
        ({
            let after = after_line(model, line);
            &&& after.state == ParseState::Summary
            &&& after.failures == model.failures
            &&& after.current == model.current
            &&& after.suites == model.suites
            &&& after.found_any_suite == model.found_any_suite
        }),
{
}

/// Of two summaries of the tests, or of the suites, the later counts.
pub proof fn law_later_summary_counts(model: JestModel, first: GroupTexts, second: GroupTexts)
    ensures
        after_line(after_line(model, JestFacts::Tests(first)), JestFacts::Tests(second))
            == after_line(model, JestFacts::Tests(second)),
        after_line(after_line(model, JestFacts::Suites(first)), JestFacts::Suites(second))
            == after_line(model, JestFacts::Suites(second)),
{
}

/// A line with the mark of a failure behind a suite's result opens a failure, and
/// each line behind it belongs to it, shortened, until a mark, a suite or a summary
/// comes.
pub proof fn law_failure_takes_its_lines(model: JestModel, mark: Seq<char>, line: Seq<char>)
    requires
        is_consistent(model),
        model.state == ParseState::TestSection,
        is_marked(mark),
        line.len() > 0,
        !is_marked(line),
    ensures
        ({
            let opened = after_line(model, JestFacts::Other(mark, None));
            let limit = FAILURE_LINE_LIMIT as nat;
            &&& opened.state == ParseState::Failures
            &&& opened.current == seq![shortened(mark, limit)]
            &&& after_line(opened, JestFacts::Other(line, None)).current == seq![
                shortened(mark, limit),
                shortened(line, limit),
            ]
        }),
{
    let opened = after_line(model, JestFacts::Other(mark, None));
    let limit = FAILURE_LINE_LIMIT as nat;
    assert(model.current =~= seq![]);
    assert(opened.current =~= seq![shortened(mark, limit)]);
}

/// A report begins with the mark of success just if no test and no suite failed.
pub proof fn law_success_mark_means_no_failure(tally: JestTally, failures: Seq<Seq<char>>)
    ensures
        "ok Yarn test: "@.is_prefix_of(test_report(tally, failures)) <==> !any_failed(tally),
{
    reveal_strlit("ok Yarn test: ");
    let mark = "ok Yarn test: "@;
    if any_failed(tally) {
        law_failed_run_is_headed_by_its_counts(tally, failures);
        let head = failure_head(tally);
        let report = test_report(tally, failures);
        lemma_failure_head(tally);
        assert(head[0] == report.subrange(0, head.len() as int)[0]);
        assert(report[0] == 'Y');
        if mark.is_prefix_of(report) {
            assert(mark[0] == report.subrange(0, mark.len() as int)[0]);
        }
    } else {
        let counts = mark + decimal(tally.tests_passed as nat) + " passed"@;
        let report = test_report(tally, failures);
        law_successful_run_is_headed_by_its_count(tally, failures);
        assert(report.subrange(0, mark.len() as int) =~= mark) by {
            assert(counts.is_prefix_of(report));
            assert(counts =~= report.subrange(0, counts.len() as int));
            assert forall|i: int| 0 <= i < mark.len() implies report[i] == mark[i] by {
                assert(report.subrange(0, counts.len() as int)[i] == counts[i]);
            }
        }
    }
}

/// The report of a run without failures begins with how many tests passed.
pub proof fn law_successful_run_is_headed_by_its_count(
    tally: JestTally,
    failures: Seq<Seq<char>>,
)
    requires
        !any_failed(tally),
    ensures
        ("ok Yarn test: "@ + decimal(tally.tests_passed as nat) + " passed"@).is_prefix_of(
            test_report(tally, failures),
        ),
{
    lemma_notes_append(
        "ok Yarn test: "@ + decimal(tally.tests_passed as nat) + " passed"@,
        tally,
    );
}

/// The notes of a report stand behind what comes before them.
proof fn lemma_notes_append(text: Seq<char>, tally: JestTally)
    ensures
        text.is_prefix_of(with_skipped(text, tally.tests_skipped)),
        text.is_prefix_of(
            with_time(
                with_suites(with_skipped(text, tally.tests_skipped), tally.suites_total),
                tally.time,
            ),
        ),
{
    let a = with_skipped(text, tally.tests_skipped);
    let b = with_suites(a, tally.suites_total);
    let c = with_time(b, tally.time);
    let n = text.len() as int;
    assert(a.subrange(0, n) =~= text);
    assert(b.subrange(0, n) =~= text);
    assert(c.subrange(0, n) =~= text);
}

/// The head of a failure report begins with its letter and ends in a bracket.
proof fn lemma_failure_head(tally: JestTally)
    ensures
        failure_head(tally).len() > 0,
        failure_head(tally)[0] == 'Y',
        is_trimmed(failure_head(tally)),
{
    reveal_strlit("Yarn test: ");
    reveal_strlit(" total)");
    reveal_strlit("]");
    let counts = "Yarn test: "@ + decimal(tally.tests_failed as nat) + " failed, "@ + decimal(
        tally.tests_passed as nat,
    ) + " passed"@;
    let skipped = with_skipped(counts, tally.tests_skipped);
    let total = skipped + " ("@ + decimal(tally.tests_total as nat) + " total)"@;
    assert(counts[0] == 'Y');
    assert(skipped[0] == 'Y');
    assert(total[0] == 'Y');
    assert(total.last() == ')');
    let head = failure_head(tally);
    assert(head[0] == 'Y');
    assert(head.last() == ')' || head.last() == ']');
}

/// The report of a run with failures begins with its counts in full.
pub proof fn law_failed_run_is_headed_by_its_counts(tally: JestTally, failures: Seq<Seq<char>>)
    requires
        any_failed(tally),
    ensures
        failure_head(tally).is_prefix_of(test_report(tally, failures)),
{
    let head = failure_head(tally);
    let tail = seq!['\n'] + failure_list(failures);
    lemma_failure_head(tally);
    law_trim_keeps_solid_head(head, tail);
    assert(head.push('\n') + failure_list(failures) =~= head + tail);
}

/// Where failures were read, the report of a run with failures has the list of
/// them behind its counts.
pub proof fn law_failures_are_listed(tally: JestTally, failures: Seq<Seq<char>>)
    requires
        any_failed(tally),
        failures.len() > 0,
    ensures
        (failure_head(tally) + "\n\nFAILURES:"@).is_prefix_of(test_report(tally, failures)),
{
    reveal_strlit("\n\nFAILURES:");
    reveal_strlit("\nFAILURES:\n");
    lemma_failure_head(tally);
    let solid = failure_head(tally) + "\n\nFAILURES:"@;
    let title = "\nFAILURES:\n"@;
    let list = failure_list(failures);
    let rest = list.skip(title.len() - 1);
    assert(list.subrange(0, title.len() as int) =~= title);
    assert(failure_head(tally).push('\n') + list =~= solid + rest) by {
        assert forall|i: int| 0 <= i < title.len() implies list[i] == title[i] by {
            assert(list.subrange(0, title.len() as int)[i] == title[i]);
        }
    }
    law_trim_keeps_solid_head(solid, rest);
}

/// Of more failures than are shown the first are listed as if there were no
/// others, and the others are counted.
pub proof fn law_further_failures_are_counted(failures: Seq<Seq<char>>)
    requires
        failures.len() > SHOWN_FAILURES,
    ensures
        failure_list(failures) == failure_list(failures.take(SHOWN_FAILURES as int)) + "\n... +"@
            + decimal((failures.len() - SHOWN_FAILURES) as nat) + " more failures\n"@,
{
    lemma_numbered_take(failures, SHOWN_FAILURES as nat, SHOWN_FAILURES as nat);
}

proof fn lemma_numbered_take(failures: Seq<Seq<char>>, shown: nat, n: nat)
    requires
        n <= shown <= failures.len(),
    ensures
        numbered(failures.take(shown as int), n) == numbered(failures, n),
    decreases n,
{
    if n > 0 {
        lemma_numbered_take(failures, shown, (n - 1) as nat);
    }
}

/// The list of the first failures begins with the list of fewer.
proof fn lemma_numbered_grows(failures: Seq<Seq<char>>, m: nat, n: nat)
    requires
        m <= n,
    ensures
        numbered(failures, m).is_prefix_of(numbered(failures, n)),
    decreases n,
{
    let a = numbered(failures, m);
    let b = numbered(failures, n);
    if m < n {
        let c = numbered(failures, (n - 1) as nat);
        lemma_numbered_grows(failures, m, (n - 1) as nat);
        assert forall|i: int| 0 <= i < a.len() implies b[i] == a[i] by {
            assert(b[i] == c[i]);
            lemma_prefix_index(a, c, i);
        }
        assert(b.subrange(0, a.len() as int) =~= a);
    } else {
        assert(b.subrange(0, a.len() as int) =~= a);
    }
}

/// What the list of the failures has in front of failure `i`.
spec fn before_failure(failures: Seq<Seq<char>>, i: int) -> Seq<char> {
    "\nFAILURES:\n"@ + (numbered(failures, i as nat) + decimal((i + 1) as nat) + ". "@)
}

/// A piece of a prefix is where it was.
proof fn lemma_prefix_index(prefix: Seq<char>, text: Seq<char>, k: int)
    requires
        prefix.is_prefix_of(text),
        0 <= k < prefix.len(),
    ensures
        text[k] == prefix[k],
{
    assert(text.subrange(0, prefix.len() as int)[k] == text[k]);
}

/// The list of the failures begins with what is in front of failure `i` and with
/// that failure.
proof fn lemma_list_reaches(failures: Seq<Seq<char>>, i: int)
    requires
        0 <= i < failures.len(),
        i < SHOWN_FAILURES,
    ensures
        (before_failure(failures, i) + failures[i]).is_prefix_of(failure_list(failures)),
{
    let shown = if failures.len() <= SHOWN_FAILURES {
        failures.len()
    } else {
        SHOWN_FAILURES as nat
    };
    let title = "\nFAILURES:\n"@;
    let list = failure_list(failures);
    let upto = numbered(failures, (i + 1) as nat);
    let all = numbered(failures, shown);
    let shorter = numbered(failures, i as nat) + decimal((i + 1) as nat) + ". "@;
    let part = before_failure(failures, i) + failures[i];
    lemma_numbered_grows(failures, (i + 1) as nat, shown);
    assert(upto == shorter + failures[i] + "\n"@);
    assert forall|k: int| 0 <= k < part.len() implies list[k] == part[k] by {
        assert(list[k] == (title + all)[k]);
        if k >= title.len() {
            let j = k - title.len();
            lemma_prefix_index(upto, all, j);
            assert(upto[j] == (shorter + failures[i])[j]);
        }
    }
    assert(list.len() >= title.len() + all.len());
    assert(list.subrange(0, part.len() as int) =~= part);
}

/// Each failure that is to be shown stands in the report of a run with failures.
pub proof fn law_shown_failure_is_in_the_report(
    tally: JestTally,
    failures: Seq<Seq<char>>,
    i: int,
)
    requires
        any_failed(tally),
        0 <= i < failures.len(),
        i < SHOWN_FAILURES,
        is_solid(failures[i]),
    ensures
        occurs_in(failures[i], test_report(tally, failures)),
{
    let failure = failures[i];
    let front = failure_head(tally).push('\n') + before_failure(failures, i);
    let solid = front + failure;
    let list = failure_list(failures);
    let part = before_failure(failures, i) + failure;
    let rest = list.skip(part.len() as int);
    lemma_list_reaches(failures, i);
    assert(list =~= part + rest) by {
        assert(list.subrange(0, part.len() as int) == part);
        assert(list =~= list.subrange(0, part.len() as int) + rest);
    }
    assert(failure_head(tally).push('\n') + list =~= solid + rest);
    lemma_failure_head(tally);
    assert(solid[0] == 'Y');
    assert(solid.last() == failure.last());
    law_trim_keeps_solid_head(solid, rest);
    lemma_tail_of_prefix_occurs(front, failure, test_report(tally, failures));
}

/// The end of a prefix occurs.
proof fn lemma_tail_of_prefix_occurs(front: Seq<char>, tail: Seq<char>, text: Seq<char>)
    requires
        (front + tail).is_prefix_of(text),
    ensures
        occurs_in(tail, text),
{
    let at = front.len() as int;
    assert forall|k: int| 0 <= k < tail.len() implies text[at + k] == tail[k] by {
        lemma_prefix_index(front + tail, text, at + k);
    }
    assert(text.subrange(at, at + tail.len()) =~= tail);
    assert(occurs_at(tail, text, at));
}

/// Whatever Jest prints: where its counts say that something failed, each of the
/// first failures that were read stands in the compact form.
pub proof fn law_failures_of_a_run_are_shown(clean: Seq<char>, i: int)
    requires
        ({
            let end = with_failure_closed(after_lines(lines_of(clean)));
            &&& any_failed(end.tally)
            &&& 0 <= i < end.failures.len()
            &&& i < SHOWN_FAILURES
        }),
    ensures
        occurs_in(
            with_failure_closed(after_lines(lines_of(clean))).failures[i],
            jest_output(clean),
        ),
{
    let model = after_lines(lines_of(clean));
    law_reading_is_consistent(lines_of(clean));
    lemma_closed_failures_are_solid(model);
    let end = with_failure_closed(model);
    assert(is_solid(end.failures[i]));
    assert(end.found_any_suite);
    law_shown_failure_is_in_the_report(end.tally, end.failures, i);
}

} // verus!
