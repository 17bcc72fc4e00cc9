//! Laws of the reading of Vitest output.

use crate::laws::text::{law_joined_text_holds_its_parts, law_piece_of_a_piece_is_a_piece};
use crate::pattern::GroupTexts;
use crate::test_result::{
    compact_failure_lines, compact_failures, compact_form, compact_head, FailureText,
    COMPACT_FAILURES,
};
use crate::text::{decimal, lines_of, occurs_at, occurs_in};
use crate::vitest::{
    after_line, after_lines, failure_of, final_report, is_marked, unmarked, vitest_output,
    with_failure_closed, VitestFacts, VitestModel, ERROR_MARK, FAILED_MARK,
};
use vstd::prelude::*;

verus! {

/// A failure that is complete stays.
pub proof fn law_nothing_read_is_lost(model: VitestModel, line: VitestFacts)
    ensures
        model.failures.is_prefix_of(after_line(model, line).failures),
{
    let after = after_line(model, line);
    assert(after.failures.subrange(0, model.failures.len() as int) == model.failures);
}

/// A line that matches nothing and has no mark changes nothing, unless a failure
/// is being read.
pub proof fn law_plain_line_changes_nothing(model: VitestModel, line: VitestFacts)
    requires
        model.open is None,
        line.tests is None,
        line.duration is None,
        !is_marked(line.text, FAILED_MARK),
    ensures
        after_line(model, line) == model,
{
}

/// An error line behind a failed test belongs to its message, even where it
/// matches a summary: the counts and the time stay as they were.
pub proof fn law_error_line_is_no_summary(model: VitestModel, line: VitestFacts)
    requires
        model.open is Some,
        is_marked(line.text, ERROR_MARK),
    ensures
        ({
            let after = after_line(model, line);
            let (name, errors) = model.open->0;
            &&& after.open == Some((name, errors.push(unmarked(line.text, ERROR_MARK))))
            &&& after == (VitestModel { open: after.open, ..model })
        }),
{
}

/// The first line without the mark of an error completes the failure that was
/// being read.
pub proof fn law_next_line_completes_the_failure(model: VitestModel, line: VitestFacts)
    requires
        model.open is Some,
        !is_marked(line.text, ERROR_MARK),
    ensures
        ({
            let (name, errors) = model.open->0;
            after_line(model, line).failures == model.failures.push(failure_of(name, errors))
        }),
{
}

/// Of two summaries of the tests the later counts.
pub proof fn law_later_summary_counts(
    model: VitestModel,
    text: Seq<char>,
    first: GroupTexts,
    second: GroupTexts,
)
    requires
        !is_marked(text, ERROR_MARK),
    ensures
        ({
            let a = VitestFacts { text, tests: Some(first), duration: None };
            let b = VitestFacts { text, tests: Some(second), duration: None };
            after_line(after_line(model, a), b) == after_line(model, b)
        }),
{
}

/// The lines of the compact form.
spec fn compact_lines(
    passed: usize,
    failed: usize,
    duration_ms: Option<u64>,
    failures: Seq<FailureText>,
) -> Seq<Seq<char>> {
    let list = seq![compact_head(passed, failed)] + compact_failure_lines(failures);
    match duration_ms {
        Some(duration) => list.push("\nTime: "@ + decimal(duration as nat) + "ms"@),
        None => list,
    }
}

/// The line with the name of failure `i`.
proof fn lemma_named(failures: Seq<FailureText>, n: nat, i: int)
    requires
        0 <= i < n,
    ensures
        compact_failures(failures, n).len() == 2 * n,
        compact_failures(failures, n)[2 * i] == decimal((i + 1) as nat) + ". "@ + failures[i].name,
    decreases n,
{
    let shorter = compact_failures(failures, (n - 1) as nat);
    if n > 1 {
        lemma_named(
            failures,
            (n - 1) as nat,
            if i < n - 1 {
                i
            } else {
                0
            },
        );
    }
    assert(shorter.len() == 2 * (n - 1));
}

/// The compact form begins with how many tests passed and failed.
pub proof fn law_compact_form_is_headed_by_its_counts(
    passed: usize,
    failed: usize,
    duration_ms: Option<u64>,
    failures: Seq<FailureText>,
)
    ensures
        compact_head(passed, failed).is_prefix_of(
            compact_form(passed, failed, duration_ms, failures),
        ),
{
    let list = compact_lines(passed, failed, duration_ms, failures);
    law_joined_text_holds_its_parts(list, "\n"@, 0);
    assert(list[0] == compact_head(passed, failed));
}

/// The name of each failure that is to be shown stands in the compact form.
pub proof fn law_shown_failure_is_named(
    passed: usize,
    failed: usize,
    duration_ms: Option<u64>,
    failures: Seq<FailureText>,
    i: int,
)
    requires
        0 <= i < failures.len(),
        i < COMPACT_FAILURES,
    ensures
        occurs_in(failures[i].name, compact_form(passed, failed, duration_ms, failures)),
{
    let list = compact_lines(passed, failed, duration_ms, failures);
    let shown = if failures.len() <= COMPACT_FAILURES {
        failures.len()
    } else {
        COMPACT_FAILURES as nat
    };
    lemma_named(failures, shown, i);
    let number = decimal((i + 1) as nat) + ". "@;
    let name = failures[i].name;
    let line = number + name;
    assert(list[2 + 2 * i] == line);
    law_joined_text_holds_its_parts(list, "\n"@, 2 + 2 * i);
    let at = number.len() as int;
    assert(line.subrange(at, at + name.len()) =~= name);
    assert(occurs_at(name, line, at));
    law_piece_of_a_piece_is_a_piece(
        name,
        line,
        compact_form(passed, failed, duration_ms, failures),
    );
}

/// Where tests were counted, the name of each of the first tests that failed
/// stands in the report.
pub proof fn law_failed_tests_are_named(model: VitestModel, i: int)
    requires
        model.total > 0,
        0 <= i < with_failure_closed(model).failures.len(),
        i < COMPACT_FAILURES,
    ensures
        final_report(model) is Some,
        occurs_in(with_failure_closed(model).failures[i].name, final_report(model)->0),
{
    let end = with_failure_closed(model);
    law_shown_failure_is_named(end.passed, end.failed, end.duration_ms, end.failures, i);
    let form = compact_form(end.passed, end.failed, end.duration_ms, end.failures);
    let title = "Yarn test (vitest): "@;
    let report = title + form;
    let at = title.len() as int;
    assert(report.subrange(at, at + form.len()) =~= form);
    assert(occurs_at(form, report, at));
    law_piece_of_a_piece_is_a_piece(end.failures[i].name, form, report);
}

/// Whatever Vitest prints: where it counted tests, the name of each of the first
/// tests that failed stands in the compact form.
pub proof fn law_failed_tests_of_a_run_are_named(clean: Seq<char>, i: int)
    requires
        ({
            let model = after_lines(lines_of(clean));
            &&& model.total > 0
            &&& 0 <= i < with_failure_closed(model).failures.len()
            &&& i < COMPACT_FAILURES
        }),
    ensures
        occurs_in(
            with_failure_closed(after_lines(lines_of(clean))).failures[i].name,
            vitest_output(clean),
        ),
{
    law_failed_tests_are_named(after_lines(lines_of(clean)), i);
}

} // verus!
