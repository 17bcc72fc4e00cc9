//! Laws of the whole: what the compact form of an output depends on.

use crate::ansi::without_escapes;
use crate::jest::jest_output;
use crate::laws::jest::law_noise_does_not_change_the_report;
use crate::laws::noise::{law_line_is_passed_on, law_other_errors_are_no_noise};
use crate::laws::text::{law_lines_before_stay, law_lines_behind_stay};
use crate::noise::{is_noise, passed_through, without_noise};
use crate::pattern::first_match;
use crate::runner::{any_suite_result, is_suite_result, runner_given, runner_of, TestRunner};
use crate::text::{joined, lines_of, occurs_at, occurs_in, small_letters, trim_of};
use crate::vitest::vitest_output;
use crate::yarn::{runner_output, says_no_tests, yarn_test_output};
use vstd::prelude::*;

verus! {

/// Escape sequences do not matter.
pub proof fn law_escape_sequences_do_not_matter(a: Seq<char>, b: Seq<char>)
    requires
        without_escapes(a) == without_escapes(b),
    ensures
        yarn_test_output(a) == yarn_test_output(b),
{
}

/// The summary of Jest's suites, or the result of one of them, means Jest,
/// whatever else the output says.
pub proof fn law_jest_comes_first(output: Seq<char>)
    requires
        occurs_in("Test Suites:"@, output) || any_suite_result(lines_of(output)),
    ensures
        runner_of(output) == TestRunner::Jest,
{
}

/// An output of Jest stays one, whatever lines come before or behind it.
pub proof fn law_further_lines_keep_jest(before: Seq<char>, output: Seq<char>, after: Seq<char>)
    requires
        runner_of(output) == TestRunner::Jest,
    ensures
        runner_of(before + seq!['\n'] + output) == TestRunner::Jest,
        runner_of(output + seq!['\n'] + after) == TestRunner::Jest,
{
    let mark = "Test Suites:"@;
    let late = before + seq!['\n'] + output;
    let early = output + seq!['\n'] + after;
    if occurs_in(mark, output) {
        let at = choose|at: int| occurs_at(mark, output, at);
        let shift = before.len() + 1;
        assert(late.subrange(shift + at, shift + at + mark.len()) =~= output.subrange(
            at,
            at + mark.len(),
        ));
        assert(occurs_at(mark, late, shift + at));
        assert(early.subrange(at, at + mark.len()) =~= output.subrange(at, at + mark.len()));
        assert(occurs_at(mark, early, at));
    } else {
        let own = lines_of(output);
        let i = choose|i: int| 0 <= i < own.len() && is_suite_result(#[trigger] own[i]);
        law_lines_before_stay(output, after, i);
        assert(is_suite_result(lines_of(early)[i]));
        law_lines_behind_stay(before, output);
        let all = lines_of(late);
        let skipped = all.len() - own.len();
        assert(all.subrange(skipped, all.len() as int)[i] == all[skipped + i]);
        assert(is_suite_result(all[skipped + i]));
    }
}

/// Noise does not matter: two outputs of Jest, or of no known runner, with the
/// same lines but for noise have the same compact form, where neither says that
/// there are no tests.
pub proof fn law_noise_does_not_matter(a: Seq<char>, b: Seq<char>)
    requires
        without_noise(lines_of(without_escapes(a))) == without_noise(
            lines_of(without_escapes(b)),
        ),
        runner_of(without_escapes(a)) == runner_of(without_escapes(b)),
        runner_of(without_escapes(a)) != TestRunner::Vitest,
        runner_of(without_escapes(a)) == TestRunner::Unknown ==> !says_no_tests(without_escapes(a))
            && !says_no_tests(without_escapes(b)),
    ensures
        yarn_test_output(a) == yarn_test_output(b),
{
    law_noise_does_not_change_the_report(without_escapes(a), without_escapes(b));
}

/// The runner is told by what the output holds: Jest by its summary of the suites or by the
/// result of a suite on a line, else Vitest by two words of its own together, and no runner
/// by anything else.
pub proof fn law_runner_is_told_by_its_words(output: Seq<char>)
    ensures
        ({
            let jest = occurs_in("Test Suites:"@, output) || exists|i: int|
                0 <= i < lines_of(output).len() && first_match(
                    r"^\s*(PASS|FAIL)\s+(.+)$"@,
                    trim_of(#[trigger] lines_of(output)[i]),
                ) is Some;
            let vitest = occurs_in("Test Files"@, output) && occurs_in("Duration"@, output);
            &&& runner_of(output) == TestRunner::Jest <==> jest
            &&& runner_of(output) == TestRunner::Vitest <==> !jest && vitest
            &&& runner_of(output) == TestRunner::Unknown <==> !jest && !vitest
        }),
{
    let list = lines_of(output);
    if any_suite_result(list) {
        let i = choose|i: int| 0 <= i < list.len() && is_suite_result(#[trigger] list[i]);
        assert(first_match(r"^\s*(PASS|FAIL)\s+(.+)$"@, trim_of(list[i])) is Some);
    }
    if exists|i: int|
        0 <= i < list.len() && first_match(
            r"^\s*(PASS|FAIL)\s+(.+)$"@,
            trim_of(#[trigger] list[i]),
        ) is Some {
        let i = choose|i: int|
            0 <= i < list.len() && first_match(
                r"^\s*(PASS|FAIL)\s+(.+)$"@,
                trim_of(#[trigger] list[i]),
            ) is Some;
        assert(is_suite_result(list[i]));
    }
}

/// Given whether a line is the result of a suite, the runner is told in the same way.
pub proof fn law_runner_is_told_with_the_result_at_hand(output: Seq<char>, suite_result: bool)
    ensures
        suite_result == any_suite_result(lines_of(output)) ==> runner_given(output, suite_result)
            == runner_of(output),
        suite_result ==> runner_given(output, suite_result) == TestRunner::Jest,
        !suite_result && !occurs_in("Test Suites:"@, output) ==> runner_given(output, suite_result)
            == (if occurs_in("Test Files"@, output) && occurs_in("Duration"@, output) {
            TestRunner::Vitest
        } else {
            TestRunner::Unknown
        }),
        occurs_in("Test Suites:"@, output) ==> runner_given(output, suite_result)
            == TestRunner::Jest,
{
}

/// The compact form is that of the runner, of the output without escape sequences; an output
/// of no known runner that says, in capital or small letters, that no tests were found is
/// reported so, and any other is passed on.
pub proof fn law_output_is_read_by_its_runner(output: Seq<char>)
    ensures
        ({
            let clean = without_escapes(output);
            let compact = yarn_test_output(output);
            let none = occurs_in("no tests found"@, small_letters(clean));
            &&& runner_of(clean) == TestRunner::Jest ==> compact == jest_output(clean)
            &&& runner_of(clean) == TestRunner::Vitest ==> compact == vitest_output(clean)
            &&& runner_of(clean) == TestRunner::Unknown && none ==> compact
                == "Yarn test: No tests found"@
            &&& runner_of(clean) == TestRunner::Unknown && !none ==> compact == passed_through(clean)
        }),
{
}

/// An output whose runner is known otherwise is read in the same way.
pub proof fn law_output_is_read_as_that_of_the_runner(runner: TestRunner, clean: Seq<char>)
    ensures
        runner == TestRunner::Jest ==> runner_output(runner, clean) == jest_output(clean),
        runner == TestRunner::Vitest ==> runner_output(runner, clean) == vitest_output(clean),
        runner == TestRunner::Unknown && occurs_in("no tests found"@, small_letters(clean))
            ==> runner_output(runner, clean) == "Yarn test: No tests found"@,
        runner == TestRunner::Unknown && !occurs_in("no tests found"@, small_letters(clean))
            ==> runner_output(runner, clean) == passed_through(clean),
{
}

/// Of an output of no known runner each line that is no noise is shown, where there is room.
pub proof fn law_unknown_runners_lines_are_shown(output: Seq<char>, k: int)
    requires
        runner_of(without_escapes(output)) == TestRunner::Unknown,
        !occurs_in("no tests found"@, small_letters(without_escapes(output))),
        0 <= k < lines_of(without_escapes(output)).len(),
        !is_noise(lines_of(without_escapes(output))[k]),
        joined(without_noise(lines_of(without_escapes(output))), "\n"@).len() <= 2000,
    ensures
        occurs_in(lines_of(without_escapes(output))[k], yarn_test_output(output)),
{
    law_line_is_passed_on(without_escapes(output), k);
}

/// An error of Yarn that is not the one of a command that failed is shown.
pub proof fn law_unknown_runners_errors_are_shown(output: Seq<char>, k: int)
    requires
        runner_of(without_escapes(output)) == TestRunner::Unknown,
        !occurs_in("no tests found"@, small_letters(without_escapes(output))),
        0 <= k < lines_of(without_escapes(output)).len(),
        "error "@.is_prefix_of(trim_of(lines_of(without_escapes(output))[k])),
        !"error Command failed"@.is_prefix_of(trim_of(lines_of(without_escapes(output))[k])),
        joined(without_noise(lines_of(without_escapes(output))), "\n"@).len() <= 2000,
    ensures
        occurs_in(lines_of(without_escapes(output))[k], yarn_test_output(output)),
{
    law_other_errors_are_no_noise(lines_of(without_escapes(output))[k]);
    law_unknown_runners_lines_are_shown(output, k);
}

} // verus!
