//! Which test runner wrote an output.

use crate::pattern::{first_match, Pattern, SUITE_RESULT_RE};
use crate::text::{contains, lines, lines_of, occurs_in, texts, trim, trim_of};
use vstd::prelude::*;

verus! {

/// A test runner.
#[derive(Debug, PartialEq, Eq, Clone, Copy, Structural)]
pub enum TestRunner {
    Jest,
    Vitest,
    Unknown,
}

/// Whether `line` is the result of a Jest suite.
pub open spec fn is_suite_result(line: Seq<char>) -> bool {
    first_match(SUITE_RESULT_RE@, trim_of(line)) is Some
}

/// Whether one of the lines is the result of a Jest suite.
pub open spec fn any_suite_result(list: Seq<Seq<char>>) -> bool {
    exists|i: int| 0 <= i < list.len() && is_suite_result(#[trigger] list[i])
}

/// The runner of an output, given whether one of its lines is the result of a
/// Jest suite. Jest is told by such a line or by its summary, Vitest by two
/// words of its summary.
pub open spec fn runner_given(output: Seq<char>, suite_result: bool) -> TestRunner {
    if occurs_in("Test Suites:"@, output) || suite_result {
        TestRunner::Jest
    } else if occurs_in("Test Files"@, output) && occurs_in("Duration"@, output) {
        TestRunner::Vitest
    } else {
        TestRunner::Unknown
    }
}

/// The runner of an output.
pub open spec fn runner_of(output: Seq<char>) -> TestRunner {
    runner_given(output, any_suite_result(lines_of(output)))
}

/// Tells the runner of an output, given whether one of its lines is the result
/// of a Jest suite.
pub fn runner_for(output: &str, suite_result: bool) -> (runner: TestRunner)
    ensures
        runner == runner_given(output@, suite_result),
{
    if suite_result || contains(output, "Test Suites:") {
        TestRunner::Jest
    } else if contains(output, "Test Files") && contains(output, "Duration") {
        TestRunner::Vitest
    } else {
        TestRunner::Unknown
    }
}

/// Tells whether a line of `output` is the result of a Jest suite.
fn has_suite_result(output: &str) -> (found: bool)
    ensures
        found == any_suite_result(lines_of(output@)),
{
    let list = lines(output);
    let suite_result = Pattern::new(SUITE_RESULT_RE);
    let mut i: usize = 0;
    while i < list.len()
        invariant
            i <= list@.len(),
            suite_result@ == SUITE_RESULT_RE@,
            texts(list@) == lines_of(output@),
            forall|k: int| 0 <= k < i ==> !is_suite_result(#[trigger] texts(list@)[k]),
        decreases list@.len() - i,
    {
        let trimmed = trim(list[i].as_str());
        assert(texts(list@)[i as int] == list@[i as int]@);
        if suite_result.captures(trimmed.as_str()).is_some() {
            return true;
        }
        i = i + 1;
    }
    false
}

/// Tells the runner of an output.
pub fn detect_runner(output: &str) -> (runner: TestRunner)
    ensures
        runner == runner_of(output@),
{
    if contains(output, "Test Suites:") {
        return TestRunner::Jest;
    }
    runner_for(output, has_suite_result(output))
}

} // verus!
