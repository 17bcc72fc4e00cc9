//! The compact form of what `yarn test` prints.

use crate::ansi::{strip_ansi, without_escapes};
use crate::jest::{filter_jest_output, jest_output};
use crate::noise::{pass_through, passed_through};
use crate::runner::{detect_runner, runner_of, TestRunner};
use crate::text::{chars_contain, occurs_in, small_letters, to_small_letters};
use crate::vitest::{filter_vitest_text_output, vitest_output};
use vstd::prelude::*;

verus! {

/// Whether an output says, in small or capital letters, that there are no tests.
pub open spec fn says_no_tests(clean: Seq<char>) -> bool {
    occurs_in("no tests found"@, small_letters(clean))
}

/// The compact form of an output without escape sequences, by its runner.
pub open spec fn runner_output(runner: TestRunner, clean: Seq<char>) -> Seq<char> {
    match runner {
        TestRunner::Jest => jest_output(clean),
        TestRunner::Vitest => vitest_output(clean),
        TestRunner::Unknown => if says_no_tests(clean) {
            "Yarn test: No tests found"@
        } else {
            passed_through(clean)
        },
    }
}

/// The compact form of an output.
pub open spec fn yarn_test_output(output: Seq<char>) -> Seq<char> {
    let clean = without_escapes(output);
    runner_output(runner_of(clean), clean)
}

/// Makes the compact form of an output without escape sequences, by its runner.
pub fn filter_runner_output(runner: TestRunner, clean: &str) -> (compact: String)
    ensures
        compact@ == runner_output(runner, clean@),
{
    match runner {
        TestRunner::Jest => filter_jest_output(clean),
        TestRunner::Vitest => filter_vitest_text_output(clean),
        TestRunner::Unknown => {
            // No other letter has a small letter that occurs in the phrase.
            let small = to_small_letters(clean);
            if chars_contain(&small, "no tests found") {
                "Yarn test: No tests found".to_owned()
            } else {
                pass_through(clean)
            }
        },
    }
}

/// Makes the compact form of what `yarn test` printed.
pub fn filter_yarn_test(output: &str) -> (compact: String)
    ensures
        compact@ == yarn_test_output(output@),
{
    let clean = strip_ansi(output);
    let runner = detect_runner(clean.as_str());
    filter_runner_output(runner, clean.as_str())
}

} // verus!
