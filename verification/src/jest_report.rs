//! The counts of a Jest run and the compact report of them.

use crate::text::{decimal, push_decimal, texts, trim, trim_of};
use vstd::prelude::*;

verus! {

/// How many failures a report shows in full.
pub const SHOWN_FAILURES: usize = 10;

/// The counts of a Jest run, and the time it took as Jest wrote it.
#[derive(Debug)]
pub struct JestCounts {
    pub suites_failed: usize,
    pub suites_passed: usize,
    pub suites_total: usize,
    pub tests_failed: usize,
    pub tests_skipped: usize,
    pub tests_passed: usize,
    pub tests_total: usize,
    pub time: String,
}

/// What `JestCounts` stands for.
#[verifier::ext_equal]
pub struct JestTally {
    pub suites_failed: usize,
    pub suites_passed: usize,
    pub suites_total: usize,
    pub tests_failed: usize,
    pub tests_skipped: usize,
    pub tests_passed: usize,
    pub tests_total: usize,
    pub time: Seq<char>,
}

/// The counts before anything was read.
pub open spec fn empty_tally() -> JestTally {
    JestTally {
        suites_failed: 0,
        suites_passed: 0,
        suites_total: 0,
        tests_failed: 0,
        tests_skipped: 0,
        tests_passed: 0,
        tests_total: 0,
        time: seq![],
    }
}

impl View for JestCounts {
    type V = JestTally;

    open spec fn view(&self) -> JestTally {
        JestTally {
            suites_failed: self.suites_failed,
            suites_passed: self.suites_passed,
            suites_total: self.suites_total,
            tests_failed: self.tests_failed,
            tests_skipped: self.tests_skipped,
            tests_passed: self.tests_passed,
            tests_total: self.tests_total,
            time: self.time@,
        }
    }
}

impl Default for JestCounts {
    fn default() -> (counts: JestCounts)
        ensures
            counts@ == empty_tally(),
    {
        JestCounts {
            suites_failed: 0,
            suites_passed: 0,
            suites_total: 0,
            tests_failed: 0,
            tests_skipped: 0,
            tests_passed: 0,
            tests_total: 0,
            time: String::new(),
        }
    }
}

/// Whether a test or a suite failed.
pub open spec fn any_failed(tally: JestTally) -> bool {
    tally.tests_failed > 0 || tally.suites_failed > 0
}

impl JestCounts {
    /// Tells whether a test or a suite failed.
    pub fn has_failures(&self) -> (failed: bool)
        ensures
            failed == any_failed(self@),
    {
        self.tests_failed > 0 || self.suites_failed > 0
    }
}

/// `text`, and how many tests were skipped if any were.
pub open spec fn with_skipped(text: Seq<char>, skipped: usize) -> Seq<char> {
    if skipped > 0 {
        text + ", "@ + decimal(skipped as nat) + " skipped"@
    } else {
        text
    }
}

/// `text`, and how many suites there were if there were any.
pub open spec fn with_suites(text: Seq<char>, suites: usize) -> Seq<char> {
    if suites > 0 {
        text + " ("@ + decimal(suites as nat) + " "@ + (if suites == 1 {
            "suite"@
        } else {
            "suites"@
        }) + ")"@
    } else {
        text
    }
}

/// `text`, and the time taken if it is known.
pub open spec fn with_time(text: Seq<char>, time: Seq<char>) -> Seq<char> {
    if time.len() > 0 {
        text + " ["@ + time + "]"@
    } else {
        text
    }
}

/// The report of a run without failures.
pub open spec fn success_report(tally: JestTally) -> Seq<char> {
    let passed = "ok Yarn test: "@ + decimal(tally.tests_passed as nat) + " passed"@;
    with_time(
        with_suites(with_skipped(passed, tally.tests_skipped), tally.suites_total),
        tally.time,
    )
}

/// The first line of the report of a run with failures.
pub open spec fn failure_head(tally: JestTally) -> Seq<char> {
    let counts = "Yarn test: "@ + decimal(tally.tests_failed as nat) + " failed, "@ + decimal(
        tally.tests_passed as nat,
    ) + " passed"@;
    let total = with_skipped(counts, tally.tests_skipped) + " ("@ + decimal(
        tally.tests_total as nat,
    ) + " total)"@;
    with_time(total, tally.time)
}

/// The first `n` failures, each with its number in front and a line feed behind.
pub open spec fn numbered(failures: Seq<Seq<char>>, n: nat) -> Seq<char>
    decreases n,
{
    if n == 0 {
        seq![]
    } else {
        numbered(failures, (n - 1) as nat) + decimal(n) + ". "@ + failures[n - 1] + "\n"@
    }
}

/// The list of the failures: so many in full, then how many more there are.
pub open spec fn failure_list(failures: Seq<Seq<char>>) -> Seq<char> {
    if failures.len() == 0 {
        seq![]
    } else if failures.len() <= SHOWN_FAILURES {
        "\nFAILURES:\n"@ + numbered(failures, failures.len())
    } else {
        "\nFAILURES:\n"@ + numbered(failures, SHOWN_FAILURES as nat) + "\n... +"@ + decimal(
            (failures.len() - SHOWN_FAILURES) as nat,
        ) + " more failures\n"@
    }
}

/// The report of a run with failures.
pub open spec fn failure_report(tally: JestTally, failures: Seq<Seq<char>>) -> Seq<char> {
    trim_of(failure_head(tally).push('\n') + failure_list(failures))
}

/// The report of a run.
pub open spec fn test_report(tally: JestTally, failures: Seq<Seq<char>>) -> Seq<char> {
    if any_failed(tally) {
        failure_report(tally, failures)
    } else {
        success_report(tally)
    }
}

/// Appends how many tests were skipped, if any were.
fn append_skipped(text: &mut String, skipped: usize)
    ensures
        final(text)@ == with_skipped(old(text)@, skipped),
{
    if skipped > 0 {
        text.append(", ");
        push_decimal(text, skipped as u64);
        text.append(" skipped");
    }
}

/// Appends the time taken, if it is known.
fn append_time(text: &mut String, time: &String)
    ensures
        final(text)@ == with_time(old(text)@, time@),
{
    if !time.as_str().is_empty() {
        text.append(" [");
        text.append(time.as_str());
        text.append("]");
    }
}

/// Writes the compact report of a run.
pub fn build_test_output(counts: &JestCounts, failure_lines: &[String]) -> (report: String)
    ensures
        report@ == test_report(counts@, texts(failure_lines@)),
{
    if !counts.has_failures() {
        let mut report = "ok Yarn test: ".to_owned();
        push_decimal(&mut report, counts.tests_passed as u64);
        report.append(" passed");
        append_skipped(&mut report, counts.tests_skipped);
        if counts.suites_total > 0 {
            report.append(" (");
            push_decimal(&mut report, counts.suites_total as u64);
            report.append(" ");
            report.append(
                if counts.suites_total == 1 {
                    "suite"
                } else {
                    "suites"
                },
            );
            report.append(")");
        }
        append_time(&mut report, &counts.time);
        return report;
    }
    let mut report = "Yarn test: ".to_owned();
    push_decimal(&mut report, counts.tests_failed as u64);
    report.append(" failed, ");
    push_decimal(&mut report, counts.tests_passed as u64);
    report.append(" passed");
    append_skipped(&mut report, counts.tests_skipped);
    report.append(" (");
    push_decimal(&mut report, counts.tests_total as u64);
    report.append(" total)");
    append_time(&mut report, &counts.time);
    assert(report@ == failure_head(counts@));
    report.push('\n');
    let ghost failures = texts(failure_lines@);
    let ghost head = report@;
    if failure_lines.len() > 0 {
        report.append("\nFAILURES:\n");
        let shown: usize = if failure_lines.len() <= SHOWN_FAILURES {
            failure_lines.len()
        } else {
            SHOWN_FAILURES
        };
        let mut i: usize = 0;
        assert(report@ == head + ("\nFAILURES:\n"@ + numbered(failures, 0)));
        while i < shown
            invariant
                i <= shown <= failure_lines@.len(),
                failures == texts(failure_lines@),
                report@ == head + ("\nFAILURES:\n"@ + numbered(failures, i as nat)),
                shown <= SHOWN_FAILURES,
            decreases shown - i,
        {
            let ghost before = report@;
            push_decimal(&mut report, (i + 1) as u64);
            report.append(". ");
            report.append(failure_lines[i].as_str());
            report.append("\n");
            assert(failures[i as int] == failure_lines@[i as int]@);
            assert(report@ == head + ("\nFAILURES:\n"@ + numbered(failures, (i + 1) as nat)));
            i = i + 1;
        }
        if failure_lines.len() > SHOWN_FAILURES {
            report.append("\n... +");
            push_decimal(&mut report, (failure_lines.len() - SHOWN_FAILURES) as u64);
            report.append(" more failures\n");
        }
    }
    assert(report@ == head + failure_list(failures));
    trim(report.as_str())
}

} // verus!
