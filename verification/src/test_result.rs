//! The result of a test run, whatever the runner, and its compact form.

use crate::text::{decimal, join, joined, lines, lines_of, optional_text, push_decimal, texts};
use vstd::prelude::*;

verus! {

/// How many failures the compact form shows.
pub const COMPACT_FAILURES: usize = 5;

/// How many lines of an error message the compact form shows.
pub const PREVIEW_LINES: usize = 2;

/// A test that failed.
#[derive(Debug)]
pub struct TestFailure {
    pub test_name: String,
    pub file_path: String,
    pub error_message: String,
    pub stack_trace: Option<String>,
}

/// The result of a test run.
#[derive(Debug)]
pub struct TestResult {
    pub total: usize,
    pub passed: usize,
    pub failed: usize,
    pub skipped: usize,
    pub duration_ms: Option<u64>,
    pub failures: Vec<TestFailure>,
}

/// What a `TestFailure` stands for.
pub struct FailureText {
    pub name: Seq<char>,
    pub file_path: Seq<char>,
    pub message: Seq<char>,
    pub stack_trace: Option<Seq<char>>,
}

impl View for TestFailure {
    type V = FailureText;

    open spec fn view(&self) -> FailureText {
        FailureText {
            name: self.test_name@,
            file_path: self.file_path@,
            message: self.error_message@,
            stack_trace: optional_text(self.stack_trace),
        }
    }
}

/// What the failures of a list stand for.
pub open spec fn failure_texts(list: Seq<TestFailure>) -> Seq<FailureText> {
    list.map_values(|f: TestFailure| f@)
}

/// The first lines of an error message, on one line.
pub open spec fn preview_of(message: Seq<char>) -> Seq<char> {
    let list = lines_of(message);
    joined(
        if list.len() <= PREVIEW_LINES {
            list
        } else {
            list.take(PREVIEW_LINES as int)
        },
        " "@,
    )
}

/// How many tests passed and failed.
pub open spec fn compact_head(passed: usize, failed: usize) -> Seq<char> {
    "PASS ("@ + decimal(passed as nat) + ") FAIL ("@ + decimal(failed as nat) + ")"@
}

/// Two lines for each of the first `n` failures: number and name, then the
/// preview of the message.
pub open spec fn compact_failures(failures: Seq<FailureText>, n: nat) -> Seq<Seq<char>>
    decreases n,
{
    if n == 0 {
        seq![]
    } else {
        let failure = failures[n - 1];
        compact_failures(failures, (n - 1) as nat).push(decimal(n) + ". "@ + failure.name).push(
            "   "@ + preview_of(failure.message),
        )
    }
}

/// The lines on the failures: none where there is none.
pub open spec fn compact_failure_lines(failures: Seq<FailureText>) -> Seq<Seq<char>> {
    if failures.len() == 0 {
        seq![]
    } else if failures.len() <= COMPACT_FAILURES {
        seq![seq![]] + compact_failures(failures, failures.len())
    } else {
        (seq![seq![]] + compact_failures(failures, COMPACT_FAILURES as nat)).push(
            "\n... +"@ + decimal((failures.len() - COMPACT_FAILURES) as nat) + " more failures"@,
        )
    }
}

/// The compact form of a result.
pub open spec fn compact_form(
    passed: usize,
    failed: usize,
    duration_ms: Option<u64>,
    failures: Seq<FailureText>,
) -> Seq<char> {
    let list = seq![compact_head(passed, failed)] + compact_failure_lines(failures);
    joined(
        match duration_ms {
            Some(duration) => list.push("\nTime: "@ + decimal(duration as nat) + "ms"@),
            None => list,
        },
        "\n"@,
    )
}

/// The first lines of an error message, on one line.
fn preview(message: &str) -> (text: String)
    ensures
        text@ == preview_of(message@),
{
    let mut list = lines(message);
    if list.len() > PREVIEW_LINES {
        let ghost all = list@;
        list.truncate(PREVIEW_LINES);
        assert(texts(list@) == texts(all).take(PREVIEW_LINES as int));
    }
    join(&list, " ")
}

impl TestResult {
    /// Writes the compact form.
    pub fn format_compact(&self) -> (text: String)
        ensures
            text@ == compact_form(
                self.passed,
                self.failed,
                self.duration_ms,
                failure_texts(self.failures@),
            ),
    {
        let ghost failures = failure_texts(self.failures@);
        let mut head = "PASS (".to_owned();
        push_decimal(&mut head, self.passed as u64);
        head.append(") FAIL (");
        push_decimal(&mut head, self.failed as u64);
        head.append(")");
        let ghost first = seq![compact_head(self.passed, self.failed)];
        let mut list: Vec<String> = Vec::new();
        list.push(head);
        assert(texts(list@) == first);
        if self.failures.len() > 0 {
            let ghost start = first + seq![Seq::<char>::empty()];
            list.push(String::new());
            assert(texts(list@) == start);
            let shown: usize = if self.failures.len() <= COMPACT_FAILURES {
                self.failures.len()
            } else {
                COMPACT_FAILURES
            };
            let mut i: usize = 0;
            assert(texts(list@) == start + compact_failures(failures, 0));
            while i < shown
                invariant
                    i <= shown <= self.failures@.len(),
                    shown <= COMPACT_FAILURES,
                    failures == failure_texts(self.failures@),
                    texts(list@) == start + compact_failures(failures, i as nat),
                decreases shown - i,
            {
                let ghost before = list@;
                let failure = &self.failures[i];
                let mut name = String::new();
                push_decimal(&mut name, (i + 1) as u64);
                name.append(". ");
                name.append(failure.test_name.as_str());
                let mut indented = "   ".to_owned();
                indented.append(preview(failure.error_message.as_str()).as_str());
                assert(failures[i as int] == failure@);
                assert(name@ == decimal((i + 1) as nat) + ". "@ + failure@.name);
                list.push(name);
                list.push(indented);
                assert(texts(list@) == texts(before).push(name@).push(indented@));
                i = i + 1;
            }
            if self.failures.len() > COMPACT_FAILURES {
                let ghost before = list@;
                let mut more = "\n... +".to_owned();
                push_decimal(&mut more, (self.failures.len() - COMPACT_FAILURES) as u64);
                more.append(" more failures");
                list.push(more);
                assert(texts(list@) == texts(before).push(more@));
            }
        }
        assert(texts(list@) == first + compact_failure_lines(failures));
        if let Some(duration) = self.duration_ms {
            let ghost before = list@;
            let mut time = "\nTime: ".to_owned();
            push_decimal(&mut time, duration);
            time.append("ms");
            list.push(time);
            assert(texts(list@) == texts(before).push(time@));
        }
        join(&list, "\n")
    }
}

} // verus!
