//! Vitest output, read line by line.

use crate::duration::{duration_millis, duration_of};
use crate::noise::{pass_through, passed_through};
use crate::pattern::{
    first_match, group_count_of, group_text_of, optional_groups, GroupTexts, Groups, Pattern,
    VITEST_DURATION_RE, VITEST_TESTS_RE,
};
use crate::test_result::{compact_form, failure_texts, FailureText, TestFailure, TestResult};
use crate::text::{
    join, joined, lines, lines_of, texts, to_chars, trim, trim_after, trim_of, without_leading,
};
use vstd::prelude::*;

verus! {

/// The mark that Vitest puts in front of a test that failed.
pub const FAILED_MARK: char = '\u{d7}';

/// The mark that Vitest puts in front of a line of an error message.
pub const ERROR_MARK: char = '\u{2192}';

/// A line of Vitest output, trimmed, with its matches.
#[derive(Debug)]
pub struct VitestLine {
    pub text: String,
    /// As the summary of the tests.
    pub tests: Option<Groups>,
    /// As the time taken.
    pub duration: Option<Groups>,
}

/// What a `VitestLine` stands for.
pub struct VitestFacts {
    pub text: Seq<char>,
    pub tests: Option<GroupTexts>,
    pub duration: Option<GroupTexts>,
}

impl View for VitestLine {
    type V = VitestFacts;

    open spec fn view(&self) -> VitestFacts {
        VitestFacts {
            text: self.text@,
            tests: optional_groups(self.tests),
            duration: optional_groups(self.duration),
        }
    }
}

/// What `line` says.
pub open spec fn facts_of(line: Seq<char>) -> VitestFacts {
    VitestFacts {
        text: trim_of(line),
        tests: first_match(VITEST_TESTS_RE@, trim_of(line)),
        duration: first_match(VITEST_DURATION_RE@, trim_of(line)),
    }
}

/// The patterns for Vitest output, compiled once.
pub struct VitestPatterns {
    pub tests: Pattern,
    pub duration: Pattern,
}

impl VitestPatterns {
    /// Whether each pattern is the one that its name says.
    pub open spec fn are_vitest_patterns(self) -> bool {
        &&& self.tests@ == VITEST_TESTS_RE@
        &&& self.duration@ == VITEST_DURATION_RE@
    }

    /// Compiles the patterns.
    pub fn new() -> (patterns: VitestPatterns)
        ensures
            patterns.are_vitest_patterns(),
    {
        VitestPatterns {
            tests: Pattern::new(VITEST_TESTS_RE),
            duration: Pattern::new(VITEST_DURATION_RE),
        }
    }

    /// Matches one line of Vitest output.
    pub fn read_line(&self, line: &str) -> (read: VitestLine)
        requires
            self.are_vitest_patterns(),
        ensures
            read@ == facts_of(line@),
    {
        let text = trim(line);
        let tests = self.tests.captures(text.as_str());
        let duration = self.duration.captures(text.as_str());
        VitestLine { text, tests, duration }
    }
}

/// A failed test whose error message is being read.
#[derive(Debug)]
pub struct OpenFailure {
    pub test_name: String,
    /// The lines of the message so far.
    pub errors: Vec<String>,
}

impl View for OpenFailure {
    type V = (Seq<char>, Seq<Seq<char>>);

    open spec fn view(&self) -> (Seq<char>, Seq<Seq<char>>) {
        (self.test_name@, texts(self.errors@))
    }
}

/// What has been read of a Vitest output.
#[derive(Debug)]
pub struct VitestParser {
    pub failed: usize,
    pub skipped: usize,
    pub passed: usize,
    pub total: usize,
    pub duration_ms: Option<u64>,
    pub failures: Vec<TestFailure>,
    /// The failed test whose error message is being read, if there is one.
    pub open: Option<OpenFailure>,
}

/// What a `VitestParser` stands for.
#[verifier::ext_equal]
pub struct VitestModel {
    pub failed: usize,
    pub skipped: usize,
    pub passed: usize,
    pub total: usize,
    pub duration_ms: Option<u64>,
    pub failures: Seq<FailureText>,
    pub open: Option<(Seq<char>, Seq<Seq<char>>)>,
}

impl View for VitestParser {
    type V = VitestModel;

    open spec fn view(&self) -> VitestModel {
        VitestModel {
            failed: self.failed,
            skipped: self.skipped,
            passed: self.passed,
            total: self.total,
            duration_ms: self.duration_ms,
            failures: failure_texts(self.failures@),
            open: match self.open {
                Some(open) => Some(open@),
                None => None,
            },
        }
    }
}

/// Before the first line.
pub open spec fn unread() -> VitestModel {
    VitestModel {
        failed: 0,
        skipped: 0,
        passed: 0,
        total: 0,
        duration_ms: None,
        failures: seq![],
        open: None,
    }
}

/// Whether `line` begins with `mark`.
pub open spec fn is_marked(line: Seq<char>, mark: char) -> bool {
    line.len() > 0 && line[0] == mark
}

/// `line` without the marks in front of it and the white space round the rest.
pub open spec fn unmarked(line: Seq<char>, mark: char) -> Seq<char> {
    trim_of(without_leading(line, mark))
}

/// The failure of test `name`, whose message is in `errors`. Neither its file nor
/// its stack trace is known.
pub open spec fn failure_of(name: Seq<char>, errors: Seq<Seq<char>>) -> FailureText {
    FailureText { name, file_path: seq![], message: joined(errors, "\n"@), stack_trace: None }
}

/// The failure whose message was being read becomes complete.
pub open spec fn with_failure_closed(model: VitestModel) -> VitestModel {
    match model.open {
        Some((name, errors)) => VitestModel {
            failures: model.failures.push(failure_of(name, errors)),
            open: None,
            ..model
        },
        None => model,
    }
}

/// The summary of the tests was read.
pub open spec fn with_test_summary(model: VitestModel, groups: GroupTexts) -> VitestModel {
    VitestModel {
        failed: group_count_of(groups, 1),
        skipped: group_count_of(groups, 2),
        passed: group_count_of(groups, 3),
        total: group_count_of(groups, 4),
        ..model
    }
}

/// The time taken was read; it stays as it was where the number is none.
pub open spec fn with_duration(model: VitestModel, groups: GroupTexts) -> VitestModel {
    match duration_of(group_text_of(groups, 1), group_text_of(groups, 2)) {
        Some(duration) => VitestModel { duration_ms: Some(duration as u64), ..model },
        None => model,
    }
}

/// One line was read. A marked line behind a failed test belongs to its
/// message, whatever it matches.
pub open spec fn after_line(model: VitestModel, line: VitestFacts) -> VitestModel {
    match model.open {
        Some((name, errors)) if is_marked(line.text, ERROR_MARK) => VitestModel {
            open: Some((name, errors.push(unmarked(line.text, ERROR_MARK)))),
            ..model
        },
        _ => {
            let closed = with_failure_closed(model);
            match line.tests {
                Some(groups) => with_test_summary(closed, groups),
                None => match line.duration {
                    Some(groups) => with_duration(closed, groups),
                    None => if is_marked(line.text, FAILED_MARK) {
                        VitestModel {
                            open: Some((unmarked(line.text, FAILED_MARK), seq![])),
                            ..closed
                        }
                    } else {
                        closed
                    },
                },
            }
        },
    }
}

/// All `lines` were read, in their order.
pub open spec fn after_lines(lines: Seq<Seq<char>>) -> VitestModel
    decreases lines.len(),
{
    if lines.len() == 0 {
        unread()
    } else {
        after_line(after_lines(lines.drop_last()), facts_of(lines.last()))
    }
}

/// The report of what was read; nothing if no test was counted.
pub open spec fn final_report(model: VitestModel) -> Option<Seq<char>> {
    let end = with_failure_closed(model);
    if end.total == 0 {
        None
    } else {
        Some(
            "Yarn test (vitest): "@ + compact_form(
                end.passed,
                end.failed,
                end.duration_ms,
                end.failures,
            ),
        )
    }
}

/// The compact form of a Vitest output.
pub open spec fn vitest_output(clean: Seq<char>) -> Seq<char> {
    match final_report(after_lines(lines_of(clean))) {
        Some(report) => report,
        None => passed_through(clean),
    }
}

impl VitestParser {
    /// A parser that has read nothing.
    pub fn new() -> (parser: VitestParser)
        ensures
            parser@ == unread(),
    {
        let parser = VitestParser {
            failed: 0,
            skipped: 0,
            passed: 0,
            total: 0,
            duration_ms: None,
            failures: Vec::new(),
            open: None,
        };
        assert(parser@ =~= unread());
        parser
    }

    /// Completes the failure whose message is being read, if there is one.
    fn close_failure(&mut self)
        ensures
            final(self)@ == with_failure_closed(old(self)@),
    {
        let ghost before = self@;
        let open = self.open.take();
        if let Some(open) = open {
            let failure = TestFailure {
                test_name: open.test_name,
                file_path: String::new(),
                error_message: join(&open.errors, "\n"),
                stack_trace: None,
            };
            self.failures.push(failure);
            assert(failure@ =~= failure_of(open@.0, open@.1));
        }
        assert(self@ =~= with_failure_closed(before));
    }

    /// Takes in the next line.
    pub fn step(&mut self, line: VitestLine)
        ensures
            final(self)@ == after_line(old(self)@, line@),
    {
        let ghost before = self@;
        let chars = to_chars(line.text.as_str());
        let error = chars.len() > 0 && chars[0] == ERROR_MARK;
        if error {
            let taken = self.open.take();
            if let Some(open) = taken {
                let mut open = open;
                open.errors.push(trim_after(line.text.as_str(), ERROR_MARK));
                self.open = Some(open);
                assert(self@ =~= after_line(before, line@));
                return;
            }
        }
        self.close_failure();
        if let Some(groups) = line.tests {
            self.failed = groups.count(1);
            self.skipped = groups.count(2);
            self.passed = groups.count(3);
            self.total = groups.count(4);
        } else if let Some(groups) = line.duration {
            let number = groups.text(1);
            let unit = groups.text(2);
            if let Some(duration) = duration_millis(number.as_str(), unit.as_str()) {
                self.duration_ms = Some(duration);
            }
        } else if chars.len() > 0 && chars[0] == FAILED_MARK {
            let test_name = trim_after(line.text.as_str(), FAILED_MARK);
            self.open = Some(OpenFailure { test_name, errors: Vec::new() });
        }
        assert(self@ =~= after_line(before, line@));
    }

    /// The report, once the last line was taken in; nothing if no test was
    /// counted.
    pub fn finish(self) -> (report: Option<String>)
        ensures
            report is Some <==> final_report(self@) is Some,
            report matches Some(r) ==> final_report(self@) == Some(r@),
    {
        let mut parser = self;
        parser.close_failure();
        if parser.total == 0 {
            return None;
        }
        let result = TestResult {
            total: parser.total,
            passed: parser.passed,
            failed: parser.failed,
            skipped: parser.skipped,
            duration_ms: parser.duration_ms,
            failures: parser.failures,
        };
        let mut report = "Yarn test (vitest): ".to_owned();
        report.append(result.format_compact().as_str());
        Some(report)
    }
}

/// Makes the compact form of a Vitest output.
pub fn filter_vitest_text_output(clean: &str) -> (output: String)
    ensures
        output@ == vitest_output(clean@),
{
    let list = lines(clean);
    let patterns = VitestPatterns::new();
    let mut parser = VitestParser::new();
    let mut i: usize = 0;
    assert(texts(list@).take(0) == Seq::<Seq<char>>::empty());
    while i < list.len()
        invariant
            i <= list@.len(),
            patterns.are_vitest_patterns(),
            parser@ == after_lines(texts(list@).take(i as int)),
        decreases list@.len() - i,
    {
        let line = patterns.read_line(list[i].as_str());
        parser.step(line);
        assert(texts(list@).take(i + 1).drop_last() == texts(list@).take(i as int));
        i = i + 1;
    }
    assert(texts(list@).take(i as int) == texts(list@));
    match parser.finish() {
        Some(report) => report,
        None => pass_through(clean),
    }
}

} // verus!
