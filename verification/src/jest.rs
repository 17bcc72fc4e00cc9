//! Jest output, read line by line.

use crate::jest_report::{build_test_output, empty_tally, test_report, JestCounts, JestTally};
use crate::noise::{is_noise, is_noise_line, pass_through, passed_through};
use crate::pattern::{
    first_match, group_count_of, group_of, group_text_of, optional_groups, GroupTexts, Groups,
    Pattern, SUITE_RESULT_RE, TESTS_RE, TEST_SUITES_RE, TIME_RE,
};
use crate::text::{
    begins_with, join, joined, lines, lines_of, shortened, texts, to_chars, trim, trim_of, truncate,
};
use vstd::prelude::*;

verus! {

/// The longest line of a failure that a report shows.
pub const FAILURE_LINE_LIMIT: usize = 120;

/// The mark that Jest puts in front of a failure.
pub const FAILURE_MARK: char = '\u{25cf}';

/// The part of the output that is being read.
#[derive(Debug, PartialEq, Eq, Clone, Copy, Structural)]
pub enum ParseState {
    Preamble,
    TestSection,
    Failures,
    Summary,
}

/// A line of Jest output, once it has been matched.
#[derive(Debug)]
pub enum JestLine {
    /// A line that says nothing about the tests.
    Noise,
    /// The summary of the suites.
    Suites(Groups),
    /// The summary of the tests.
    Tests(Groups),
    /// The time taken.
    Time(Groups),
    /// Any other line, trimmed, with its match as the result of a suite.
    Other(String, Option<Groups>),
}

/// What a `JestLine` stands for.
pub enum JestFacts {
    Noise,
    Suites(GroupTexts),
    Tests(GroupTexts),
    Time(GroupTexts),
    Other(Seq<char>, Option<GroupTexts>),
}

impl View for JestLine {
    type V = JestFacts;

    open spec fn view(&self) -> JestFacts {
        match *self {
            JestLine::Noise => JestFacts::Noise,
            JestLine::Suites(groups) => JestFacts::Suites(groups@),
            JestLine::Tests(groups) => JestFacts::Tests(groups@),
            JestLine::Time(groups) => JestFacts::Time(groups@),
            JestLine::Other(text, suite) => JestFacts::Other(text@, optional_groups(suite)),
        }
    }
}

/// What `line` says: noise comes before a summary of suites, that before a
/// summary of tests, and that before a time.
pub open spec fn facts_of(line: Seq<char>) -> JestFacts {
    let trimmed = trim_of(line);
    if is_noise(line) {
        JestFacts::Noise
    } else {
        match first_match(TEST_SUITES_RE@, trimmed) {
            Some(groups) => JestFacts::Suites(groups),
            None => match first_match(TESTS_RE@, trimmed) {
                Some(groups) => JestFacts::Tests(groups),
                None => match first_match(TIME_RE@, trimmed) {
                    Some(groups) => JestFacts::Time(groups),
                    None => JestFacts::Other(trimmed, first_match(SUITE_RESULT_RE@, trimmed)),
                },
            },
        }
    }
}

/// The patterns for Jest output, compiled once.
pub struct JestPatterns {
    pub suites: Pattern,
    pub tests: Pattern,
    pub time: Pattern,
    pub suite_result: Pattern,
}

impl JestPatterns {
    /// Whether each pattern is the one that its name says.
    pub open spec fn are_jest_patterns(self) -> bool {
        &&& self.suites@ == TEST_SUITES_RE@
        &&& self.tests@ == TESTS_RE@
        &&& self.time@ == TIME_RE@
        &&& self.suite_result@ == SUITE_RESULT_RE@
    }

    /// Compiles the patterns.
    pub fn new() -> (patterns: JestPatterns)
        ensures
            patterns.are_jest_patterns(),
    {
        JestPatterns {
            suites: Pattern::new(TEST_SUITES_RE),
            tests: Pattern::new(TESTS_RE),
            time: Pattern::new(TIME_RE),
            suite_result: Pattern::new(SUITE_RESULT_RE),
        }
    }

    /// Matches one line of Jest output.
    pub fn read_line(&self, line: &str) -> (read: JestLine)
        requires
            self.are_jest_patterns(),
        ensures
            read@ == facts_of(line@),
    {
        if is_noise_line(line) {
            return JestLine::Noise;
        }
        let trimmed = trim(line);
        if let Some(groups) = self.suites.captures(trimmed.as_str()) {
            return JestLine::Suites(groups);
        }
        if let Some(groups) = self.tests.captures(trimmed.as_str()) {
            return JestLine::Tests(groups);
        }
        if let Some(groups) = self.time.captures(trimmed.as_str()) {
            return JestLine::Time(groups);
        }
        let suite = self.suite_result.captures(trimmed.as_str());
        JestLine::Other(trimmed, suite)
    }
}

/// What has been read of a Jest output.
#[derive(Debug)]
pub struct JestParser {
    pub state: ParseState,
    pub counts: JestCounts,
    /// The failures that are complete.
    pub failure_lines: Vec<String>,
    /// The lines of the failure that is being read.
    pub current_failure: Vec<String>,
    /// The result and the path of each suite.
    pub suite_results: Vec<String>,
    pub found_any_suite: bool,
}

/// What a `JestParser` stands for.
#[verifier::ext_equal]
pub struct JestModel {
    pub state: ParseState,
    pub tally: JestTally,
    pub failures: Seq<Seq<char>>,
    pub current: Seq<Seq<char>>,
    pub suites: Seq<Seq<char>>,
    pub found_any_suite: bool,
}

impl View for JestParser {
    type V = JestModel;

    open spec fn view(&self) -> JestModel {
        JestModel {
            state: self.state,
            tally: self.counts@,
            failures: texts(self.failure_lines@),
            current: texts(self.current_failure@),
            suites: texts(self.suite_results@),
            found_any_suite: self.found_any_suite,
        }
    }
}

/// Before the first line.
pub open spec fn unread() -> JestModel {
    JestModel {
        state: ParseState::Preamble,
        tally: empty_tally(),
        failures: seq![],
        current: seq![],
        suites: seq![],
        found_any_suite: false,
    }
}

/// The failure that is being read, if there is one, becomes complete.
pub open spec fn with_failure_closed(model: JestModel) -> JestModel {
    if model.current.len() > 0 {
        JestModel {
            failures: model.failures.push(joined(model.current, "\n"@)),
            current: seq![],
            ..model
        }
    } else {
        model
    }
}

/// `line`, shortened, is one more line of the failure that is being read.
pub open spec fn with_failure_line(model: JestModel, line: Seq<char>) -> JestModel {
    JestModel {
        state: ParseState::Failures,
        current: model.current.push(shortened(line, FAILURE_LINE_LIMIT as nat)),
        ..model
    }
}

/// The result and the path in the match of a suite's result line.
pub open spec fn suite_entry(groups: GroupTexts) -> Seq<char> {
    group_text_of(groups, 1) + " "@ + trim_of(group_text_of(groups, 2))
}

/// A suite's result line was read.
pub open spec fn with_suite(model: JestModel, groups: GroupTexts) -> JestModel {
    JestModel {
        state: ParseState::TestSection,
        suites: model.suites.push(suite_entry(groups)),
        ..model
    }
}

/// The summary of the suites was read.
pub open spec fn with_suite_summary(model: JestModel, groups: GroupTexts) -> JestModel {
    JestModel {
        state: ParseState::Summary,
        tally: JestTally {
            suites_failed: group_count_of(groups, 1),
            suites_passed: group_count_of(groups, 2),
            suites_total: group_count_of(groups, 3),
            ..model.tally
        },
        ..with_failure_closed(model)
    }
}

/// The summary of the tests was read.
pub open spec fn with_test_summary(model: JestModel, groups: GroupTexts) -> JestModel {
    JestModel {
        tally: JestTally {
            tests_failed: group_count_of(groups, 1),
            tests_skipped: group_count_of(groups, 2),
            tests_passed: group_count_of(groups, 3),
            tests_total: group_count_of(groups, 4),
            ..model.tally
        },
        ..model
    }
}

/// The time taken was read.
pub open spec fn with_time_taken(model: JestModel, groups: GroupTexts) -> JestModel {
    match group_of(groups, 1) {
        Some(time) => JestModel {
            tally: JestTally { time: trim_of(time), ..model.tally },
            ..model
        },
        None => model,
    }
}

/// Whether `line` opens a failure.
pub open spec fn is_marked(line: Seq<char>) -> bool {
    line.len() > 0 && line[0] == FAILURE_MARK
}

/// A line was read that is neither noise nor part of the summary.
pub open spec fn with_other(
    model: JestModel,
    line: Seq<char>,
    suite: Option<GroupTexts>,
) -> JestModel {
    match model.state {
        ParseState::Preamble => match suite {
            Some(groups) => JestModel { found_any_suite: true, ..with_suite(model, groups) },
            None => model,
        },
        ParseState::TestSection => match suite {
            Some(groups) => with_suite(model, groups),
            None => if is_marked(line) || "FAIL "@.is_prefix_of(line) {
                with_failure_line(model, line)
            } else {
                model
            },
        },
        ParseState::Failures => match suite {
            Some(groups) => with_suite(with_failure_closed(model), groups),
            None => if is_marked(line) {
                with_failure_line(with_failure_closed(model), line)
            } else if line.len() > 0 {
                with_failure_line(model, line)
            } else {
                model
            },
        },
        ParseState::Summary => model,
    }
}

/// One line was read.
pub open spec fn after_line(model: JestModel, line: JestFacts) -> JestModel {
    match line {
        JestFacts::Noise => model,
        JestFacts::Suites(groups) => with_suite_summary(model, groups),
        JestFacts::Tests(groups) => with_test_summary(model, groups),
        JestFacts::Time(groups) => with_time_taken(model, groups),
        JestFacts::Other(text, suite) => with_other(model, text, suite),
    }
}

/// All `lines` were read, in their order.
pub open spec fn after_lines(lines: Seq<Seq<char>>) -> JestModel
    decreases lines.len(),
{
    if lines.len() == 0 {
        unread()
    } else {
        after_line(after_lines(lines.drop_last()), facts_of(lines.last()))
    }
}

/// The report of what was read; nothing if there was neither a test nor a
/// suite.
pub open spec fn final_report(model: JestModel) -> Option<Seq<char>> {
    let end = with_failure_closed(model);
    if end.tally.tests_total == 0 && !end.found_any_suite {
        None
    } else {
        Some(test_report(end.tally, end.failures))
    }
}

/// The compact form of a Jest output.
pub open spec fn jest_output(clean: Seq<char>) -> Seq<char> {
    match final_report(after_lines(lines_of(clean))) {
        Some(report) => report,
        None => passed_through(clean),
    }
}

impl JestParser {
    /// A parser that has read nothing.
    pub fn new() -> (parser: JestParser)
        ensures
            parser@ == unread(),
    {
        let parser = JestParser {
            state: ParseState::Preamble,
            counts: JestCounts::default(),
            failure_lines: Vec::new(),
            current_failure: Vec::new(),
            suite_results: Vec::new(),
            found_any_suite: false,
        };
        assert(parser@ =~= unread());
        parser
    }

    /// Completes the failure that is being read, if there is one.
    fn close_failure(&mut self)
        ensures
            final(self)@ == with_failure_closed(old(self)@),
    {
        let ghost before = self@;
        if self.current_failure.len() > 0 {
            let failure = join(&self.current_failure, "\n");
            self.failure_lines.push(failure);
            self.current_failure.clear();
        }
        assert(self@ =~= with_failure_closed(before));
    }

    /// Adds a line to the failure that is being read.
    fn add_failure_line(&mut self, line: &str)
        ensures
            final(self)@ == with_failure_line(old(self)@, line@),
    {
        let ghost before = self@;
        self.state = ParseState::Failures;
        self.current_failure.push(truncate(line, FAILURE_LINE_LIMIT));
        assert(self@ =~= with_failure_line(before, line@));
    }

    /// Adds the result of a suite.
    fn add_suite(&mut self, groups: &Groups)
        ensures
            final(self)@ == with_suite(old(self)@, groups@),
    {
        let ghost before = self@;
        let mut entry = groups.text(1);
        let path = groups.text(2);
        entry.append(" ");
        entry.append(trim(path.as_str()).as_str());
        self.suite_results.push(entry);
        self.state = ParseState::TestSection;
        assert(self@ =~= with_suite(before, groups@));
    }

    /// Takes in a line that is neither noise nor part of the summary.
    fn other_line(&mut self, line: &str, suite: Option<Groups>)
        ensures
            final(self)@ == with_other(old(self)@, line@, optional_groups(suite)),
    {
        let chars = to_chars(line);
        let marked = chars.len() > 0 && chars[0] == FAILURE_MARK;
        match self.state {
            ParseState::Preamble => {
                if let Some(groups) = suite {
                    self.found_any_suite = true;
                    self.add_suite(&groups);
                }
            },
            ParseState::TestSection => {
                if let Some(groups) = suite {
                    self.add_suite(&groups);
                } else if marked || begins_with(&chars, "FAIL ") {
                    self.add_failure_line(line);
                }
            },
            ParseState::Failures => {
                if let Some(groups) = suite {
                    self.close_failure();
                    self.add_suite(&groups);
                } else if marked {
                    self.close_failure();
                    self.add_failure_line(line);
                } else if chars.len() > 0 {
                    self.add_failure_line(line);
                }
            },
            ParseState::Summary => {},
        }
    }

    /// Takes in the next line.
    pub fn step(&mut self, line: JestLine)
        ensures
            final(self)@ == after_line(old(self)@, line@),
    {
        let ghost before = self@;
        match line {
            JestLine::Noise => {},
            JestLine::Suites(groups) => {
                self.close_failure();
                self.counts.suites_failed = groups.count(1);
                self.counts.suites_passed = groups.count(2);
                self.counts.suites_total = groups.count(3);
                self.state = ParseState::Summary;
                assert(self@ =~= with_suite_summary(before, groups@));
            },
            JestLine::Tests(groups) => {
                self.counts.tests_failed = groups.count(1);
                self.counts.tests_skipped = groups.count(2);
                self.counts.tests_passed = groups.count(3);
                self.counts.tests_total = groups.count(4);
                assert(self@ =~= with_test_summary(before, groups@));
            },
            JestLine::Time(groups) => {
                if let Some(time) = groups.get(1) {
                    self.counts.time = trim(time.as_str());
                }
                assert(self@ =~= with_time_taken(before, groups@));
            },
            JestLine::Other(text, suite) => {
                self.other_line(text.as_str(), suite);
            },
        }
    }

    /// The report, once the last line was taken in; nothing if there was neither
    /// a test nor a suite.
    pub fn finish(self) -> (report: Option<String>)
        ensures
            report is Some <==> final_report(self@) is Some,
            report matches Some(r) ==> final_report(self@) == Some(r@),
    {
        let mut parser = self;
        parser.close_failure();
        if parser.counts.tests_total == 0 && !parser.found_any_suite {
            return None;
        }
        Some(build_test_output(&parser.counts, parser.failure_lines.as_slice()))
    }
}

/// Makes the compact form of a Jest output.
pub fn filter_jest_output(clean: &str) -> (output: String)
    ensures
        output@ == jest_output(clean@),
{
    let list = lines(clean);
    let patterns = JestPatterns::new();
    let mut parser = JestParser::new();
    let mut i: usize = 0;
    assert(texts(list@).take(0) == Seq::<Seq<char>>::empty());
    while i < list.len()
        invariant
            i <= list@.len(),
            patterns.are_jest_patterns(),
            parser@ == after_lines(texts(list@).take(i as int)),
        decreases list@.len() - i,
    {
        let line = patterns.read_line(list[i].as_str());
        parser.step(line);
        assert(texts(list@).take(i + 1).drop_last() == texts(list@).take(i as int));
        i = i + 1;
    }
    assert(texts(list@).take(i as int) == texts(list@));
    match parser.finish() {
        Some(report) => report,
        None => pass_through(clean),
    }
}

} // verus!
