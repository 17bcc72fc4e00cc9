//! The patterns that test runners' lines are matched against.

use crate::text::{count_of, optional_text, parse_count};
use regex::Regex;
use vstd::prelude::*;

verus! {

/// Matches the summary line of Jest's test suites,
/// such as `Test Suites:  1 failed, 2 passed, 3 total`.
pub const TEST_SUITES_RE: &'static str =
    r"Test Suites:\s+(?:(\d+)\s+failed,\s*)?(?:(\d+)\s+passed,\s*)?(\d+)\s+total";

/// Matches the summary line of Jest's tests,
/// such as `Tests:  1 failed, 2 skipped, 5 passed, 8 total`.
pub const TESTS_RE: &'static str =
    r"Tests:\s+(?:(\d+)\s+failed,\s*)?(?:(\d+)\s+(?:skipped|pending|todo),\s*)?(?:(\d+)\s+passed,\s*)?(\d+)\s+total";

/// Matches Jest's line of the time taken, such as `Time:  3.456 s`.
pub const TIME_RE: &'static str = r"Time:\s+(.+)";

/// Matches the result line of a Jest suite, such as ` PASS  src/utils.test.js`.
pub const SUITE_RESULT_RE: &'static str = r"^\s*(PASS|FAIL)\s+(.+)$";

/// Matches the summary line of Vitest's tests,
/// such as `Tests  3 failed | 106 passed (109)` or `Tests  109 passed (109)`.
pub const VITEST_TESTS_RE: &'static str =
    r"Tests\s+(?:(\d+)\s+failed\s*\|\s*)?(?:(\d+)\s+skipped\s*\|\s*)?(\d+)\s+passed\s*\((\d+)\)";

/// Matches Vitest's line of the time taken,
/// such as `Duration  8.45s (transform 1.23s, ...)` or `Duration  450ms`.
pub const VITEST_DURATION_RE: &'static str = r"Duration\s+([\d.]+)(ms|s)";

/// What the groups of a match hold: the whole match first, then each group in
/// the order of the pattern, nothing for a group that took no part.
pub type GroupTexts = Seq<Option<Seq<char>>>;

/// A compiled pattern of the crate `regex`.
#[verifier::external_type_specification]
#[verifier::external_body]
pub struct ExRegex(Regex);

/// What `Regex::new` makes of `pattern`: nothing if it refuses the pattern, as one
/// that is not valid or that is too large when compiled.
pub uninterp spec fn compiled(pattern: Seq<char>) -> Option<Regex>;

/// What `Regex::captures` finds in `text`: the groups of the leftmost match, if
/// there is a match.
pub uninterp spec fn captured(regex: Regex, text: Seq<char>) -> Option<Seq<Option<Seq<char>>>>;

/// The groups of the leftmost match of `pattern` in `text`; nothing if there is
/// no match, or if the pattern is refused.
pub open spec fn first_match(pattern: Seq<char>, text: Seq<char>) -> Option<GroupTexts> {
    match compiled(pattern) {
        Some(regex) => captured(regex, text),
        None => None,
    }
}

/// The groups of a match.
#[derive(Debug)]
pub struct Groups {
    pub texts: Vec<Option<String>>,
}

impl View for Groups {
    type V = GroupTexts;

    open spec fn view(&self) -> GroupTexts {
        self.texts@.map_values(|t: Option<String>| optional_text(t))
    }
}

/// The text of group `i`, if there is such a group and it took part.
pub open spec fn group_of(groups: GroupTexts, i: int) -> Option<Seq<char>> {
    if 0 <= i < groups.len() {
        groups[i]
    } else {
        None
    }
}

/// The text of group `i`, empty if there is none.
pub open spec fn group_text_of(groups: GroupTexts, i: int) -> Seq<char> {
    match group_of(groups, i) {
        Some(text) => text,
        None => seq![],
    }
}

/// The count in group `i`; zero where the group holds no count.
pub open spec fn group_count_of(groups: GroupTexts, i: int) -> usize {
    match group_of(groups, i) {
        Some(text) => match count_of(text) {
            Some(count) => count,
            None => 0,
        },
        None => 0,
    }
}

/// The groups of an optional match.
pub open spec fn optional_groups(groups: Option<Groups>) -> Option<GroupTexts> {
    match groups {
        Some(g) => Some(g@),
        None => None,
    }
}

impl Groups {
    /// The text of group `i`, if there is such a group and it took part.
    pub fn get(&self, i: usize) -> (text: Option<&String>)
        ensures
            text is Some <==> group_of(self@, i as int) is Some,
            text matches Some(t) ==> group_of(self@, i as int) == Some(t@),
    {
        if i < self.texts.len() {
            assert(self@[i as int] == optional_text(self.texts@[i as int]));
            match &self.texts[i] {
                Some(text) => Some(text),
                None => None,
            }
        } else {
            None
        }
    }

    /// The text of group `i`, empty if there is none.
    pub fn text(&self, i: usize) -> (text: String)
        ensures
            text@ == group_text_of(self@, i as int),
    {
        match self.get(i) {
            Some(text) => text.clone(),
            None => String::new(),
        }
    }

    /// The count in group `i`; zero where the group holds no count.
    pub fn count(&self, i: usize) -> (count: usize)
        ensures
            count == group_count_of(self@, i as int),
    {
        match self.get(i) {
            Some(text) => match parse_count(text.as_str()) {
                Some(count) => count,
                None => 0,
            },
            None => 0,
        }
    }
}

/// `Regex::new` of the crate `regex`: the compiled form of `pattern`, none if the
/// pattern is refused. Nothing is said of which patterns are refused, only that the
/// result rests on the pattern alone.
#[verifier::external_body]
fn regex_new(pattern: &str) -> (regex: Option<Regex>)
    ensures
        regex == compiled(pattern@),
{
    Regex::new(pattern).ok()
}

/// `Regex::captures` of the crate `regex`: the groups of the leftmost match in
/// `text`, in the order in which `Captures::iter` gives them. Nothing is said of
/// what matches, only that it rests on the compiled pattern and the text alone.
#[verifier::external_body]
fn regex_captures(regex: &Regex, text: &str) -> (groups: Option<Groups>)
    ensures
        optional_groups(groups) == captured(*regex, text@),
{
    let found = regex.captures(text)?.iter().map(|m| m.map(|m| m.as_str().to_string())).collect();
    Some(Groups { texts: found })
}

/// A pattern, compiled once.
pub struct Pattern {
    source: Ghost<Seq<char>>,
    regex: Option<Regex>,
}

impl View for Pattern {
    type V = Seq<char>;

    /// The pattern as it was written.
    closed spec fn view(&self) -> Seq<char> {
        self.source@
    }
}

impl Pattern {
    #[verifier::type_invariant]
    spec fn is_compiled(self) -> bool {
        self.regex == compiled(self.source@)
    }

    /// Compiles a pattern.
    pub fn new(source: &str) -> (pattern: Pattern)
        ensures
            pattern@ == source@,
    {
        Pattern { source: Ghost(source@), regex: regex_new(source) }
    }

    /// The groups of the leftmost match in `text`.
    pub fn captures(&self, text: &str) -> (groups: Option<Groups>)
        ensures
            optional_groups(groups) == first_match(self@, text@),
    {
        proof {
            use_type_invariant(self);
        }
        match &self.regex {
            Some(regex) => regex_captures(regex, text),
            None => None,
        }
    }
}

} // verus!
