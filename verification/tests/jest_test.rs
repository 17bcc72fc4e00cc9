use yarn_cmd::jest::{filter_jest_output, JestLine, JestParser, JestPatterns, ParseState};
use yarn_cmd::jest_report::{build_test_output, JestCounts};
use yarn_cmd::pattern::{Groups, Pattern, SUITE_RESULT_RE, TIME_RE};
use yarn_cmd::runner::{detect_runner, runner_for, TestRunner};
use yarn_cmd::yarn::{filter_runner_output, filter_yarn_test};

fn groups(texts: &[Option<&str>]) -> Groups {
    Groups { texts: texts.iter().map(|t| t.map(|t| t.to_string())).collect() }
}

fn suite(result: &str, path: &str) -> JestLine {
    let whole = format!("{} {}", result, path);
    JestLine::Other(whole.clone(), Some(groups(&[Some(&whole), Some(result), Some(path)])))
}

fn other(text: &str) -> JestLine {
    JestLine::Other(text.to_string(), None)
}

fn counts() -> JestCounts {
    JestCounts {
        suites_failed: 0,
        suites_passed: 2,
        suites_total: 2,
        tests_failed: 0,
        tests_skipped: 0,
        tests_passed: 8,
        tests_total: 8,
        time: "3.456 s".to_string(),
    }
}

#[test]
fn report_of_success() {
    assert_eq!(build_test_output(&counts(), &[]), "ok Yarn test: 8 passed (2 suites) [3.456 s]");
    let one = JestCounts { suites_total: 1, tests_skipped: 2, time: String::new(), ..counts() };
    assert_eq!(build_test_output(&one, &[]), "ok Yarn test: 8 passed, 2 skipped (1 suite)");
    assert_eq!(build_test_output(&JestCounts::default(), &[]), "ok Yarn test: 0 passed");
}

#[test]
fn report_of_failures() {
    let failed = JestCounts { tests_failed: 1, tests_passed: 5, tests_total: 6, ..counts() };
    assert_eq!(
        build_test_output(&failed, &[]),
        "Yarn test: 1 failed, 5 passed (6 total) [3.456 s]"
    );
    let failures = vec!["\u{25cf} A\nwhy".to_string(), "\u{25cf} B".to_string()];
    assert_eq!(
        build_test_output(&failed, &failures),
        "Yarn test: 1 failed, 5 passed (6 total) [3.456 s]\n\nFAILURES:\n1. \u{25cf} A\nwhy\n2. \u{25cf} B"
    );
    let suites_only = JestCounts { suites_failed: 1, tests_skipped: 3, ..counts() };
    assert!(suites_only.has_failures());
    assert_eq!(
        build_test_output(&suites_only, &[]),
        "Yarn test: 0 failed, 8 passed, 3 skipped (8 total) [3.456 s]"
    );
}

#[test]
fn failures_beyond_ten_are_counted() {
    let failed = JestCounts { tests_failed: 12, ..counts() };
    let failures: Vec<String> = (1..=12).map(|i| format!("\u{25cf} T{}", i)).collect();
    let report = build_test_output(&failed, &failures);
    assert!(report.contains("10. \u{25cf} T10\n"));
    assert!(!report.contains("11."));
    assert!(report.ends_with("\n\n... +2 more failures"));
    assert!(!build_test_output(&failed, &failures[..10]).contains("more failures"));
}

#[test]
fn default_counts_have_no_failures() {
    assert!(!JestCounts::default().has_failures());
}

#[test]
fn suite_result_has_result_and_path() {
    let re = Pattern::new(SUITE_RESULT_RE);
    let caps = re.captures("FAIL  src/app.test.js").unwrap();
    assert_eq!(caps.text(0), "FAIL  src/app.test.js");
    assert_eq!(caps.text(1), "FAIL");
    assert_eq!(caps.text(2), "src/app.test.js");
    assert_eq!(caps.text(3), "");
    assert!(caps.get(3).is_none());
    assert!(re.captures("PASSED src").is_none());
    assert!(re.captures("FAIL").is_none());
}

#[test]
fn time_is_the_rest_of_the_line() {
    let caps = Pattern::new(TIME_RE).captures("Time:        3.456 s, estimated 4 s").unwrap();
    assert_eq!(caps.text(1), "3.456 s, estimated 4 s");
}

#[test]
fn invalid_pattern_matches_nothing() {
    assert!(Pattern::new("(").captures("(").is_none());
}

#[test]
fn counts_of_groups() {
    let g = groups(&[Some("x"), Some("12"), None, Some("many"), Some("99999999999999999999999")]);
    assert_eq!(g.count(1), 12);
    assert_eq!(g.count(2), 0);
    assert_eq!(g.count(3), 0);
    assert_eq!(g.count(4), 0);
    assert_eq!(g.count(5), 0);
}

#[test]
fn lines_are_told_apart() {
    let patterns = JestPatterns::new();
    assert!(matches!(patterns.read_line("  Done in 1s."), JestLine::Noise));
    assert!(matches!(patterns.read_line("Test Suites:  1 passed, 1 total"), JestLine::Suites(_)));
    assert!(matches!(patterns.read_line("Tests:  1 passed, 1 total"), JestLine::Tests(_)));
    assert!(matches!(patterns.read_line("  Time:  1 s "), JestLine::Time(_)));
    assert!(matches!(patterns.read_line(" PASS  a.js"), JestLine::Other(_, Some(_))));
    assert!(matches!(patterns.read_line(" plain "), JestLine::Other(ref t, None) if t == "plain"));
}

#[test]
fn failure_takes_its_lines() {
    let mut parser = JestParser::new();
    parser.step(other("\u{25cf} before any suite"));
    assert_eq!(parser.state, ParseState::Preamble);
    parser.step(suite("FAIL", " src/d.test.js "));
    assert_eq!(parser.state, ParseState::TestSection);
    assert!(parser.found_any_suite);
    assert_eq!(parser.suite_results, ["FAIL src/d.test.js"]);
    parser.step(other("plain"));
    assert!(parser.current_failure.is_empty());
    parser.step(other("\u{25cf} D > fails"));
    parser.step(JestLine::Noise);
    parser.step(other("Expected: true"));
    assert_eq!(parser.current_failure, ["\u{25cf} D > fails", "Expected: true"]);
    parser.step(other("\u{25cf} D > also fails"));
    assert_eq!(parser.failure_lines, ["\u{25cf} D > fails\nExpected: true"]);
    parser.step(suite("PASS", "src/e.test.js"));
    assert_eq!(parser.failure_lines.len(), 2);
    assert_eq!(parser.state, ParseState::TestSection);
    parser.step(other("FAIL "));
    assert_eq!(parser.state, ParseState::Failures);
    parser.step(JestLine::Suites(groups(&[None, Some("1"), Some("1"), Some("2")])));
    assert_eq!(parser.state, ParseState::Summary);
    assert_eq!(parser.failure_lines.len(), 3);
    parser.step(other("\u{25cf} behind the summary"));
    parser.step(suite("FAIL", "behind the summary"));
    assert_eq!(parser.failure_lines.len(), 3);
    assert_eq!(parser.suite_results.len(), 2);
    parser.step(JestLine::Tests(groups(&[None, Some("2"), None, Some("3"), Some("5")])));
    parser.step(JestLine::Time(groups(&[None, Some(" 4.0 s ")])));
    assert_eq!(
        parser.finish().unwrap(),
        "Yarn test: 2 failed, 3 passed (5 total) [4.0 s]\n\nFAILURES:\n\
         1. \u{25cf} D > fails\nExpected: true\n2. \u{25cf} D > also fails\n3. FAIL"
    );
}

#[test]
fn later_summary_counts() {
    let mut parser = JestParser::new();
    parser.step(JestLine::Tests(groups(&[None, Some("2"), None, Some("3"), Some("5")])));
    parser.step(JestLine::Tests(groups(&[None, None, None, Some("7"), Some("7")])));
    assert_eq!(parser.finish().unwrap(), "ok Yarn test: 7 passed");
}

#[test]
fn failure_lines_are_shortened() {
    let mut parser = JestParser::new();
    parser.step(suite("FAIL", "a"));
    parser.step(other(&format!("\u{25cf} {}", "x".repeat(200))));
    assert_eq!(parser.current_failure[0].chars().count(), 120);
    assert!(parser.current_failure[0].ends_with("xxx..."));
}

#[test]
fn nothing_read_gives_no_report() {
    let parser = JestParser::new();
    assert!(parser.finish().is_none());
    // A summary of suites alone is no test and no suite.
    let text = "Test Suites:  0 total\nsomething\n";
    assert_eq!(filter_jest_output(text), "Test Suites:  0 total\nsomething");
}

#[test]
fn noise_does_not_change_the_report() {
    let plain = " PASS  a.js\nTest Suites:  1 passed, 1 total\nTests:  3 passed, 3 total\nTime:  1 s";
    let noisy = "yarn run v1\n$ jest\n\n PASS  a.js\r\n\nTest Suites:  1 passed, 1 total\n\
                 Snapshots:   0 total\nTests:  3 passed, 3 total\nTime:  1 s\nDone in 2s.\n";
    assert_eq!(filter_jest_output(plain), "ok Yarn test: 3 passed (1 suite) [1 s]");
    assert_eq!(filter_jest_output(noisy), filter_jest_output(plain));
    assert_eq!(filter_yarn_test(noisy), filter_yarn_test(plain));
}

#[test]
fn runner_is_told_by_its_marks() {
    assert_eq!(runner_for("Test Files Duration", false), TestRunner::Vitest);
    assert_eq!(runner_for("Test Files Duration", true), TestRunner::Jest);
    assert_eq!(runner_for("Test Files Duration Test Suites:", false), TestRunner::Jest);
    assert_eq!(runner_for("Test Files", false), TestRunner::Unknown);
    assert_eq!(detect_runner("x\n  FAIL  a.js\nTest Files Duration"), TestRunner::Jest);
    assert_eq!(detect_runner("x FAIL  a.js"), TestRunner::Unknown);
}

#[test]
fn no_tests_in_any_letters() {
    for text in ["NO TESTS FOUND", "x no Tests Found y", "No tests found, exiting"] {
        assert_eq!(filter_runner_output(TestRunner::Unknown, text), "Yarn test: No tests found");
    }
    assert_eq!(filter_runner_output(TestRunner::Unknown, "no  tests found"), "no  tests found");
}
