use yarn_cmd::pattern::Groups;
use yarn_cmd::test_result::{TestFailure, TestResult};
use yarn_cmd::vitest::{filter_vitest_text_output, VitestLine, VitestParser, VitestPatterns};

fn groups(texts: &[Option<&str>]) -> Groups {
    Groups { texts: texts.iter().map(|t| t.map(|t| t.to_string())).collect() }
}

fn plain(text: &str) -> VitestLine {
    VitestLine { text: text.to_string(), tests: None, duration: None }
}

fn failure(name: &str, message: &str) -> TestFailure {
    TestFailure {
        test_name: name.to_string(),
        file_path: String::new(),
        error_message: message.to_string(),
        stack_trace: None,
    }
}

#[test]
fn compact_form_of_success() {
    let result = TestResult {
        total: 109,
        passed: 109,
        failed: 0,
        skipped: 0,
        duration_ms: Some(8450),
        failures: vec![],
    };
    assert_eq!(result.format_compact(), "PASS (109) FAIL (0)\n\nTime: 8450ms");
}

#[test]
fn compact_form_of_failures() {
    let result = TestResult {
        total: 3,
        passed: 1,
        failed: 2,
        skipped: 0,
        duration_ms: None,
        failures: vec![failure("a", "one\ntwo\nthree"), failure("b", "")],
    };
    assert_eq!(result.format_compact(), "PASS (1) FAIL (2)\n\n1. a\n   one two\n2. b\n   ");
}

#[test]
fn compact_form_counts_further_failures() {
    let result = TestResult {
        total: 7,
        passed: 0,
        failed: 7,
        skipped: 0,
        duration_ms: Some(1),
        failures: (1..=7).map(|i| failure(&format!("t{}", i), "e")).collect(),
    };
    let text = result.format_compact();
    assert!(text.contains("5. t5\n   e\n\n... +2 more failures\n\nTime: 1ms"), "{}", text);
    assert!(!text.contains("t6"));
}

#[test]
fn error_line_is_no_summary() {
    let mut parser = VitestParser::new();
    parser.step(plain("\u{d7} \u{d7} should add "));
    assert_eq!(parser.open.as_ref().unwrap().test_name, "\u{d7} should add");
    let mut line = plain("\u{2192}\u{2192} Tests  1 passed (1)");
    line.tests = Some(groups(&[None, None, None, Some("1"), Some("1")]));
    parser.step(line);
    assert_eq!(parser.total, 0);
    assert_eq!(parser.open.as_ref().unwrap().errors, ["Tests  1 passed (1)"]);
    parser.step(plain("\u{2192} second"));
    parser.step(plain("anything"));
    assert!(parser.open.is_none());
    assert_eq!(parser.failures.len(), 1);
    assert_eq!(parser.failures[0].file_path, "");
    assert!(parser.failures[0].stack_trace.is_none());
    assert_eq!(parser.failures[0].error_message, "Tests  1 passed (1)\nsecond");
    // Without a failed test in front of it an error line says nothing.
    parser.step(plain("\u{2192} lost"));
    assert_eq!(parser.failures.len(), 1);
    assert!(parser.finish().is_none());
}

#[test]
fn failed_tests_one_behind_the_other() {
    let mut parser = VitestParser::new();
    parser.step(plain("\u{d7} a"));
    parser.step(plain("\u{d7} b"));
    let mut line = plain("Tests  2 failed | 1 passed (3)");
    line.tests = Some(groups(&[None, Some("2"), None, Some("1"), Some("3")]));
    parser.step(line);
    let mut line = plain("Duration  1.2.3s");
    line.duration = Some(groups(&[None, Some("1.2.3"), Some("s")]));
    parser.step(line);
    assert_eq!(parser.duration_ms, None);
    let mut line = plain("Duration  450ms");
    line.duration = Some(groups(&[None, Some("450"), Some("ms")]));
    parser.step(line);
    assert_eq!(
        parser.finish().unwrap(),
        "Yarn test (vitest): PASS (1) FAIL (2)\n\n1. a\n   \n2. b\n   \n\nTime: 450ms"
    );
}

#[test]
fn failure_at_the_end_is_complete() {
    let text = "Tests  1 failed | 1 passed (2)\n\u{d7} last\n  \u{2192} why";
    assert_eq!(
        filter_vitest_text_output(text),
        "Yarn test (vitest): PASS (1) FAIL (1)\n\n1. last\n   why"
    );
}

#[test]
fn without_a_summary_the_output_is_passed_on() {
    assert_eq!(filter_vitest_text_output("$ vitest\nTest Files\nDuration"), "Test Files\nDuration");
    assert_eq!(filter_vitest_text_output("Tests  0 passed (0)"), "Tests  0 passed (0)");
}

#[test]
fn lines_are_matched() {
    let patterns = VitestPatterns::new();
    let line = patterns.read_line("   Tests  1 failed | 5 skipped | 100 passed (106)  ");
    assert_eq!(line.text, "Tests  1 failed | 5 skipped | 100 passed (106)");
    assert_eq!(line.tests.unwrap().count(2), 5);
    assert!(line.duration.is_none());
    let line = patterns.read_line(" Duration  8.45s (tests 1s)");
    assert!(line.tests.is_none());
    let duration = line.duration.unwrap();
    assert_eq!((duration.text(1), duration.text(2)), ("8.45".to_string(), "s".to_string()));
}
