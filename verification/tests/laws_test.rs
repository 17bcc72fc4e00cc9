use yarn_cmd::duration::duration_millis;
use yarn_cmd::jest_report::{build_test_output, JestCounts};
use yarn_cmd::noise::{is_noise_line, pass_through};
use yarn_cmd::pattern::Groups;
use yarn_cmd::runner::{detect_runner, TestRunner};
use yarn_cmd::text::{push_decimal, trim, truncate};
use yarn_cmd::vitest::{filter_vitest_text_output, VitestLine, VitestParser};
use yarn_cmd::yarn::filter_yarn_test;

fn summary(passed: &str) -> VitestLine {
    VitestLine {
        text: format!("Tests  {} passed ({})", passed, passed),
        tests: Some(Groups {
            texts: vec![None, None, None, Some(passed.to_string()), Some(passed.to_string())],
        }),
        duration: None,
    }
}

#[test]
fn trimming_twice_is_trimming_once() {
    for text in ["", " a b ", "\u{3000}\tx\n", "x"] {
        let once = trim(text);
        assert_eq!(trim(&once), once);
    }
}

#[test]
fn trimming_keeps_a_solid_head() {
    assert!(trim("head of it \n\n  ").starts_with("head of it"));
    assert!(trim("head of it \n\n tail ").starts_with("head of it"));
}

#[test]
fn different_numbers_are_written_differently() {
    let mut seen: Vec<String> = Vec::new();
    for n in 0..1200u64 {
        let mut text = String::new();
        push_decimal(&mut text, n);
        seen.push(text);
    }
    seen.sort();
    seen.dedup();
    assert_eq!(seen.len(), 1200);
}

#[test]
fn shortened_text_fits() {
    for len in 0..10usize {
        let text = "abcdefghij"[..len].to_string();
        let short = truncate(&text, 5);
        assert!(short.chars().count() <= 5);
        if len > 5 {
            assert_eq!(short, "ab...");
        } else {
            assert_eq!(short, text);
        }
    }
}

#[test]
fn indentation_does_not_matter_to_noise() {
    for line in ["  $ jest ", "\tPASS a", "  Building... ", " Snapshots: 1 total"] {
        assert_eq!(is_noise_line(line), is_noise_line(line.trim()));
    }
}

#[test]
fn white_space_round_a_line_does_not_matter_to_noise() {
    for line in ["", "Done in 1.2s.", "info something", "src/index.ts", "  "] {
        for blank in ["", " ", "\t\r", "\u{3000} "] {
            let padded = format!("{}{}{}", blank, line, blank);
            assert_eq!(is_noise_line(&padded), is_noise_line(line), "{:?}", padded);
        }
    }
}

#[test]
fn passed_lines_are_the_lines_without_noise() {
    let text = "a\n\nDone in 1s.\nb\n  $ jest\nc";
    let passed = pass_through(text);
    let expected: Vec<&str> = text.lines().filter(|l| !is_noise_line(l)).collect();
    assert_eq!(passed.lines().collect::<Vec<&str>>(), expected);
}

#[test]
fn escape_sequences_do_not_matter() {
    let plain = " PASS  a.js\nTest Suites: 1 passed, 1 total\nTests: 2 passed, 2 total";
    let colored = "\x1b[32m PASS \x1b[0m a.js\nTest Suites: \x1b[1m1 passed\x1b[22m, 1 total\n\
                   Tests: \x1b[1;32m2 passed\x1b[0m, 2 total";
    assert_eq!(filter_yarn_test(colored), filter_yarn_test(plain));
    assert_eq!(filter_yarn_test(plain), "ok Yarn test: 2 passed (1 suite)");
}

#[test]
fn jest_comes_first() {
    let both = "Test Suites: 1 passed\nTest Files 1\nDuration 1s";
    assert_eq!(detect_runner(both), TestRunner::Jest);
}

#[test]
fn further_lines_keep_jest() {
    let outputs =
        ["Test Suites: 1 passed, 1 total", " PASS  src/a.test.js\r", "FAIL src/b.test.js\n"];
    for output in outputs {
        assert_eq!(detect_runner(output), TestRunner::Jest);
        for more in ["", "\n", " RUN  v1.0.0", "\u{2713} a\n\u{2713} b"] {
            let late = format!("{}\n{}", more, output);
            let early = format!("{}\n{}", output, more);
            assert_eq!(detect_runner(&late), TestRunner::Jest);
            assert_eq!(detect_runner(&early), TestRunner::Jest);
        }
    }
}

#[test]
fn success_mark_means_no_failure() {
    for (tests_failed, suites_failed) in [(0usize, 0usize), (1, 0), (0, 1), (2, 3)] {
        let counts = JestCounts { tests_failed, suites_failed, ..JestCounts::default() };
        let report = build_test_output(&counts, &["one".to_string()]);
        assert_eq!(report.starts_with("ok Yarn test: "), !counts.has_failures());
        assert_eq!(report.contains("\n\nFAILURES:\n1. one"), counts.has_failures());
    }
}

#[test]
fn vitest_later_summary_counts() {
    let mut parser = VitestParser::new();
    parser.step(summary("3"));
    parser.step(summary("5"));
    assert_eq!((parser.passed, parser.total), (5, 5));
}

#[test]
fn vitest_plain_line_changes_nothing() {
    let mut parser = VitestParser::new();
    parser.step(summary("3"));
    parser.step(VitestLine { text: "RUN v4".to_string(), tests: None, duration: None });
    assert_eq!(parser.finish().unwrap(), "Yarn test (vitest): PASS (3) FAIL (0)");
}

#[test]
fn failed_tests_of_a_vitest_run_are_named() {
    let output = " RUN  v1.0.0\n \u{d7} adds\n   \u{2192} expected 1\n \u{d7} divides\n\
                  Tests  2 failed | 1 passed (3)\n";
    let short = filter_vitest_text_output(output);
    assert!(short.starts_with("Yarn test (vitest): "));
    assert!(short.contains("adds"));
    assert!(short.contains("divides"));
}

#[test]
fn whole_durations_are_exact() {
    assert_eq!(duration_millis("9007199254740991", "ms"), Some(9007199254740991));
    assert_eq!(duration_millis("9007199254740", "s"), Some(9007199254740000));
}

#[test]
fn trailing_zero_does_not_matter() {
    for number in ["1.001", "8.45", "0.3", "17."] {
        let longer = format!("{}0", number);
        assert_eq!(duration_millis(number, "s"), duration_millis(&longer, "s"));
    }
}

#[test]
fn any_other_unit_is_seconds() {
    assert_eq!(duration_millis("1.5", "s"), duration_millis("1.5", "sec"));
}
