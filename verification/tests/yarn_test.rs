use yarn_cmd::noise::is_noise_line;
use yarn_cmd::pattern::{
    Pattern, TESTS_RE, TEST_SUITES_RE, VITEST_DURATION_RE, VITEST_TESTS_RE,
};
use yarn_cmd::runner::{detect_runner, TestRunner};
use yarn_cmd::yarn::filter_yarn_test;

const VITEST_ALL_PASS: &str = r#"yarn run v1.22.22
$ ng test --watch=false
Building...
Initial chunk files | Names         |  Raw size
main.js             | main          | 120.45 kB
polyfills.js        | polyfills     |  34.52 kB

Application bundle generation complete. [4.321 seconds]

 RUN  v4.0.8 /home/dev/app

 ✓ src/app/app.component.spec.ts (8 tests) 124ms
 ✓ src/app/header/header.component.spec.ts (11 tests) 98ms
 ✓ src/app/footer/footer.component.spec.ts (6 tests) 45ms
 ✓ src/app/user/user.service.spec.ts (14 tests) 31ms
 ✓ src/app/user/user.component.spec.ts (12 tests) 210ms
 ✓ src/app/menu/menu.component.spec.ts (9 tests) 87ms
 ✓ src/app/form/form.component.spec.ts (13 tests) 176ms
 ✓ src/app/form/validators.spec.ts (10 tests) 12ms
 ✓ src/app/api/client.spec.ts (7 tests) 56ms
 ✓ src/app/api/interceptor.spec.ts (8 tests) 22ms
 ✓ src/app/state/store.spec.ts (6 tests) 18ms
 ✓ src/app/state/effects.spec.ts (5 tests) 27ms

 Test Files  12 passed (12)
      Tests  109 passed (109)
   Start at  14:23:45
   Duration  8.45s (transform 1.23s, setup 0.89s, import 3.10s, tests 0.91s, environment 2.05s)

Done in 12.34s.
"#;

const VITEST_WITH_FAILURES: &str = r#"yarn run v1.22.22
$ ng test --watch=false
Building...
Initial chunk files | Names         |  Raw size
main.js             | main          | 120.45 kB
polyfills.js        | polyfills     |  34.52 kB

Application bundle generation complete. [4.321 seconds]

 RUN  v4.0.8 /home/dev/app

 ✓ src/app/app.component.spec.ts (8 tests) 124ms
 ✓ src/app/header/header.component.spec.ts (11 tests) 98ms
 ✓ src/app/footer/footer.component.spec.ts (6 tests) 45ms
 ✓ src/app/user/user.service.spec.ts (14 tests) 31ms
 ❯ src/app/user/user.component.spec.ts (12 tests | 1 failed) 210ms
   × should display user name 23ms
     → expected 'Ada' to be 'Grace'
 ❯ src/app/menu/menu.component.spec.ts (9 tests | 1 failed) 87ms
   × should toggle menu 12ms
     → expected false to be true
 ❯ src/app/form/form.component.spec.ts (13 tests | 1 failed) 176ms
   × should validate email 9ms
     → expected null not to be null
 ✓ src/app/form/validators.spec.ts (10 tests) 12ms
 ✓ src/app/api/client.spec.ts (7 tests) 56ms
 ✓ src/app/api/interceptor.spec.ts (8 tests) 22ms
 ✓ src/app/state/store.spec.ts (6 tests) 18ms
 ✓ src/app/state/effects.spec.ts (5 tests) 27ms

 Test Files  3 failed | 9 passed (12)
      Tests  3 failed | 106 passed (109)
   Start at  14:25:12
   Duration  8.61s (transform 1.25s, setup 0.90s, import 3.12s, tests 0.97s, environment 2.07s)

error Command failed with exit code 1.
info Visit https://yarnpkg.com/en/docs/cli/run for documentation about this command.
"#;

fn count_tokens(text: &str) -> usize {
    text.split_whitespace().count()
}

#[test]
fn test_filter_yarn_test_all_pass() {
    let input = r#"yarn run v1.22.22
$ jest
 PASS  src/utils.test.js
 PASS  src/app.test.js

Test Suites:  2 passed, 2 total
Tests:        8 passed, 8 total
Snapshots:   0 total
Time:        3.456 s
Ran all test suites.
Done in 4.12s."#;

    let result = filter_yarn_test(input);
    assert!(
        result.contains("ok Yarn test"),
        "Expected success marker, got: {}",
        result
    );
    assert!(
        result.contains("8 passed"),
        "Expected '8 passed', got: {}",
        result
    );
    assert!(
        result.contains("2 suites"),
        "Expected '2 suites', got: {}",
        result
    );
    assert!(result.contains("3.456 s"), "Expected time, got: {}", result);
    // Should NOT contain noise
    assert!(!result.contains("yarn run"), "Should strip yarn preamble");
    assert!(!result.contains("$ jest"), "Should strip jest invocation");
    assert!(!result.contains("Done in"), "Should strip yarn footer");
    assert!(
        !result.contains("Ran all test suites"),
        "Should strip jest boilerplate"
    );
    assert!(!result.contains("Snapshots"), "Should strip snapshots line");
}

#[test]
fn test_filter_yarn_test_with_failures() {
    let input = r#"yarn run v1.22.22
$ jest
 PASS  src/utils.test.js
 FAIL  src/app.test.js
  ● App > should render correctly

    expect(received).toBe(expected)

    Expected: "Hello"
    Received: "World"

      12 |   const result = render(<App />);
      13 |   expect(result.text()).toBe("Hello");
         |                         ^
      14 | });

Test Suites:  1 failed, 1 passed, 2 total
Tests:        1 failed, 5 passed, 6 total
Snapshots:   0 total
Time:        2.345 s
Ran all test suites.
error Command failed with exit code 1."#;

    let result = filter_yarn_test(input);
    assert!(
        result.contains("1 failed"),
        "Expected failure count, got: {}",
        result
    );
    assert!(
        result.contains("FAILURES"),
        "Expected FAILURES section, got: {}",
        result
    );
    assert!(
        result.contains("should render correctly"),
        "Expected test name, got: {}",
        result
    );
    assert!(
        result.contains("Expected:"),
        "Expected assertion message, got: {}",
        result
    );
}

#[test]
fn test_filter_yarn_test_strips_yarn_noise() {
    let input = r#"yarn run v1.22.22
$ jest
 PASS  src/index.test.js

Test Suites:  1 passed, 1 total
Tests:        3 passed, 3 total
Snapshots:   0 total
Time:        1.2 s
Ran all test suites.
Done in 2.00s."#;

    let result = filter_yarn_test(input);
    assert!(!result.contains("yarn run"), "Should strip yarn run");
    assert!(!result.contains("$ jest"), "Should strip $ jest");
    assert!(!result.contains("Done in"), "Should strip Done in");
    assert!(
        !result.contains("Ran all test suites"),
        "Should strip boilerplate"
    );
    assert!(!result.contains("Snapshots"), "Should strip snapshots");
}

#[test]
fn test_filter_yarn_test_no_tests() {
    let input = r#"yarn run v1.22.22
$ jest
No tests found, exiting with code 0
Done in 1.00s."#;

    let result = filter_yarn_test(input);
    assert!(
        result.contains("No tests found"),
        "Expected no tests message, got: {}",
        result
    );
}

#[test]
fn test_filter_yarn_test_with_skipped() {
    let input = r#"yarn run v1.22.22
$ jest
 PASS  src/utils.test.js
 PASS  src/app.test.js

Test Suites:  2 passed, 2 total
Tests:        2 skipped, 6 passed, 8 total
Snapshots:   0 total
Time:        2.5 s
Ran all test suites.
Done in 3.00s."#;

    let result = filter_yarn_test(input);
    assert!(
        result.contains("ok Yarn test"),
        "Expected success marker, got: {}",
        result
    );
    assert!(
        result.contains("6 passed"),
        "Expected passed count, got: {}",
        result
    );
    assert!(
        result.contains("2 skipped"),
        "Expected skipped count, got: {}",
        result
    );
}

#[test]
fn test_filter_yarn_test_berry_format() {
    let input = r#"➤ YN0000: · Yarn 4.0.2
➤ YN0000: ┌ Resolution step
➤ YN0000: └ Completed
➤ YN0000: ┌ Post-resolution validation
➤ YN0000: └ Completed
 PASS  src/utils.test.js

Test Suites:  1 passed, 1 total
Tests:        4 passed, 4 total
Snapshots:   0 total
Time:        1.8 s
Ran all test suites."#;

    let result = filter_yarn_test(input);
    assert!(
        result.contains("ok Yarn test"),
        "Expected success, got: {}",
        result
    );
    assert!(!result.contains("YN0000"), "Should strip Berry preamble");
    assert!(
        result.contains("4 passed"),
        "Expected 4 passed, got: {}",
        result
    );
}

#[test]
fn test_yarn_test_token_savings() {
    let input = r#"yarn run v1.22.22
$ jest --verbose
 PASS  src/components/Button.test.tsx
  Button Component
    ✓ renders correctly (15 ms)
    ✓ handles click events (8 ms)
    ✓ applies disabled state (5 ms)
    ✓ renders with custom className (3 ms)
 PASS  src/components/Input.test.tsx
  Input Component
    ✓ renders correctly (12 ms)
    ✓ handles change events (6 ms)
    ✓ shows error state (4 ms)
    ✓ handles focus/blur (7 ms)
 PASS  src/hooks/useAuth.test.ts
  useAuth Hook
    ✓ returns authenticated state (20 ms)
    ✓ handles login (15 ms)
    ✓ handles logout (10 ms)
    ✓ refreshes token (8 ms)
 PASS  src/utils/format.test.ts
  Format Utilities
    ✓ formats currency (2 ms)
    ✓ formats date (3 ms)
    ✓ truncates text (1 ms)
    ✓ capitalizes string (1 ms)
 PASS  src/api/client.test.ts
  API Client
    ✓ makes GET request (25 ms)
    ✓ makes POST request (18 ms)
    ✓ handles errors (12 ms)
    ✓ includes auth headers (5 ms)
    ✓ retries on failure (30 ms)
 PASS  src/store/reducer.test.ts
  Store Reducer
    ✓ handles SET_USER action (3 ms)
    ✓ handles CLEAR_USER action (2 ms)
    ✓ handles SET_LOADING action (1 ms)
    ✓ handles SET_ERROR action (2 ms)
    ✓ handles RESET action (1 ms)

Test Suites:  6 passed, 6 total
Tests:        26 passed, 26 total
Snapshots:   0 total
Time:        5.234 s
Ran all test suites.
Done in 6.12s."#;

    let result = filter_yarn_test(input);
    let input_tokens = count_tokens(input);
    let output_tokens = count_tokens(&result);
    let savings = 100.0 - (output_tokens as f64 / input_tokens as f64 * 100.0);

    assert!(
        savings >= 75.0,
        "Yarn test filter: expected >=75% savings, got {:.1}% (input: {} tokens, output: {} tokens)\nOutput: {}",
        savings, input_tokens, output_tokens, result
    );
}

#[test]
fn test_parse_test_suites_line() {
    let line = "Test Suites:  1 failed, 2 passed, 3 total";
    let caps = Pattern::new(TEST_SUITES_RE).captures(line).expect("Should match");
    assert_eq!(caps.get(1).unwrap().as_str(), "1");
    assert_eq!(caps.get(2).unwrap().as_str(), "2");
    assert_eq!(caps.get(3).unwrap().as_str(), "3");
}

#[test]
fn test_parse_tests_line() {
    let line = "Tests:  1 failed, 2 skipped, 5 passed, 8 total";
    let caps = Pattern::new(TESTS_RE).captures(line).expect("Should match");
    assert_eq!(caps.get(1).unwrap().as_str(), "1");
    assert_eq!(caps.get(2).unwrap().as_str(), "2");
    assert_eq!(caps.get(3).unwrap().as_str(), "5");
    assert_eq!(caps.get(4).unwrap().as_str(), "8");
}

#[test]
fn test_is_noise_line_yarn_preamble() {
    assert!(is_noise_line("yarn run v1.22.22"));
    assert!(is_noise_line("$ jest"));
    assert!(is_noise_line("$ react-scripts test"));
    assert!(is_noise_line("$ node scripts/test.js"));
}

#[test]
fn test_is_noise_line_yarn_footer() {
    assert!(is_noise_line("Done in 4.12s."));
    assert!(is_noise_line("error Command failed with exit code 1."));
    assert!(is_noise_line(
        "info Visit https://yarnpkg.com/en/docs/cli/run for documentation."
    ));
}

#[test]
fn test_is_noise_line_not_noise() {
    assert!(!is_noise_line(" PASS  src/utils.test.js"));
    assert!(!is_noise_line(" FAIL  src/app.test.js"));
    assert!(!is_noise_line("Test Suites:  2 passed, 2 total"));
    assert!(!is_noise_line("  ● App > should render correctly"));
}

#[test]
fn test_filter_yarn_test_ansi_stripped() {
    let input = "\x1b[1m\x1b[32m PASS \x1b[39m\x1b[22m src/utils.test.js\n\
                  \n\
                  Test Suites:  \x1b[1m\x1b[32m1 passed\x1b[39m\x1b[22m, 1 total\n\
                  Tests:        \x1b[1m\x1b[32m3 passed\x1b[39m\x1b[22m, 3 total\n\
                  Snapshots:   0 total\n\
                  Time:        1.5 s\n\
                  Ran all test suites.";

    let result = filter_yarn_test(input);
    assert!(
        result.contains("ok Yarn test"),
        "Expected success with ANSI stripped, got: {}",
        result
    );
    assert!(!result.contains("\x1b["), "Should not contain ANSI codes");
}

#[test]
fn test_filter_yarn_test_non_jest_runner_passthrough() {
    // Angular/Karma style output — no Jest PASS/FAIL or Test Suites lines
    let input = r#"yarn run v1.22.22
$ ng test --watch=false
10% building 3/3 modules 0 activeBuilding...
30% building 15/15 modules 0 active
chunk {main} main.js (main) 12.3 kB [entry]
chunk {vendor} vendor.js (vendor) 450 kB [initial]
Chrome Headless 120.0: Executed 42 of 42 SUCCESS (1.234 secs / 0.987 secs)
Done in 15.00s."#;

    let result = filter_yarn_test(input);
    assert!(
        !result.contains("No tests found"),
        "Non-Jest runner should NOT show 'No tests found', got: {}",
        result
    );
    // Should preserve meaningful lines
    assert!(
        result.contains("Executed 42 of 42 SUCCESS"),
        "Should preserve Karma results, got: {}",
        result
    );
}

#[test]
fn test_filter_yarn_test_jest_no_tests_preserved() {
    // Jest explicitly says "No tests found" — should still return that message
    let input = r#"yarn run v1.22.22
$ jest
No tests found, exiting with code 0
Done in 0.50s."#;

    let result = filter_yarn_test(input);
    assert_eq!(
        result, "Yarn test: No tests found",
        "Jest 'No tests found' should be preserved, got: {}",
        result
    );
}

#[test]
fn test_filter_yarn_test_non_jest_truncation() {
    // Large non-Jest output should be truncated
    let mut lines = vec!["yarn run v1.22.22".to_string(), "$ ng test".to_string()];
    for i in 0..200 {
        lines.push(format!("  TestResult {}: some long test output line that keeps going and going to fill up space number {}", i, i));
    }
    lines.push("Done in 30.00s.".to_string());
    let input = lines.join("\n");

    let result = filter_yarn_test(&input);
    assert!(
        !result.contains("No tests found"),
        "Large non-Jest output should NOT show 'No tests found'"
    );
    assert!(
        result.contains("[RTK:PASSTHROUGH]"),
        "Large non-Jest output should be truncated with passthrough marker, got len: {}",
        result.len()
    );
}

#[test]
fn test_filter_yarn_test_multiple_suites() {
    let input = r#" PASS  src/a.test.js
 PASS  src/b.test.js
 PASS  src/c.test.js
 FAIL  src/d.test.js
  ● D > fails

    Expected: true
    Received: false

Test Suites:  1 failed, 3 passed, 4 total
Tests:        1 failed, 11 passed, 12 total
Snapshots:   0 total
Time:        4.0 s"#;

    let result = filter_yarn_test(input);
    assert!(
        result.contains("1 failed"),
        "Expected 1 failed, got: {}",
        result
    );
    assert!(
        result.contains("11 passed"),
        "Expected 11 passed, got: {}",
        result
    );
    assert!(
        result.contains("12 total"),
        "Expected 12 total, got: {}",
        result
    );
    assert!(
        result.contains("FAILURES"),
        "Expected FAILURES section, got: {}",
        result
    );
    assert!(
        result.contains("D > fails"),
        "Expected failure name, got: {}",
        result
    );
}

// --- TestRunner detection tests ---

#[test]
fn test_detect_runner_jest() {
    let jest_output = " PASS  src/utils.test.js\nTest Suites:  1 passed, 1 total";
    assert_eq!(detect_runner(jest_output), TestRunner::Jest);
}

#[test]
fn test_detect_runner_jest_pass_fail_only() {
    // Even without "Test Suites:", PASS/FAIL prefix should detect Jest
    let jest_output = " PASS  src/utils.test.js\n FAIL  src/app.test.js";
    assert_eq!(detect_runner(jest_output), TestRunner::Jest);
}

#[test]
fn test_detect_runner_vitest() {
    let vitest_output =
        " Test Files  12 passed (12)\n      Tests  109 passed (109)\n   Duration  8.45s";
    assert_eq!(detect_runner(vitest_output), TestRunner::Vitest);
}

#[test]
fn test_detect_runner_unknown() {
    let unknown_output = "Chrome Headless: Executed 42 of 42 SUCCESS";
    assert_eq!(detect_runner(unknown_output), TestRunner::Unknown);
}

// --- Vitest output tests ---

#[test]
fn test_filter_vitest_all_pass() {
    let input = VITEST_ALL_PASS;
    let result = filter_yarn_test(input);

    assert!(
        result.contains("Yarn test (vitest):"),
        "Expected vitest prefix, got: {}",
        result
    );
    assert!(
        result.contains("PASS (109)"),
        "Expected 109 passed, got: {}",
        result
    );
    assert!(
        result.contains("FAIL (0)"),
        "Expected 0 failed, got: {}",
        result
    );
    assert!(
        result.contains("8450ms"),
        "Expected duration, got: {}",
        result
    );
    // Should NOT contain noise
    assert!(!result.contains("yarn run"), "Should strip yarn preamble");
    assert!(!result.contains("Building"), "Should strip build noise");
    assert!(!result.contains("Start at"), "Should strip Start at line");
    assert!(!result.contains("Done in"), "Should strip yarn footer");
}

#[test]
fn test_filter_vitest_with_failures() {
    let input = VITEST_WITH_FAILURES;
    let result = filter_yarn_test(input);

    assert!(
        result.contains("Yarn test (vitest):"),
        "Expected vitest prefix, got: {}",
        result
    );
    assert!(
        result.contains("PASS (106)"),
        "Expected 106 passed, got: {}",
        result
    );
    assert!(
        result.contains("FAIL (3)"),
        "Expected 3 failed, got: {}",
        result
    );
    // Failure details
    assert!(
        result.contains("should display user name"),
        "Expected failure test name, got: {}",
        result
    );
    assert!(
        result.contains("should toggle menu"),
        "Expected second failure, got: {}",
        result
    );
    assert!(
        result.contains("should validate email"),
        "Expected third failure, got: {}",
        result
    );
}

#[test]
fn test_vitest_token_savings() {
    let input = VITEST_ALL_PASS;
    let result = filter_yarn_test(input);

    let input_tokens = count_tokens(input);
    let output_tokens = count_tokens(&result);
    let savings = 100.0 - (output_tokens as f64 / input_tokens as f64 * 100.0);

    assert!(
        savings >= 60.0,
        "Vitest filter: expected >=60% savings, got {:.1}% (input: {} tokens, output: {} tokens)\nOutput: {}",
        savings, input_tokens, output_tokens, result
    );
}

#[test]
fn test_vitest_with_failures_token_savings() {
    let input = VITEST_WITH_FAILURES;
    let result = filter_yarn_test(input);

    let input_tokens = count_tokens(input);
    let output_tokens = count_tokens(&result);
    let savings = 100.0 - (output_tokens as f64 / input_tokens as f64 * 100.0);

    assert!(
        savings >= 60.0,
        "Vitest failure filter: expected >=60% savings, got {:.1}% (input: {} tokens, output: {} tokens)\nOutput: {}",
        savings, input_tokens, output_tokens, result
    );
}

#[test]
fn test_is_noise_line_vitest_preamble() {
    assert!(is_noise_line("$ ng test --watch=false"));
    assert!(is_noise_line("$ vitest run"));
    assert!(is_noise_line("Building..."));
    assert!(is_noise_line("Start at  14:23:45"));
}

#[test]
fn test_vitest_regex_tests_all_pass() {
    let line = "Tests  109 passed (109)";
    let caps = Pattern::new(VITEST_TESTS_RE).captures(line).expect("Should match");
    assert!(caps.get(1).is_none()); // no failed
    assert!(caps.get(2).is_none()); // no skipped
    assert_eq!(caps.get(3).unwrap().as_str(), "109");
    assert_eq!(caps.get(4).unwrap().as_str(), "109");
}

#[test]
fn test_vitest_regex_tests_with_failures() {
    let line = "Tests  3 failed | 106 passed (109)";
    let caps = Pattern::new(VITEST_TESTS_RE).captures(line).expect("Should match");
    assert_eq!(caps.get(1).unwrap().as_str(), "3");
    assert!(caps.get(2).is_none()); // no skipped
    assert_eq!(caps.get(3).unwrap().as_str(), "106");
    assert_eq!(caps.get(4).unwrap().as_str(), "109");
}

#[test]
fn test_vitest_regex_tests_with_skipped() {
    let line = "Tests  1 failed | 5 skipped | 100 passed (106)";
    let caps = Pattern::new(VITEST_TESTS_RE).captures(line).expect("Should match");
    assert_eq!(caps.get(1).unwrap().as_str(), "1");
    assert_eq!(caps.get(2).unwrap().as_str(), "5");
    assert_eq!(caps.get(3).unwrap().as_str(), "100");
    assert_eq!(caps.get(4).unwrap().as_str(), "106");
}

#[test]
fn test_vitest_regex_duration_seconds() {
    let line = "Duration  8.45s (transform 1.23s, setup 0.89s)";
    let caps = Pattern::new(VITEST_DURATION_RE).captures(line).expect("Should match");
    assert_eq!(caps.get(1).unwrap().as_str(), "8.45");
    assert_eq!(caps.get(2).unwrap().as_str(), "s");
}

#[test]
fn test_vitest_regex_duration_ms() {
    let line = "Duration  450ms";
    let caps = Pattern::new(VITEST_DURATION_RE).captures(line).expect("Should match");
    assert_eq!(caps.get(1).unwrap().as_str(), "450");
    assert_eq!(caps.get(2).unwrap().as_str(), "ms");
}
