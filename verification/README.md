# yarn_cmd

Turns what `yarn test` prints into a compact report. Jest and Vitest are read line
by line; the output of any other runner is passed on without the lines that Yarn
and the builds add, cut at a limit.

- `src/yarn.rs`: the entry point, `filter_yarn_test`
- `src/runner.rs`: which runner wrote the output
- `src/noise.rs`: lines that say nothing about the tests
- `src/jest.rs`, `src/jest_report.rs`: Jest output and its report
- `src/vitest.rs`, `src/test_result.rs`: Vitest output and its report
- `src/duration.rs`, `src/binary64.rs`: durations, by double-precision arithmetic in
  whole numbers
- `src/pattern.rs`: the patterns, matched by the crate `regex`
- `src/text.rs`, `src/ansi.rs`: text and terminal escape sequences
- `src/command.rs`: what is decided before and after a command runs
- `src/laws/`: what is proved of the library as a whole
- `app/`: running `yarn` itself

Verus proves every function in `src/` against its contract. Believed without proof:
`String::push`, `Regex::new` and `Regex::captures`.
