use yarn_cmd::command::{end_other, end_test, plan_other, plan_test, with_hint, CommandError};

fn owned(list: &[&str]) -> Vec<String> {
    list.iter().map(|s| s.to_string()).collect()
}

#[test]
fn plan_of_a_test_run() {
    let plan = plan_test(&owned(&["--watch=false", "a b"]), 1);
    assert_eq!(plan.note.as_deref(), Some("Running: yarn test --watch=false a b"));
    assert_eq!(plan.failure, "Failed to run yarn test. Is Yarn installed?");
    assert_eq!(plan.command, "yarn test --watch=false a b");
    assert_eq!(plan.run_as, "rtk yarn test --watch=false a b");
    let quiet = plan_test(&owned(&[]), 0);
    assert!(quiet.note.is_none());
    assert_eq!(quiet.command, "yarn test ");
}

#[test]
fn plan_of_another_command() {
    let plan = plan_other(&owned(&["install", "--frozen-lockfile"]), 2).unwrap();
    assert_eq!(plan.note.as_deref(), Some("Running: yarn install ..."));
    assert_eq!(plan.failure, "Failed to run yarn install");
    assert_eq!(plan.command, "yarn install");
    assert_eq!(plan.run_as, "rtk yarn install");
}

#[test]
fn no_subcommand_is_an_error() {
    let error = plan_other(&owned(&[]), 0).unwrap_err();
    assert_eq!(error, CommandError::NoSubcommand);
    assert_eq!(error.message(), "yarn: no subcommand specified");
}

#[test]
fn end_of_a_test_run() {
    let ended = end_test("No tests found", "warning", Some(3), false);
    assert_eq!(ended.raw, "No tests found\nwarning");
    assert_eq!(ended.shown, "Yarn test: No tests found");
    assert_eq!((ended.exit_code, ended.failed), (3, true));
    assert_eq!(end_test("", "", None, false).exit_code, 1);
    assert_eq!(end_test("", "", None, true).exit_code, 0);
    assert!(!end_test("", "", Some(0), true).failed);
}

#[test]
fn end_of_another_command() {
    let ended = end_other("out", "err", None, false);
    assert_eq!(ended.raw, "out\nerr");
    assert_eq!(ended.shown, "out\nerr");
    assert_eq!((ended.exit_code, ended.failed), (1, true));
    assert_eq!(end_other("", "", Some(0), true).exit_code, 0);
}

#[test]
fn hint_stands_behind_the_report() {
    assert_eq!(with_hint("report", Some("see the log")), "report\nsee the log");
    assert_eq!(with_hint("report", None), "report");
}
