//! What is decided before and after a `yarn` command runs.

use crate::text::{join, joined, optional_text, texts};
use crate::yarn::{filter_yarn_test, yarn_test_output};
use vstd::prelude::*;

verus! {

/// What to say of a command before it runs, and the names under which its use
/// is recorded.
#[derive(Debug)]
pub struct Plan {
    /// What to say, if anything is to be said.
    pub note: Option<String>,
    /// What to say if the command cannot be started.
    pub failure: String,
    /// The command as the user could have run it.
    pub command: String,
    /// The command as it was run.
    pub run_as: String,
}

/// Why a command cannot run.
#[derive(Debug, PartialEq, Eq, Clone, Copy, Structural)]
pub enum CommandError {
    /// There is nothing that `yarn` is asked to do.
    NoSubcommand,
}

impl CommandError {
    /// What to say of the error.
    pub fn message(&self) -> (text: String)
        ensures
            text@ == (match *self {
                CommandError::NoSubcommand => "yarn: no subcommand specified"@,
            }),
    {
        match self {
            CommandError::NoSubcommand => "yarn: no subcommand specified".to_owned(),
        }
    }
}

/// How a command ended.
#[derive(Debug)]
pub struct Ended {
    /// What it printed, to both streams.
    pub raw: String,
    /// What is shown of it.
    pub shown: String,
    /// The exit code to pass on.
    pub exit_code: i32,
    /// Whether the process ends with that code.
    pub failed: bool,
}

/// Whether `plan` says `note` where the user asked for more words, says `failure`
/// if the command cannot be started, and records `command`.
pub open spec fn is_plan(
    plan: Plan,
    verbose: u8,
    note: Seq<char>,
    failure: Seq<char>,
    command: Seq<char>,
) -> bool {
    &&& optional_text(plan.note) == (if verbose > 0 {
        Some(note)
    } else {
        None
    })
    &&& plan.failure@ == failure
    &&& plan.command@ == command
    &&& plan.run_as@ == "rtk "@ + command
}

/// What a command printed to its two streams, one behind the other.
pub open spec fn both_streams(stdout: Seq<char>, stderr: Seq<char>) -> Seq<char> {
    stdout + "\n"@ + stderr
}

/// The exit code of a command that may have ended without one.
pub open spec fn code_or(code: Option<i32>, other: i32) -> i32 {
    match code {
        Some(c) => c,
        None => other,
    }
}

fn make_plan(verbose: u8, note: String, failure: String, command: String) -> (plan: Plan)
    ensures
        is_plan(plan, verbose, note@, failure@, command@),
{
    let mut run_as = "rtk ".to_owned();
    run_as.append(command.as_str());
    Plan {
        note: if verbose > 0 {
            Some(note)
        } else {
            None
        },
        failure,
        command,
        run_as,
    }
}

/// Plans `yarn test` with `args`.
pub fn plan_test(args: &Vec<String>, verbose: u8) -> (plan: Plan)
    ensures
        is_plan(
            plan,
            verbose,
            "Running: yarn test "@ + joined(texts(args@), " "@),
            "Failed to run yarn test. Is Yarn installed?"@,
            "yarn test "@ + joined(texts(args@), " "@),
        ),
{
    let list = join(args, " ");
    let mut note = "Running: yarn test ".to_owned();
    note.append(list.as_str());
    let mut command = "yarn test ".to_owned();
    command.append(list.as_str());
    let failure = "Failed to run yarn test. Is Yarn installed?".to_owned();
    make_plan(verbose, note, failure, command)
}

/// Plans `yarn` with `args`, the first of which says what to do.
pub fn plan_other(args: &Vec<String>, verbose: u8) -> (plan: Result<Plan, CommandError>)
    ensures
        plan matches Err(e) ==> args@.len() == 0 && e == CommandError::NoSubcommand,
        args@.len() == 0 ==> plan is Err,
        plan matches Ok(p) ==> is_plan(
            p,
            verbose,
            "Running: yarn "@ + args@[0]@ + " ..."@,
            "Failed to run yarn "@ + args@[0]@,
            "yarn "@ + args@[0]@,
        ),
{
    if args.len() == 0 {
        return Err(CommandError::NoSubcommand);
    }
    let mut note = "Running: yarn ".to_owned();
    note.append(args[0].as_str());
    note.append(" ...");
    let mut failure = "Failed to run yarn ".to_owned();
    failure.append(args[0].as_str());
    let mut command = "yarn ".to_owned();
    command.append(args[0].as_str());
    Ok(make_plan(verbose, note, failure, command))
}

fn join_streams(stdout: &str, stderr: &str) -> (raw: String)
    ensures
        raw@ == both_streams(stdout@, stderr@),
{
    let mut raw = stdout.to_owned();
    raw.append("\n");
    raw.append(stderr);
    raw
}

/// What follows of a `yarn test` that ended: it shows the compact form of what
/// was printed. Where there is no exit code it is zero after a success, else
/// one.
pub fn end_test(stdout: &str, stderr: &str, code: Option<i32>, success: bool) -> (ended: Ended)
    ensures
        ended.raw@ == both_streams(stdout@, stderr@),
        ended.shown@ == yarn_test_output(both_streams(stdout@, stderr@)),
        ended.exit_code == code_or(
            code,
            if success {
                0
            } else {
                1
            },
        ),
        ended.failed == !success,
{
    let raw = join_streams(stdout, stderr);
    let shown = filter_yarn_test(raw.as_str());
    let exit_code: i32 = match code {
        Some(c) => c,
        None => if success {
            0
        } else {
            1
        },
    };
    Ended { raw, shown, exit_code, failed: !success }
}

/// What follows of another command that ended: it shows what was printed as it
/// is. Where there is no exit code it is one.
pub fn end_other(stdout: &str, stderr: &str, code: Option<i32>, success: bool) -> (ended: Ended)
    ensures
        ended.raw@ == both_streams(stdout@, stderr@),
        ended.shown@ == ended.raw@,
        ended.exit_code == code_or(code, 1),
        ended.failed == !success,
{
    let raw = join_streams(stdout, stderr);
    let shown = raw.clone();
    let exit_code: i32 = match code {
        Some(c) => c,
        None => 1,
    };
    Ended { raw, shown, exit_code, failed: !success }
}

/// What is printed in the end: the compact form, and a hint behind it if there
/// is one.
pub fn with_hint(shown: &str, hint: Option<&str>) -> (text: String)
    ensures
        text@ == (match hint {
            Some(h) => shown@ + "\n"@ + h@,
            None => shown@,
        }),
{
    match hint {
        Some(h) => {
            let mut text = shown.to_owned();
            text.append("\n");
            text.append(h);
            text
        },
        None => shown.to_owned(),
    }
}

} // verus!
