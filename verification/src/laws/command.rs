//! Laws of what is said before a command runs and of what follows of it.

use crate::command::{both_streams, code_or, is_plan, Plan};
use vstd::prelude::*;

verus! {

/// A plan says its note just where the user asked for more words, says why the command
/// could not be started, and records the command as it stands and with `rtk` in front.
pub proof fn law_plan_is_written_out(
    plan: Plan,
    verbose: u8,
    note: Seq<char>,
    failure: Seq<char>,
    command: Seq<char>,
)
    requires
        is_plan(plan, verbose, note, failure, command),
    ensures
        verbose == 0 ==> plan.note is None,
        verbose > 0 ==> plan.note is Some && (plan.note->0)@ == note,
        plan.failure@ == failure,
        plan.command@ == command,
        plan.run_as@ == "rtk "@ + command,
{
}

/// What was printed to the two streams is read in that order, with a line feed between: the
/// first stream stands in front, the second at the end, and nothing else is there.
pub proof fn law_streams_stand_one_behind_the_other(stdout: Seq<char>, stderr: Seq<char>)
    ensures
        stdout.is_prefix_of(both_streams(stdout, stderr)),
        stderr.is_suffix_of(both_streams(stdout, stderr)),
        both_streams(stdout, stderr).len() == stdout.len() + 1 + stderr.len(),
        both_streams(stdout, stderr)[stdout.len() as int] == '\n',
{
    reveal_strlit("\n");
    let raw = both_streams(stdout, stderr);
    let n = stdout.len() as int;
    assert(raw.subrange(0, n) =~= stdout);
    assert(raw.subrange(raw.len() - stderr.len(), raw.len() as int) =~= stderr);
}

/// The exit code of a command is passed on as it is; where there is none, the other stands in
/// for it.
pub proof fn law_exit_code_is_passed_on(code: i32, other: i32)
    ensures
        code_or(Some(code), other) == code,
        code_or(None, other) == other,
{
}

} // verus!
