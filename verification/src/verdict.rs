use vstd::prelude::*;

verus! {

/// The decision taken on the formatter child process's exit.
#[derive(Clone, Copy, PartialEq, Eq, Structural, Debug)]
pub enum Verdict {
    /// The command succeeded: reconcile the formatted staged content.
    Proceed,
    /// The command failed: roll back every target from its backups and
    /// exit with this code.
    Abort { exit_code: i32 },
}

/// Decide from the child's exit what the run does next. `success` is
/// whether the child exited with status zero; `code` is its exit code,
/// absent when the child was terminated by a signal, in which case the
/// run fails with code 1.
pub fn formatter_verdict(success: bool, code: Option<i32>) -> (r: Verdict)
    ensures
        success ==> r == Verdict::Proceed,
        !success ==> match code {
            Option::Some(c) => r == (Verdict::Abort { exit_code: c }),
            Option::None => r == (Verdict::Abort { exit_code: 1i32 }),
        },
{
    if success {
        Verdict::Proceed
    } else {
        match code {
            Option::Some(c) => Verdict::Abort { exit_code: c },
            Option::None => Verdict::Abort { exit_code: 1 },
        }
    }
}

} // verus!
