//! The supervisor's reload: two commands in a row, both of which must
//! succeed. The caller runs each command and reports what came of it.

use crate::store::{ReloadPhase, StoreError};
use vstd::prelude::*;

verus! {

/// What running one command gave.
#[derive(Clone, Debug, PartialEq, Eq)]
pub struct CommandOutput {
    /// Whether the command reported success.
    pub success: bool,
    /// What it wrote to its standard output.
    pub stdout: Vec<u8>,
    /// What it wrote to its standard error.
    pub stderr: Vec<u8>,
}

/// How the reload goes on after a command.
#[derive(Debug, PartialEq, Eq)]
pub enum ReloadStep {
    /// Run the command of this phase next.
    Run(ReloadPhase),
    /// The reload is over.
    Done(Result<(), StoreError>),
}

/// The words of the command line of `phase`.
pub open spec fn spec_command(phase: ReloadPhase) -> Seq<Seq<char>> {
    seq![
        "sudo"@,
        "supervisorctl"@,
        match phase {
            ReloadPhase::Reread => "reread"@,
            ReloadPhase::Update => "update"@,
        },
    ]
}

/// The command line of `phase`, program first.
pub fn command(phase: ReloadPhase) -> (words: Vec<&'static str>)
    ensures
        words@.map_values(|word: &'static str| word@) == spec_command(phase),
{
    let mut words: Vec<&'static str> = Vec::new();
    words.push("sudo");
    words.push("supervisorctl");
    match phase {
        ReloadPhase::Reread => words.push("reread"),
        ReloadPhase::Update => words.push("update"),
    }
    assert(words@.map_values(|word: &'static str| word@) == spec_command(phase));
    words
}

/// The phase a reload begins with.
pub fn first_phase() -> (phase: ReloadPhase)
    ensures
        phase == ReloadPhase::Reread,
{
    ReloadPhase::Reread
}

/// The step that follows `phase` once its command gave `output`. A failed
/// command ends the reload with what the command printed: its standard
/// output for the first phase, its standard error for the second.
pub open spec fn spec_after_phase(phase: ReloadPhase, output: CommandOutput) -> ReloadStep {
    match phase {
        ReloadPhase::Reread => if output.success {
            ReloadStep::Run(ReloadPhase::Update)
        } else {
            ReloadStep::Done(Err(StoreError::Reload { phase, output: output.stdout }))
        },
        ReloadPhase::Update => if output.success {
            ReloadStep::Done(Ok(()))
        } else {
            ReloadStep::Done(Err(StoreError::Reload { phase, output: output.stderr }))
        },
    }
}

/// Says how the reload goes on after the command of `phase` gave `output`.
pub fn after_phase(phase: ReloadPhase, output: CommandOutput) -> (step: ReloadStep)
    ensures
        step == spec_after_phase(phase, output),
        step is Done && step->Done_0 is Ok <==> phase == ReloadPhase::Update && output.success,
{
    match phase {
        ReloadPhase::Reread => if output.success {
            ReloadStep::Run(ReloadPhase::Update)
        } else {
            ReloadStep::Done(Err(StoreError::Reload { phase, output: output.stdout }))
        },
        ReloadPhase::Update => if output.success {
            ReloadStep::Done(Ok(()))
        } else {
            ReloadStep::Done(Err(StoreError::Reload { phase, output: output.stderr }))
        },
    }
}

/// A reload succeeds only if both of its commands do: the second command is
/// run exactly when the first succeeded, the reload is over after the
/// second, and it ends well exactly when the second succeeded too.
pub proof fn lemma_reload_needs_both(reread: CommandOutput, update: CommandOutput)
    ensures
        spec_after_phase(ReloadPhase::Reread, reread) == ReloadStep::Run(ReloadPhase::Update)
            <==> reread.success,
        !reread.success ==> spec_after_phase(ReloadPhase::Reread, reread) == ReloadStep::Done(
            Err(StoreError::Reload { phase: ReloadPhase::Reread, output: reread.stdout }),
        ),
        spec_after_phase(ReloadPhase::Update, update) is Done,
        spec_after_phase(ReloadPhase::Update, update) == ReloadStep::Done(Ok(()))
            <==> update.success,
        !update.success ==> spec_after_phase(ReloadPhase::Update, update) == ReloadStep::Done(
            Err(StoreError::Reload { phase: ReloadPhase::Update, output: update.stderr }),
        ),
{
}

} // verus!
