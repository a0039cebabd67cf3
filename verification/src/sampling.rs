//! The course of a sampling session: which command comes next, and how the
//! outcome of each command decides what follows.
//!
//! A session makes sure that the sampling agent is there, then takes its
//! chunks one after the other: each chunk is recorded, then copied. Any
//! command that fails ends the session. Running the commands is the caller's
//! part; this module says which one is due.

use vstd::prelude::*;

verus! {

/// A command of a session.
#[derive(Debug, Clone, Copy, PartialEq, Eq)]
pub enum SamplingStep {
    /// Ask the agent for its version, to see whether it is installed.
    CheckAgent,
    /// Install the agent.
    InstallAgent,
    /// Record the chunk of the given number, counted from 0.
    Record { chunk: u16 },
    /// Copy the recorded chunk of the given number to local storage.
    CopyResults { chunk: u16 },
}

/// The command that ended a session early.
#[derive(Debug, Clone, Copy, PartialEq, Eq)]
pub enum SamplingFailure {
    /// The check for the agent could not be started.
    AgentCheck,
    /// The agent could not be installed.
    AgentInstall,
    /// Recording the chunk of the given number failed.
    Record { chunk: u16 },
    /// Copying the chunk of the given number failed.
    CopyResults { chunk: u16 },
}

/// Where a session stands.
#[derive(Debug, Clone, Copy, PartialEq, Eq)]
pub enum SamplingState {
    /// The given command is due.
    Running(SamplingStep),
    /// Every chunk has been recorded and copied.
    Finished,
    /// A command failed; nothing more is done.
    Failed(SamplingFailure),
}

/// How a command ended.
#[derive(Debug, Clone, Copy, PartialEq, Eq)]
pub enum CommandOutcome {
    /// The command could not be started.
    NotStarted,
    /// The command ran and ended with this exit code, or without one where a
    /// signal ended it.
    Exited { code: Option<i32> },
}

impl CommandOutcome {
    /// A command succeeded when it ran and ended with exit code 0.
    pub open spec fn succeeded(self) -> bool {
        self == (CommandOutcome::Exited { code: Some(0i32) })
    }

    /// Whether the command ran and ended with exit code 0.
    pub fn is_success(&self) -> (success: bool)
        ensures
            success == self.succeeded(),
    {
        match self {
            CommandOutcome::Exited { code: Some(code) } => *code == 0,
            _ => false,
        }
    }
}

/// The state with which a session of `count` chunks goes on once the agent
/// is known to be there.
pub open spec fn recording_from_start(count: u16) -> SamplingState {
    if count == 0 {
        SamplingState::Finished
    } else {
        SamplingState::Running(SamplingStep::Record { chunk: 0 })
    }
}

/// The state that follows `step` in a session of `count` chunks, once the
/// command of `step` has ended with `outcome`.
///
/// A check that ran and did not succeed means that the agent is missing, and
/// the agent is installed; any other command that does not succeed ends the
/// session. After the last chunk is copied the session is finished.
pub open spec fn state_after(step: SamplingStep, outcome: CommandOutcome, count: u16) -> SamplingState {
    match step {
        SamplingStep::CheckAgent => match outcome {
            CommandOutcome::NotStarted => SamplingState::Failed(SamplingFailure::AgentCheck),
            CommandOutcome::Exited { code } => if outcome.succeeded() {
                recording_from_start(count)
            } else {
                SamplingState::Running(SamplingStep::InstallAgent)
            },
        },
        SamplingStep::InstallAgent => if outcome.succeeded() {
            recording_from_start(count)
        } else {
            SamplingState::Failed(SamplingFailure::AgentInstall)
        },
        SamplingStep::Record { chunk } => if outcome.succeeded() {
            SamplingState::Running(SamplingStep::CopyResults { chunk })
        } else {
            SamplingState::Failed(SamplingFailure::Record { chunk })
        },
        SamplingStep::CopyResults { chunk } => if !outcome.succeeded() {
            SamplingState::Failed(SamplingFailure::CopyResults { chunk })
        } else if chunk + 1 < count {
            SamplingState::Running(SamplingStep::Record { chunk: (chunk + 1) as u16 })
        } else {
            SamplingState::Finished
        },
    }
}

/// The most commands that a session of `count` chunks still runs when it
/// stands at `state`.
pub open spec fn commands_left(state: SamplingState, count: u16) -> int {
    match state {
        SamplingState::Running(SamplingStep::CheckAgent) => 2 * count + 2,
        SamplingState::Running(SamplingStep::InstallAgent) => 2 * count + 1,
        SamplingState::Running(SamplingStep::Record { chunk }) => if chunk < count {
            2 * (count - chunk)
        } else {
            2
        },
        SamplingState::Running(SamplingStep::CopyResults { chunk }) => if chunk < count {
            2 * (count - chunk) - 1
        } else {
            1
        },
        SamplingState::Finished => 0,
        SamplingState::Failed(_) => 0,
    }
}

/// The chunks that have been recorded and copied when a session stands at
/// `state`, as far as the state tells.
pub open spec fn chunks_done(state: SamplingState, count: u16) -> int {
    match state {
        SamplingState::Running(SamplingStep::CheckAgent) => 0,
        SamplingState::Running(SamplingStep::InstallAgent) => 0,
        SamplingState::Running(SamplingStep::Record { chunk }) => chunk as int,
        SamplingState::Running(SamplingStep::CopyResults { chunk }) => chunk as int,
        SamplingState::Finished => count as int,
        SamplingState::Failed(SamplingFailure::Record { chunk }) => chunk as int,
        SamplingState::Failed(SamplingFailure::CopyResults { chunk }) => chunk as int,
        SamplingState::Failed(_) => 0,
    }
}

/// The state in which every session begins.
pub fn start_sampling() -> (state: SamplingState)
    ensures
        state == SamplingState::Running(SamplingStep::CheckAgent),
{
    SamplingState::Running(SamplingStep::CheckAgent)
}

/// The state that follows `step` in a session of `count` chunks, once the
/// command of `step` has ended with `outcome`.
pub fn advance(step: SamplingStep, outcome: CommandOutcome, count: u16) -> (next: SamplingState)
    ensures
        next == state_after(step, outcome, count),
{
    let success = outcome.is_success();
    match step {
        SamplingStep::CheckAgent => match outcome {
            CommandOutcome::NotStarted => SamplingState::Failed(SamplingFailure::AgentCheck),
            CommandOutcome::Exited { code: _ } => if success {
                first_chunk(count)
            } else {
                SamplingState::Running(SamplingStep::InstallAgent)
            },
        },
        SamplingStep::InstallAgent => if success {
            first_chunk(count)
        } else {
            SamplingState::Failed(SamplingFailure::AgentInstall)
        },
        SamplingStep::Record { chunk } => if success {
            SamplingState::Running(SamplingStep::CopyResults { chunk })
        } else {
            SamplingState::Failed(SamplingFailure::Record { chunk })
        },
        SamplingStep::CopyResults { chunk } => if !success {
            SamplingState::Failed(SamplingFailure::CopyResults { chunk })
        } else if chunk < count && chunk + 1 < count {
            SamplingState::Running(SamplingStep::Record { chunk: chunk + 1 })
        } else {
            SamplingState::Finished
        },
    }
}

/// The state with which a session goes on once the agent is there.
fn first_chunk(count: u16) -> (state: SamplingState)
    ensures
        state == recording_from_start(count),
{
    if count == 0 {
        SamplingState::Finished
    } else {
        SamplingState::Running(SamplingStep::Record { chunk: 0 })
    }
}

/// Every command brings a session nearer to its end: whatever the outcome,
/// fewer commands are left after it than before. A session of `count` chunks
/// therefore ends after at most `2 * count + 2` commands.
pub proof fn lemma_session_ends(step: SamplingStep, outcome: CommandOutcome, count: u16)
    requires
        step matches SamplingStep::Record { chunk } ==> chunk < count,
        step matches SamplingStep::CopyResults { chunk } ==> chunk < count,
    ensures
        0 <= commands_left(state_after(step, outcome, count), count) < commands_left(
            SamplingState::Running(step),
            count,
        ),
{
}

/// A session never skips a chunk and never takes one too many: a command on
/// a chunk below `count` is followed by one on the same chunk or the next,
/// which is below `count` too, and the session is finished only when all
/// `count` chunks are done.
pub proof fn lemma_chunks_in_order(step: SamplingStep, outcome: CommandOutcome, count: u16)
    requires
        step matches SamplingStep::Record { chunk } ==> chunk < count,
        step matches SamplingStep::CopyResults { chunk } ==> chunk < count,
    ensures
        ({
            let next = state_after(step, outcome, count);
            &&& next matches SamplingState::Running(SamplingStep::Record { chunk }) ==> chunk
                < count
            &&& next matches SamplingState::Running(SamplingStep::CopyResults { chunk })
                ==> chunk < count
            &&& chunks_done(SamplingState::Running(step), count) <= chunks_done(next, count)
                <= chunks_done(SamplingState::Running(step), count) + 1
            &&& next is Finished ==> chunks_done(next, count) == count
            &&& (step is CopyResults && outcome.succeeded()) <==> chunks_done(next, count)
                == chunks_done(SamplingState::Running(step), count) + 1
        }),
{
}

} // verus!
