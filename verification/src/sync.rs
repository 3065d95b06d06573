//! The repository synchronizer's decisions: whether to run the update
//! command, with which arguments, and what its outcome amounts to.

use crate::text::texts;
use vstd::prelude::*;

verus! {

/// The update command: a program and its arguments.
#[derive(Debug, Clone, PartialEq, Eq)]
pub struct SyncCommand {
    pub program: String,
    pub arguments: Vec<String>,
}

/// What a finished update command left behind.
#[derive(Debug, Clone, PartialEq, Eq)]
pub struct CommandOutput {
    /// Whether the command exited with status zero.
    pub success: bool,
    /// What it wrote to its standard output.
    pub stdout: String,
    /// What it wrote to its standard error.
    pub stderr: String,
}

/// The outcome of the synchronizing step.
#[derive(Debug, Clone, PartialEq, Eq)]
pub enum SyncResult {
    /// The repository path does not exist; nothing was run.
    Skipped,
    /// The update command exited with status zero; its standard output.
    Succeeded(String),
    /// The update command exited with another status; its standard error.
    Failed(String),
}

/// The arguments of the update command for a repository path.
pub open spec fn pull_arguments(repo_path: Seq<char>) -> Seq<Seq<char>> {
    seq!["-C"@, repo_path, "pull"@]
}

/// The outcome that a run, or the lack of one, amounts to.
pub open spec fn outcome_of(run: Option<CommandOutput>) -> SyncResult {
    match run {
        None => SyncResult::Skipped,
        Some(output) => if output.success {
            SyncResult::Succeeded(output.stdout)
        } else {
            SyncResult::Failed(output.stderr)
        },
    }
}

/// Decides the synchronizing step: where the repository path exists, the
/// command that pulls the latest changes into it; where it does not,
/// nothing to run.
pub fn plan_sync(repo_path: &str, path_exists: bool) -> (step: Option<SyncCommand>)
    ensures
        step.is_some() == path_exists,
        match step {
            Some(command) => {
                &&& command.program@ == "git"@
                &&& texts(command.arguments@) == pull_arguments(repo_path@)
            },
            None => true,
        },
{
    if path_exists {
        let mut arguments: Vec<String> = Vec::new();
        arguments.push("-C".to_owned());
        arguments.push(repo_path.to_owned());
        arguments.push("pull".to_owned());
        assert(texts(arguments@) =~= pull_arguments(repo_path@));
        Some(SyncCommand { program: "git".to_owned(), arguments })
    } else {
        None
    }
}

/// Sums up the synchronizing step. No run means the step was skipped; a
/// run that exited with status zero succeeded and carries its standard
/// output; any other run failed and carries its standard error. A failure
/// is an outcome like the others: the pipeline goes on after it.
pub fn conclude_sync(run: Option<CommandOutput>) -> (result: SyncResult)
    ensures
        result == outcome_of(run),
{
    match run {
        None => SyncResult::Skipped,
        Some(output) => {
            if output.success {
                SyncResult::Succeeded(output.stdout)
            } else {
                SyncResult::Failed(output.stderr)
            }
        },
    }
}

} // verus!
