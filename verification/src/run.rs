//! The task that runs the built executable.

use crate::config::Distribution;
use crate::orchestrator::{spec_output_file_path, Build};
use crate::project::Project;
use vstd::prelude::*;

verus! {

/// Why a project cannot be run.
#[derive(Clone, Copy, Debug, PartialEq, Eq, Structural)]
pub enum RunError {
    /// Only an executable project can be executed.
    CannotRunNonExecutable,
}

/// The task that executes a project's built artifact; it depends on the
/// build task.
pub struct Run {}

impl Run {
    pub fn new() -> (r: Run) {
        Run {  }
    }

    /// The stable name of the run task.
    pub fn id(&self) -> (r: String)
        ensures
            r@ == "run"@,
    {
        String::from_str("run")
    }

    /// Running depends on building.
    pub fn dependencies(&self) -> (r: Vec<String>)
        ensures
            r.deep_view() == seq!["build"@],
    {
        let mut r: Vec<String> = Vec::new();
        r.push(String::from_str("build"));
        proof {
            assert(r.deep_view() =~= seq!["build"@]);
        }
        r
    }

    /// The artifact to execute: the project's built executable, or an
    /// error when the project's product is not an executable.
    pub fn executable_path(&self, project: &Project) -> (r: Result<String, RunError>)
        ensures
            match r {
                Ok(path) => project.distribution == Distribution::Executable && path@
                    == spec_output_file_path(*project),
                Err(e) => project.distribution != Distribution::Executable && e
                    == RunError::CannotRunNonExecutable,
            },
    {
        if matches!(project.distribution, Distribution::Executable) {
            Ok(Build::new().output_file_path(project))
        } else {
            Err(RunError::CannotRunNonExecutable)
        }
    }
}

} // verus!
