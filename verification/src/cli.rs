//! What the command line asks for.
use vstd::prelude::*;

use crate::model::maybe_text;

verus! {

/// The command line.
pub struct Cli {
    pub task_file: String,
    pub model: String,
    pub agent_loops: u32,
    pub agent_iterations: u32,
    pub workdir: Option<String>,
    pub verbose: bool,
    pub log_enabled: bool,
    pub log_path: Option<String>,
    pub reason: bool,
}

/// What a loop is asked to do.
pub struct RunnerConfig {
    pub task_file: String,
    pub model: String,
    pub agent_loops: u32,
    pub agent_iterations: u32,
    pub verbose: bool,
    pub logging: Option<String>,
    pub workdir: Option<String>,
    pub reason: bool,
}

/// Where events are logged, if they are: at the path that is given, or at the usual
/// one, for which the empty path stands.
pub open spec fn log_target(log_enabled: bool, log_path: Option<Seq<char>>) -> Option<Seq<char>> {
    match log_path {
        Some(p) => Some(p),
        None => if log_enabled {
            Some(Seq::empty())
        } else {
            None
        },
    }
}

/// Where events are logged, if they are.
pub fn resolve_logging(log_enabled: bool, log_path: Option<String>) -> (r: Option<String>)
    ensures
        maybe_text(r) == log_target(log_enabled, maybe_text(log_path)),
{
    match log_path {
        Some(p) => Some(p),
        None => if log_enabled {
            Some(String::new())
        } else {
            None
        },
    }
}

impl Cli {
    /// What the loop is asked to do.
    pub fn into_config(self) -> (r: RunnerConfig)
        ensures
            r.task_file == self.task_file,
            r.model == self.model,
            r.agent_loops == self.agent_loops,
            r.agent_iterations == self.agent_iterations,
            r.verbose == self.verbose,
            maybe_text(r.logging) == log_target(self.log_enabled, maybe_text(self.log_path)),
            r.workdir == self.workdir,
            r.reason == self.reason,
    {
        RunnerConfig {
            task_file: self.task_file,
            model: self.model,
            agent_loops: self.agent_loops,
            agent_iterations: self.agent_iterations,
            verbose: self.verbose,
            logging: resolve_logging(self.log_enabled, self.log_path),
            workdir: self.workdir,
            reason: self.reason,
        }
    }
}

/// Events are logged where a path is given or logging is asked for; a path that is given
/// is kept.
pub proof fn law_logging_is_asked_for(log_enabled: bool, path: Seq<char>)
    ensures
        log_target(log_enabled, Some(path)) == Some(path),
        log_target(true, None) == Some(Seq::<char>::empty()),
        log_target(false, None) is None,
{
}

} // verus!
