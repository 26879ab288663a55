//! Events that the execution workers report to the presentation layer.

use vstd::prelude::*;

use crate::exit_code::ExitCode;

verus! {

/// A notification about a command being run.
#[derive(Debug)]
pub enum ExecMessage {
    Start(ExecStart),
    Output(ExecOutput),
    Finish(ExecCode),
}

/// A command starts.
#[derive(Debug)]
pub struct ExecStart {
    /// ID of the command being run
    pub command_number: usize,
    /// List of files associated with the run
    pub files: Vec<String>,
}

/// One line of a running command's output.
#[derive(Debug)]
pub struct ExecOutput {
    /// ID of the command being run
    pub command_number: usize,
    /// stdout update
    pub stdout: Option<String>,
    /// stderr update
    pub stderr: Option<String>,
}

/// A command finished.
#[derive(Debug)]
pub struct ExecCode {
    /// ID of the command being run
    pub command_number: usize,
    /// Exit code
    pub exit_code: ExitCode,
}

} // verus!
