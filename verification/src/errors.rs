//! Error types: configuration errors detected at startup, and runtime
//! errors of the event loop and the workers.

use vstd::prelude::*;

verus! {

/// A fatal error of the running program.
#[derive(Debug)]
pub enum RuntimeError {
    /// Error watching a file.
    FileWatchError(String),
    /// A file could not be used; the path and the reason.
    FileError(String, String),
    /// A command failed to execute.
    CommandExecutionError(String),
    /// An internal error.
    InternalError(String),
    /// A channel broke down.
    ChannelReceiveError(String),
}

/// A configuration error, detected before any watching begins.
#[derive(Debug)]
pub enum ArgumentError {
    /// The command could not be parsed; the command and the reason.
    CommandParseError(String, String),
    /// An environment variable entry is not KEY=VALUE.
    InvalidEnvironmentVariable(String),
    /// The configured working directory does not exist.
    InvalidCurrentWorkingDirectory(String),
    /// A regular expression does not compile; the pattern and the reason.
    InvalidRegex(String, String),
    /// The command to execute is empty.
    EmptyCommand,
}

/// Any error of the program.
#[derive(Debug)]
pub enum ProgramError {
    ArgumentError(ArgumentError),
    RuntimeError(RuntimeError),
}

impl RuntimeError {
    /// A human-readable description of the error.
    pub fn message(&self) -> (r: String)
        ensures
            r@ == match self {
                RuntimeError::FileWatchError(s) => "Error watching file: "@ + s@,
                RuntimeError::FileError(a, b) => "File error: "@ + a@ + " "@ + b@,
                RuntimeError::CommandExecutionError(s) => "Failed to execute command: "@ + s@,
                RuntimeError::InternalError(s) => "Internal Error: "@ + s@,
                RuntimeError::ChannelReceiveError(s) => "Channel Error: "@ + s@,
            },
    {
        match self {
            RuntimeError::FileWatchError(s) => String::from_str("Error watching file: ").concat(
                s.as_str(),
            ),
            RuntimeError::FileError(a, b) => String::from_str("File error: ").concat(
                a.as_str(),
            ).concat(" ").concat(b.as_str()),
            RuntimeError::CommandExecutionError(s) => String::from_str(
                "Failed to execute command: ",
            ).concat(s.as_str()),
            RuntimeError::InternalError(s) => String::from_str("Internal Error: ").concat(
                s.as_str(),
            ),
            RuntimeError::ChannelReceiveError(s) => String::from_str("Channel Error: ").concat(
                s.as_str(),
            ),
        }
    }
}

impl ArgumentError {
    /// A human-readable description of the error.
    pub fn message(&self) -> (r: String)
        ensures
            r@ == match self {
                ArgumentError::CommandParseError(a, b) => "Failed to parse command: "@ + a@ + " - "@
                    + b@,
                ArgumentError::InvalidEnvironmentVariable(s) => "Invalid environment variable: "@
                    + s@,
                ArgumentError::InvalidCurrentWorkingDirectory(s) =>
                "Invalid current working directory: "@ + s@,
                ArgumentError::InvalidRegex(a, b) => "Invalid regular expression: "@ + a@ + " "@
                    + b@,
                ArgumentError::EmptyCommand => "Command to execute is empty"@,
            },
    {
        match self {
            ArgumentError::CommandParseError(a, b) => String::from_str(
                "Failed to parse command: ",
            ).concat(a.as_str()).concat(" - ").concat(b.as_str()),
            ArgumentError::InvalidEnvironmentVariable(s) => String::from_str(
                "Invalid environment variable: ",
            ).concat(s.as_str()),
            ArgumentError::InvalidCurrentWorkingDirectory(s) => String::from_str(
                "Invalid current working directory: ",
            ).concat(s.as_str()),
            ArgumentError::InvalidRegex(a, b) => String::from_str(
                "Invalid regular expression: ",
            ).concat(a.as_str()).concat(" ").concat(b.as_str()),
            ArgumentError::EmptyCommand => String::from_str("Command to execute is empty"),
        }
    }
}

impl ProgramError {
    /// A human-readable description of the error.
    pub fn message(&self) -> (r: String)
        ensures
            r@ == match self {
                ProgramError::ArgumentError(e) => "Argument error: "@ + (match e {
                    ArgumentError::CommandParseError(a, b) => "Failed to parse command: "@ + a@
                        + " - "@ + b@,
                    ArgumentError::InvalidEnvironmentVariable(s) =>
                    "Invalid environment variable: "@ + s@,
                    ArgumentError::InvalidCurrentWorkingDirectory(s) =>
                    "Invalid current working directory: "@ + s@,
                    ArgumentError::InvalidRegex(a, b) => "Invalid regular expression: "@ + a@ + " "@
                        + b@,
                    ArgumentError::EmptyCommand => "Command to execute is empty"@,
                }),
                ProgramError::RuntimeError(e) => "Runtime error: "@ + (match e {
                    RuntimeError::FileWatchError(s) => "Error watching file: "@ + s@,
                    RuntimeError::FileError(a, b) => "File error: "@ + a@ + " "@ + b@,
                    RuntimeError::CommandExecutionError(s) => "Failed to execute command: "@ + s@,
                    RuntimeError::InternalError(s) => "Internal Error: "@ + s@,
                    RuntimeError::ChannelReceiveError(s) => "Channel Error: "@ + s@,
                }),
            },
    {
        match self {
            ProgramError::ArgumentError(e) => String::from_str("Argument error: ").concat(
                e.message().as_str(),
            ),
            ProgramError::RuntimeError(e) => String::from_str("Runtime error: ").concat(
                e.message().as_str(),
            ),
        }
    }
}

impl From<ArgumentError> for ProgramError {
    fn from(value: ArgumentError) -> (r: Self) {
        ProgramError::ArgumentError(value)
    }
}

impl vstd::std_specs::convert::FromSpecImpl<ArgumentError> for ProgramError {
    open spec fn obeys_from_spec() -> bool {
        true
    }

    open spec fn from_spec(value: ArgumentError) -> Self {
        ProgramError::ArgumentError(value)
    }
}

impl From<RuntimeError> for ProgramError {
    fn from(value: RuntimeError) -> (r: Self) {
        ProgramError::RuntimeError(value)
    }
}

impl vstd::std_specs::convert::FromSpecImpl<RuntimeError> for ProgramError {
    open spec fn obeys_from_spec() -> bool {
        true
    }

    open spec fn from_spec(value: RuntimeError) -> Self {
        ProgramError::RuntimeError(value)
    }
}

} // verus!
