//! The closed set of outcomes an execution can have, besides a plain exit
//! code: true failures, and the control-flow signals that the top-level
//! driver recovers (the request to exit, and the three state-mutation
//! requests of the relay).

use vstd::prelude::*;

use crate::syntax::{ParseError, SpecParseError};

verus! {

/// An execution error or control-flow signal.
#[derive(Debug, PartialEq, Eq)]
pub enum Error {
    /// Malformed input, with the offending span.
    ParseError(ParseError),
    /// A file or directory was not found, with the path when known.
    FileNotFound(Option<String>),
    /// Permission was denied on a file, with the path when known.
    PermissionDenied(Option<String>),
    /// The named executable was not found.
    CommandNotFound(String),
    /// The named executable exists but may not be run.
    CommandPermissionDenied(String),
    /// The argument of the exit builtin is not an exit code.
    ExitCodeParseError(String),
    /// Relay signal: the top-level process must change its working
    /// directory to this path.
    DirectoryChangeRequested(String),
    /// Relay signal: the top-level process must set this variable.
    VariableSetRequested(String, String),
    /// Relay signal: the top-level process must remove this variable.
    VariableUnsetRequested(String),
    /// Control-flow signal: the interactive loop must terminate, with the
    /// given code when one was supplied.
    RequestExit(Option<u8>),
    /// A builtin-specific validation failure, described in the message.
    OtherError(String),
    /// An underlying system call failed; carries the call's name.
    SyscallFailure(String),
}

/// The spec-level twin of `Error`, over character sequences.
pub enum SpecError {
    ParseError(SpecParseError),
    FileNotFound(Option<Seq<char>>),
    PermissionDenied(Option<Seq<char>>),
    CommandNotFound(Seq<char>),
    CommandPermissionDenied(Seq<char>),
    ExitCodeParseError(Seq<char>),
    DirectoryChangeRequested(Seq<char>),
    VariableSetRequested(Seq<char>, Seq<char>),
    VariableUnsetRequested(Seq<char>),
    RequestExit(Option<u8>),
    OtherError(Seq<char>),
    SyscallFailure(Seq<char>),
}

pub open spec fn opt_string_view(o: Option<String>) -> Option<Seq<char>> {
    match o {
        Some(s) => Some(s@),
        None => None,
    }
}

impl View for Error {
    type V = SpecError;

    open spec fn view(&self) -> SpecError {
        match self {
            Error::ParseError(e) => SpecError::ParseError(e@),
            Error::FileNotFound(p) => SpecError::FileNotFound(opt_string_view(*p)),
            Error::PermissionDenied(p) => SpecError::PermissionDenied(opt_string_view(*p)),
            Error::CommandNotFound(c) => SpecError::CommandNotFound(c@),
            Error::CommandPermissionDenied(c) => SpecError::CommandPermissionDenied(c@),
            Error::ExitCodeParseError(s) => SpecError::ExitCodeParseError(s@),
            Error::DirectoryChangeRequested(p) => SpecError::DirectoryChangeRequested(p@),
            Error::VariableSetRequested(k, v) => SpecError::VariableSetRequested(k@, v@),
            Error::VariableUnsetRequested(k) => SpecError::VariableUnsetRequested(k@),
            Error::RequestExit(c) => SpecError::RequestExit(*c),
            Error::OtherError(m) => SpecError::OtherError(m@),
            Error::SyscallFailure(c) => SpecError::SyscallFailure(c@),
        }
    }
}

impl Error {
    /// Whether this value is a control-flow signal rather than a true
    /// failure: the exit request and the three relay requests are
    /// recovered by the top-level driver, never reported as errors.
    pub open spec fn spec_is_control_signal(&self) -> bool {
        match self {
            Error::DirectoryChangeRequested(_) => true,
            Error::VariableSetRequested(_, _) => true,
            Error::VariableUnsetRequested(_) => true,
            Error::RequestExit(_) => true,
            _ => false,
        }
    }

    pub fn is_control_signal(&self) -> (r: bool)
        ensures
            r == self.spec_is_control_signal(),
    {
        match self {
            Error::DirectoryChangeRequested(_) => true,
            Error::VariableSetRequested(_, _) => true,
            Error::VariableUnsetRequested(_) => true,
            Error::RequestExit(_) => true,
            _ => false,
        }
    }
}

} // verus!
