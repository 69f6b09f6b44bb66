//! Pure decision logic of the process orchestrator: builtin dispatch, the
//! state-mutation relay, the mapping of wait statuses and errors to exit
//! codes, redirection open plans, and the wiring plan of a pipeline.  The
//! caller performs the forks, opens and waits; every decision about them
//! is computed here.

use vstd::prelude::*;

use crate::error::{Error, SpecError};
use crate::syntax::OutputRedirectionKind;
use crate::text::str_eq;

verus! {

// ---------------------------------------------------------------------------
// Builtin dispatch
// ---------------------------------------------------------------------------

/// The recognized builtin commands, and the fallthrough to an external
/// program.
#[derive(Copy, Clone, Debug, PartialEq, Eq, Structural)]
pub enum BuiltinKind {
    Exit,
    Server,
    ColorTest,
    Prompt,
    SetVariable,
    UnsetVariable,
    ChangeDirectory,
    Environment,
    Head,
    Cat,
    External,
}

/// The routing table: which builtin a command name selects; every other
/// name runs as an external program.
pub open spec fn spec_classify(name: Seq<char>) -> BuiltinKind {
    if name == "exit"@ {
        BuiltinKind::Exit
    } else if name == "~server"@ {
        BuiltinKind::Server
    } else if name == "~color_test"@ {
        BuiltinKind::ColorTest
    } else if name == "~prompt"@ {
        BuiltinKind::Prompt
    } else if name == "~set"@ {
        BuiltinKind::SetVariable
    } else if name == "~unset"@ {
        BuiltinKind::UnsetVariable
    } else if name == "cd"@ {
        BuiltinKind::ChangeDirectory
    } else if name == "env"@ {
        BuiltinKind::Environment
    } else if name == "head"@ {
        BuiltinKind::Head
    } else if name == "cat"@ {
        BuiltinKind::Cat
    } else {
        BuiltinKind::External
    }
}

pub fn classify_builtin(name: &str) -> (r: BuiltinKind)
    ensures
        r == spec_classify(name@),
{
    if str_eq(name, "exit") {
        BuiltinKind::Exit
    } else if str_eq(name, "~server") {
        BuiltinKind::Server
    } else if str_eq(name, "~color_test") {
        BuiltinKind::ColorTest
    } else if str_eq(name, "~prompt") {
        BuiltinKind::Prompt
    } else if str_eq(name, "~set") {
        BuiltinKind::SetVariable
    } else if str_eq(name, "~unset") {
        BuiltinKind::UnsetVariable
    } else if str_eq(name, "cd") {
        BuiltinKind::ChangeDirectory
    } else if str_eq(name, "env") {
        BuiltinKind::Environment
    } else if str_eq(name, "head") {
        BuiltinKind::Head
    } else if str_eq(name, "cat") {
        BuiltinKind::Cat
    } else {
        BuiltinKind::External
    }
}

// ---------------------------------------------------------------------------
// The state-mutation relay
// ---------------------------------------------------------------------------

/// The side effect the top-level process must perform on its own state.
#[derive(Debug, PartialEq, Eq)]
pub enum RelayAction {
    ChangeDirectory(String),
    SetVariable(String, String),
    UnsetVariable(String),
    NoRelay,
}

/// What the top level does with a command's result: the three relay
/// requests turn into a side effect and exit code 0; everything else
/// passes through untouched.
pub open spec fn spec_relay_plan(result: Result<u8, Error>) -> (RelayAction, Result<u8, Error>) {
    match result {
        Err(Error::DirectoryChangeRequested(path)) => (
            RelayAction::ChangeDirectory(path),
            Ok(0),
        ),
        Err(Error::VariableSetRequested(key, value)) => (
            RelayAction::SetVariable(key, value),
            Ok(0),
        ),
        Err(Error::VariableUnsetRequested(key)) => (RelayAction::UnsetVariable(key), Ok(0)),
        other => (RelayAction::NoRelay, other),
    }
}

/// Splits a command's result into the side effect the caller must apply
/// and the result it reports.  Only the top-level driver — the process
/// that was never forked away from the interactive loop — may apply the
/// action; anywhere else the request is dropped by design.
pub fn relay_plan(result: Result<u8, Error>) -> (r: (RelayAction, Result<u8, Error>))
    ensures
        r == spec_relay_plan(result),
{
    match result {
        Err(Error::DirectoryChangeRequested(path)) => (
            RelayAction::ChangeDirectory(path),
            Ok(0),
        ),
        Err(Error::VariableSetRequested(key, value)) => (
            RelayAction::SetVariable(key, value),
            Ok(0),
        ),
        Err(Error::VariableUnsetRequested(key)) => (RelayAction::UnsetVariable(key), Ok(0)),
        other => (RelayAction::NoRelay, other),
    }
}

// ---------------------------------------------------------------------------
// Exit-code mappings
// ---------------------------------------------------------------------------

/// How the wait status of an external program maps back: 127 means the
/// executable was not found, 126 that permission was denied; any other
/// status is the program's own exit code.
pub open spec fn spec_map_wait_status(status: u8, command: Seq<char>) -> Result<u8, SpecError> {
    if status == 127 {
        Err(SpecError::CommandNotFound(command))
    } else if status == 126 {
        Err(SpecError::CommandPermissionDenied(command))
    } else {
        Ok(status)
    }
}

pub fn map_wait_status(status: u8, command: String) -> (r: Result<u8, Error>)
    ensures
        (match r {
            Ok(c) => Ok(c),
            Err(e) => Err(e@),
        }) == spec_map_wait_status(status, command@),
{
    if status == 127 {
        Err(Error::CommandNotFound(command))
    } else if status == 126 {
        Err(Error::CommandPermissionDenied(command))
    } else {
        Ok(status)
    }
}

/// The exit code the interactive loop reports for an error: 127 for a
/// missing command, 126 for denied permission, 125 for a missing file,
/// and 1 for anything else.
pub open spec fn spec_error_exit_code(e: SpecError) -> u8 {
    match e {
        SpecError::CommandNotFound(_) => 127,
        SpecError::CommandPermissionDenied(_) => 126,
        SpecError::PermissionDenied(_) => 126,
        SpecError::FileNotFound(_) => 125,
        _ => 1,
    }
}

pub fn error_exit_code(e: &Error) -> (r: u8)
    requires
        !e.spec_is_control_signal(),
    ensures
        r == spec_error_exit_code(e@),
{
    match e {
        Error::CommandNotFound(_) => 127,
        Error::CommandPermissionDenied(_) => 126,
        Error::PermissionDenied(_) => 126,
        Error::FileNotFound(_) => 125,
        _ => 1,
    }
}

// ---------------------------------------------------------------------------
// Redirection open plans
// ---------------------------------------------------------------------------

/// The file descriptor an input redirection replaces: standard input when
/// none was written.
pub fn input_redirection_fd(fd: &Option<i32>) -> (r: i32)
    ensures
        r == (match *fd {
            Some(f) => f,
            None => 0,
        }),
{
    match fd {
        Some(f) => *f,
        None => 0,
    }
}

/// The file descriptor an output redirection replaces: standard output
/// when none was written.
pub fn output_redirection_fd(fd: &Option<i32>) -> (r: i32)
    ensures
        r == (match *fd {
            Some(f) => f,
            None => 1,
        }),
{
    match fd {
        Some(f) => *f,
        None => 1,
    }
}

/// How the destination of an output redirection is to be opened.
#[derive(Copy, Clone, Debug, PartialEq, Eq, Structural)]
pub enum OutputOpenMode {
    /// Create the file, which must not exist yet.
    CreateNew,
    /// Append, creating the file when absent.
    Append,
    /// Truncate unconditionally.
    Truncate,
}

/// Decides how to open an output redirection's destination, given whether
/// the file exists.  `Create` against an existing file is refused before
/// anything is opened, so the file is never truncated; `Overwrite`
/// truncates an existing file and reports a missing one as not found,
/// never creating it; `Append` appends, creating when absent.
pub fn output_open_plan(kind: &OutputRedirectionKind, destination: &String, exists: bool) -> (r:
    Result<OutputOpenMode, Error>)
    ensures
        *kind == OutputRedirectionKind::Create && exists ==> (r matches Err(e) && e@
            == SpecError::OtherError(
            "The file "@ + destination@
                + " already exists. Use >| to overwrite the file or >> to append to it."@,
        )),
        *kind == OutputRedirectionKind::Create && !exists ==> r == Ok::<OutputOpenMode, Error>(
            OutputOpenMode::CreateNew,
        ),
        *kind == OutputRedirectionKind::Append ==> r == Ok::<OutputOpenMode, Error>(
            OutputOpenMode::Append,
        ),
        *kind == OutputRedirectionKind::Overwrite && exists ==> r == Ok::<OutputOpenMode, Error>(
            OutputOpenMode::Truncate,
        ),
        *kind == OutputRedirectionKind::Overwrite && !exists ==> (r matches Err(e) && e@
            == SpecError::FileNotFound(Some(destination@))),
{
    match kind {
        OutputRedirectionKind::Create => {
            if exists {
                let message = String::from_str("The file ").concat(destination.as_str()).concat(
                    " already exists. Use >| to overwrite the file or >> to append to it.",
                );
                Err(Error::OtherError(message))
            } else {
                Ok(OutputOpenMode::CreateNew)
            }
        },
        OutputRedirectionKind::Append => Ok(OutputOpenMode::Append),
        OutputRedirectionKind::Overwrite => {
            if exists {
                Ok(OutputOpenMode::Truncate)
            } else {
                Err(Error::FileNotFound(Some(destination.clone())))
            }
        },
    }
}

/// How an attempt to open a file can fail, as the caller observed it.
#[derive(Copy, Clone, Debug, PartialEq, Eq, Structural)]
pub enum OpenFailure {
    NotFound,
    PermissionDenied,
    Other,
}

/// The error an input redirection reports when its source cannot be
/// opened: a missing file and denied permission are surfaced distinctly,
/// each carrying the path; anything else is the failing call's name.
pub fn input_open_error(source: &String, failure: OpenFailure) -> (r: Error)
    ensures
        failure == OpenFailure::NotFound ==> r@ == SpecError::FileNotFound(Some(source@)),
        failure == OpenFailure::PermissionDenied ==> r@ == SpecError::PermissionDenied(
            Some(source@),
        ),
        failure == OpenFailure::Other ==> r@ == SpecError::SyscallFailure("open"@),
{
    match failure {
        OpenFailure::NotFound => Error::FileNotFound(Some(source.clone())),
        OpenFailure::PermissionDenied => Error::PermissionDenied(Some(source.clone())),
        OpenFailure::Other => Error::SyscallFailure(String::from_str("open")),
    }
}

// ---------------------------------------------------------------------------
// Pipeline wiring
// ---------------------------------------------------------------------------

/// Where one pipeline stage reads and writes: the index of the pipe its
/// standard input comes from, and the index of the pipe its standard
/// output goes to.  `None` means the stream is inherited — the first
/// stage reads the surrounding stdin, the last writes the surrounding
/// stdout.
#[derive(Copy, Clone, Debug, PartialEq, Eq, Structural)]
pub struct StageWiring {
    pub stdin_pipe: Option<usize>,
    pub stdout_pipe: Option<usize>,
}

/// The wiring of stage `i` out of `n`: stage `i` writes pipe `i` and
/// stage `i + 1` reads it.
pub open spec fn spec_stage_wiring(n: int, i: int) -> StageWiring {
    StageWiring {
        stdin_pipe: if i == 0 {
            None
        } else {
            Some((i - 1) as usize)
        },
        stdout_pipe: if i + 1 >= n {
            None
        } else {
            Some(i as usize)
        },
    }
}

/// The wiring plan of an `n`-stage pipeline.
pub fn pipeline_wiring(n: usize) -> (r: Vec<StageWiring>)
    ensures
        r@.len() == n,
        forall|i: int| 0 <= i < n ==> r@[i] == spec_stage_wiring(n as int, i),
{
    let mut r: Vec<StageWiring> = Vec::new();
    let mut i: usize = 0;
    while i < n
        invariant
            i <= n,
            r@.len() == i,
            forall|j: int| 0 <= j < i ==> r@[j] == spec_stage_wiring(n as int, j),
        decreases n - i,
    {
        let stdin_pipe: Option<usize> = if i == 0 {
            None
        } else {
            Some(i - 1)
        };
        let stdout_pipe: Option<usize> = if i + 1 >= n {
            None
        } else {
            Some(i)
        };
        r.push(StageWiring { stdin_pipe, stdout_pipe });
        i = i + 1;
    }
    r
}

/// Pipeline connectivity: within one pipeline's wiring plan, every stage
/// but the last writes the very pipe that the next stage reads, the first
/// stage inherits its standard input, and the last stage inherits its
/// standard output.  Stage `i + 1` therefore sees on its standard input
/// exactly the bytes stage `i` wrote.
pub proof fn lemma_pipeline_connected(n: int)
    requires
        n >= 1,
    ensures
        forall|i: int| 0 <= i < n - 1 ==> #[trigger] spec_stage_wiring(n, i).stdout_pipe
            == spec_stage_wiring(n, i + 1).stdin_pipe && spec_stage_wiring(n, i).stdout_pipe
            is Some,
        spec_stage_wiring(n, 0).stdin_pipe is None,
        spec_stage_wiring(n, n - 1).stdout_pipe is None,
{
}

/// The status a pipeline reports: only the last stage's exit status is
/// observable; the statuses of the other stages are discarded by design.
pub fn pipeline_report(statuses: &Vec<u8>) -> (r: u8)
    requires
        statuses@.len() >= 1,
    ensures
        r == statuses@[statuses@.len() - 1],
{
    statuses[statuses.len() - 1]
}

} // verus!
