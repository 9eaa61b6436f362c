//! Run configuration: choosing the destination of the extracted pairs,
//! and the errors a run can end with.

use vstd::prelude::*;

verus! {

/// Destination of a run: write a `KEY=VALUE` file at the given path, or
/// launch the named program with the pairs injected into its environment.
pub enum RunMode {
    ToFile(String),
    ToShell(String),
}

/// The failures a run can end with. `Configuration` is raised before any
/// store access; the other variants carry the message of the underlying
/// failure as reported at the edge of the program.
pub enum ExtractError {
    /// Neither an output file nor a shell was specified.
    Configuration,
    /// The store file was missing, unreadable, or failed to decrypt.
    StoreAccess(String),
    /// The destination file could not be written.
    SinkWrite(String),
    /// The target program could not be launched.
    ProcessSpawn(String),
}

impl ExtractError {
    /// A human-readable description of the failure.
    pub fn message(&self) -> String {
        match self {
            ExtractError::Configuration => String::from_str(
                "either output file or shell should be specified",
            ),
            ExtractError::StoreAccess(m) => String::from_str("cannot open store: ").concat(
                m.as_str(),
            ),
            ExtractError::SinkWrite(m) => String::from_str("cannot write output: ").concat(
                m.as_str(),
            ),
            ExtractError::ProcessSpawn(m) => String::from_str("cannot launch program: ").concat(
                m.as_str(),
            ),
        }
    }
}

/// Decides the destination of a run. An output file takes precedence over
/// a shell; supplying neither is a configuration error, reported before
/// any store access is attempted.
pub fn select_mode(output: Option<String>, shell: Option<String>) -> (r: Result<
    RunMode,
    ExtractError,
>)
    ensures
        output is Some ==> r == Ok::<RunMode, ExtractError>(RunMode::ToFile(output->0)),
        output is None && shell is Some ==> r == Ok::<RunMode, ExtractError>(
            RunMode::ToShell(shell->0),
        ),
        output is None && shell is None ==> r == Err::<RunMode, ExtractError>(
            ExtractError::Configuration,
        ),
{
    match output {
        Some(o) => Ok(RunMode::ToFile(o)),
        None => match shell {
            Some(s) => Ok(RunMode::ToShell(s)),
            None => Err(ExtractError::Configuration),
        },
    }
}

} // verus!
