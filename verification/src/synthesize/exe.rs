//! Executable containers around a finished machine-code buffer.

use vstd::prelude::*;

pub mod mac;

verus! {

/// Ways running a produced executable can fail.
#[derive(Debug, Clone, Copy, PartialEq, Eq, Structural)]
pub enum ExecutableError {
    /// The executable was not built before running.
    NoBuildPath,
    /// Running the executable failed in the operating system.
    Io,
    /// A placeholder executable can never run.
    Dummy,
}

impl ExecutableError {
    /// A short description of the failure.
    pub fn message(self) -> (r: &'static str)
        ensures
            self is NoBuildPath ==> r@ == "executable was not built before running"@,
            self is Io ==> r@ == "failed to run executable"@,
            self is Dummy ==> r@ == "you cannot run a dummy executable"@,
    {
        match self {
            ExecutableError::NoBuildPath => "executable was not built before running",
            ExecutableError::Io => "failed to run executable",
            ExecutableError::Dummy => "you cannot run a dummy executable",
        }
    }
}

/// A placeholder container that builds nothing and never runs.
pub struct DummyExecutable;

} // verus!
