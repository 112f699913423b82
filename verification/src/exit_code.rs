//! The process exit status each error kind maps to.

use vstd::prelude::*;

use crate::error::Error;

verus! {

/// A distinct exit status per error kind, plus success and generic usage
/// failure.
#[derive(Debug, Clone, Copy, PartialEq, Eq, Structural)]
pub enum ExitCode {
    Success,
    QueryParse,
    DockerfileParse,
    NotFound,
    Eval,
    Io,
    Usage,
}

/// The numeric status of each exit code.
pub open spec fn spec_exit_status(c: ExitCode) -> int {
    match c {
        ExitCode::Success => 0,
        ExitCode::QueryParse => 2,
        ExitCode::DockerfileParse => 3,
        ExitCode::NotFound => 4,
        ExitCode::Eval => 5,
        ExitCode::Io => 6,
        ExitCode::Usage => 64,
    }
}

/// Which exit code an error maps to.
pub open spec fn spec_exit_of(e: Error) -> ExitCode {
    match e {
        Error::QueryParse { .. } => ExitCode::QueryParse,
        Error::DockerfileParse { .. } => ExitCode::DockerfileParse,
        Error::NotFound { .. } => ExitCode::NotFound,
        Error::Eval { .. } => ExitCode::Eval,
        Error::Io { .. } => ExitCode::Io,
    }
}

impl ExitCode {
    pub fn as_i32(self) -> (r: i32)
        ensures
            r == spec_exit_status(self),
    {
        match self {
            ExitCode::Success => 0,
            ExitCode::QueryParse => 2,
            ExitCode::DockerfileParse => 3,
            ExitCode::NotFound => 4,
            ExitCode::Eval => 5,
            ExitCode::Io => 6,
            ExitCode::Usage => 64,
        }
    }
}

impl<'a> From<&'a Error> for ExitCode {
    fn from(value: &'a Error) -> (r: Self) {
        match value {
            Error::QueryParse { .. } => Self::QueryParse,
            Error::DockerfileParse { .. } => Self::DockerfileParse,
            Error::NotFound { .. } => Self::NotFound,
            Error::Eval { .. } => Self::Eval,
            Error::Io { .. } => Self::Io,
        }
    }
}

impl<'a> vstd::std_specs::convert::FromSpecImpl<&'a Error> for ExitCode {
    open spec fn obeys_from_spec() -> bool {
        true
    }

    open spec fn from_spec(v: &'a Error) -> Self {
        spec_exit_of(*v)
    }
}

} // verus!
