//! The failures a run can end with, and their exit codes.

use vstd::prelude::*;

verus! {

/// The kinds of failure that a run can end with.
#[derive(Debug)]
pub enum LuDockError {
    /// Strict-mode analysis found this many errors.
    AnalysisError(usize),
    DslError(String),
    WorldError(String),
    RendererError(String),
    ConfigError(String),
    IoError(String),
    Unknown(String),
}

/// The process exit code that belongs to each kind of failure.
pub open spec fn exit_code_of(e: &LuDockError) -> i32 {
    match e {
        LuDockError::AnalysisError(_) => 1,
        LuDockError::DslError(_) => 2,
        LuDockError::WorldError(_) => 2,
        LuDockError::RendererError(_) => 3,
        LuDockError::ConfigError(_) => 4,
        LuDockError::IoError(_) => 4,
        LuDockError::Unknown(_) => 5,
    }
}

impl LuDockError {
    pub fn exit_code(&self) -> (r: i32)
        ensures
            r == exit_code_of(self),
            1 <= r <= 5,
    {
        match self {
            LuDockError::AnalysisError(_) => 1,
            LuDockError::DslError(_) | LuDockError::WorldError(_) => 2,
            LuDockError::RendererError(_) => 3,
            LuDockError::ConfigError(_) | LuDockError::IoError(_) => 4,
            LuDockError::Unknown(_) => 5,
        }
    }
}

} // verus!
