//! Error kinds produced by the pipeline's decision logic.

use vstd::prelude::*;

verus! {

/// Failures the planning logic itself can detect. Filesystem and transcoder
/// failures are reported by the surrounding program, not by this library.
#[derive(Clone, Copy, Debug, PartialEq, Eq, Structural)]
pub enum PipelineError {
    /// The source path is not under the configured source root, or lacks a
    /// component the mapping needs.
    PathNotUnderRoot,
    /// A plain copy would overwrite its own source file.
    SelfCopy,
}

impl PipelineError {
    /// Human-readable description, for the surrounding program's reporting.
    pub fn describe(&self) -> &'static str {
        match self {
            PipelineError::PathNotUnderRoot => "source path is not under the source root",
            PipelineError::SelfCopy => "source and destination paths are the same",
        }
    }
}

} // verus!
