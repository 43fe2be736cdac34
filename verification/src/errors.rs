//! Error taxonomy of the pipeline.

use vstd::prelude::*;

verus! {

/// The way a playlist file's text fails to follow the two-line-per-entry
/// convention.
#[derive(Debug, Clone, Copy, PartialEq, Eq, Structural)]
pub enum MalformedKind {
    /// A rating line stands at the end with no following file line.
    TrailingRatingLine,
    /// A rating line is empty or its last character is not one of `0`-`5`.
    BadRating,
    /// A file line has fewer than two `/`-separated segments.
    BadPath,
}

/// A fatal or skippable condition of one pipeline run.
#[derive(Debug)]
pub enum PipelineError {
    /// A required input file is absent; holds the missing path.
    MissingFile { path: String },
    /// An underlying OS read/write failure; holds its description.
    IoError { detail: String },
    /// A playlist file breaks the two-line-per-entry convention; holds the
    /// offending file path and line content.
    MalformedPlaylist { path: String, kind: MalformedKind, line: String },
}

} // verus!
