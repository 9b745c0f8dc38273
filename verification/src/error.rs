//! What can go wrong while clips are exported.

use vstd::prelude::*;

verus! {

/// The ways in which the export of a clip can fail. Each concerns one clip
/// and leaves the rest of the run untouched.
#[derive(Clone, Copy, Debug, PartialEq, Eq)]
pub enum ExportError {
    /// The clip has no segment directory, or a stream lacks its
    /// initialization segment or its chunks.
    SegmentsNotFound,
    /// The name of the clip directory does not hold an application
    /// identifier, a date and a time.
    UnreadableClipName,
    /// Reading, writing or copying a file failed.
    IoFailure,
    /// The title could not be looked up. The default title stands in for
    /// it, so this never fails a clip.
    LookupFailure,
    /// The mux tool ended with a status other than success; `status` is its
    /// exit code, `None` where it was ended by a signal.
    MuxFailure { status: Option<i32> },
}

} // verus!
