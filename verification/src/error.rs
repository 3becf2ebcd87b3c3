use vstd::prelude::*;

verus! {

/// Why an analysis was refused before any window was looked at.
#[derive(Clone, Copy, Debug, PartialEq, Eq, Structural)]
pub enum AnalysisError {
    /// The sample rate or the transform length is zero, or the two together
    /// leave no positive distance between consecutive windows.
    InvalidHeader,
    /// The recording has a channel count other than one or two.
    UnsupportedChannelLayout,
}

} // verus!
