use vstd::prelude::*;

verus! {

/// Ways in which encoding can fail.
#[derive(Clone, Debug, PartialEq, Eq)]
pub enum EncodeError {
    /// A frame's size differs from the frame before it.
    WrongSize { frame: usize, width: usize, height: usize, expected_width: usize, expected_height: usize },
    /// No frame was supplied.
    NoFrames,
    /// A source image could not be decoded.
    DecodeFailed(String),
    /// Palette selection or remapping failed.
    QuantizationFailed,
    /// Resampling an image failed.
    ResizeFailed,
    /// The progress reporter asked to stop.
    Aborted,
    /// A pipeline stage stopped before its peers.
    ThreadSend,
    /// Writing the output failed.
    Io(String),
}

} // verus!
