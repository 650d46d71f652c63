//! The errors that building and rendering a scene can report.
use vstd::prelude::*;

verus! {

/// A scene was built with a required option unset.
#[derive(Clone, Copy, Debug, PartialEq, Eq, Structural)]
pub struct SceneBuilderError;

/// A node was built without a behaviour.
#[derive(Clone, Copy, Debug, PartialEq, Eq, Structural)]
pub struct RenderableBuilderError;

/// What can stop a render. Frame errors carry the index of the frame.
#[derive(Clone, Copy, Debug, PartialEq, Eq, Structural)]
pub enum SceneRenderingError {
    FileWritingError,
    /// The frame could not be rendered, or its worker failed.
    FrameRenderingError(usize),
    /// The encoder refused the frame; frame 0 also stands for an encoder
    /// that could not be set up.
    EncodingError(usize),
    FFMPEGError,
    Crossterm,
}

/// An image-backed node could not be made from its file.
#[derive(Clone, Copy, Debug, PartialEq, Eq, Structural)]
pub enum RenderableImageError {
    ImageLoadingError,
}

/// The frame list for the muxer could not be written.
#[derive(Clone, Copy, Debug, PartialEq, Eq, Structural)]
pub enum FrameDictError {
    FrameDirectoryCreation,
    FrameDictionaryCreation,
}

/// The error a program built on this library reports when a render fails.
#[derive(Clone, Copy, Debug, PartialEq, Eq, Structural)]
pub struct MainError;

} // verus!
