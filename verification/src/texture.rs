//! What the backend has to know of textures, and the errors that work on them ends in.
use vstd::prelude::*;

verus! {

/// The shape of a texture, in pixels.
#[derive(Clone, Copy, Debug, PartialEq, Eq, Structural)]
pub enum GpuTextureKind {
    Line { length: usize },
    Rectangle { width: usize, height: usize },
    Cube { size: usize },
    Volume { width: usize, height: usize, depth: usize },
}

/// What a pixel holds: one to four channels of eight bits each.
#[derive(Clone, Copy, Debug, PartialEq, Eq, Structural)]
pub enum PixelKind {
    R8,
    RG8,
    RGB8,
    RGBA8,
}

impl PixelKind {
    /// How many channels a pixel has.
    pub open spec fn channels(self) -> nat {
        match self {
            PixelKind::R8 => 1,
            PixelKind::RG8 => 2,
            PixelKind::RGB8 => 3,
            PixelKind::RGBA8 => 4,
        }
    }
}

/// A texture to create.
pub struct GpuTextureDescriptor {
    pub name: String,
    pub kind: GpuTextureKind,
    pub pixel_kind: PixelKind,
}

/// Why something could not be done.
#[derive(Debug)]
pub enum FrameworkError {
    /// The graphics server is gone.
    GraphicsServerUnavailable,
    /// Something else went wrong.
    Custom(String),
}

impl FrameworkError {
    /// The error carries this message.
    pub open spec fn says(self, message: Seq<char>) -> bool {
        self matches FrameworkError::Custom(text) && text@ == message
    }
}

} // verus!
