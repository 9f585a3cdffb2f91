//! A generic library for textures.
//!
//! The `ImageSize` trait is used for passing textures around for rendering.
//! The `ops` module holds the CPU-side pixel-buffer transforms together with
//! their specifications and the lemmas that state their algebraic laws.

use vstd::prelude::*;

pub mod from_memory_alpha;
pub mod ops;

verus! {

/// Implemented by all images to be used with generic algorithms.
pub trait ImageSize {
    /// The image size, as the specification sees it.
    spec fn size_spec(&self) -> (u32, u32);

    /// Get the image size.
    fn get_size(&self) -> (r: (u32, u32))
        ensures
            r == self.size_spec(),
    ;

    /// Gets the image width.
    fn get_width(&self) -> (r: u32)
        ensures
            r == self.size_spec().0,
    {
        let (w, _) = self.get_size();
        w
    }

    /// Gets the image height.
    fn get_height(&self) -> (r: u32)
        ensures
            r == self.size_spec().1,
    {
        let (_, h) = self.get_size();
        h
    }
}

/// Texture format.
#[derive(Copy, Clone, Debug)]
pub enum Format {
    /// `(red, green, blue, alpha)` with values 0-255.
    Rgba8,
}

/// Sampling filter.
#[derive(Copy, Clone, Debug, PartialEq, Eq, Structural)]
pub enum Filter {
    /// A weighted linear blend.
    Linear,
    /// Nearest texel.
    Nearest,
}

/// Wrap mode.
#[derive(Copy, Clone, Debug, PartialEq, Eq, Structural)]
pub enum Wrap {
    /// Repeats the texture by ignoring the integer part of the coordinate.
    Repeat,
    /// Repeats the texture and mirrors it, when the integer part of the coordinate is odd.
    MirroredRepeat,
    /// The coordinate will be clamped between 0 and 1.
    ClampToEdge,
    /// Coordinates outside the range [0.0, 1.0] will be given a border color.
    ClampToBorder,
}

/// Implemented by texture operations.
pub trait TextureOp<F> {
    /// The error when performing an operation.
    type Error: core::fmt::Debug;
}

/// Implemented by textures for updating.
pub trait UpdateTexture<F>: TextureOp<F> + ImageSize + Sized {
    /// Update the texture.
    ///
    /// The `offset` and `size` arguments represent the position and dimensions of the sub-section
    /// of the texture that is to be updated with the given `memory`.
    fn update<O, S>(
        &mut self,
        factory: &mut F,
        format: Format,
        memory: &[u8],
        offset: O,
        size: S,
    ) -> Result<(), Self::Error> where O: Into<[u32; 2]>, S: Into<[u32; 2]>;
}

/// Error raised by a texture pipeline stage.
///
/// The buffer transforms of [`ops`] only ever produce `InvalidBufferSize`;
/// the remaining variants tag the origin of failures in surrounding stages
/// (image decoding, channel validation, the GPU backend).
#[derive(Clone, Debug, PartialEq, Eq)]
pub enum TextureError {
    /// A supplied buffer's length does not match the geometry it was
    /// declared with.
    InvalidBufferSize {
        /// The length the geometry calls for, saturated at `usize::MAX`
        /// when the true product does not fit in a `usize`.
        expected: usize,
        /// The length of the buffer that was supplied.
        actual: usize,
    },
    /// Decoding an image file failed.
    Decode(String),
    /// A channel count that no transform or backend accepts.
    ChannelCount(u8),
    /// A backend-specific failure, with a human-readable message.
    Backend(String),
}

} // verus!
