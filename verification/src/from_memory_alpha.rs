//! Create a texture from an alpha channel image in memory.

use vstd::prelude::*;

verus! {

/// Implemented by textures that can be constructed
/// from an alpha channel image in memory.
pub trait FromMemoryAlpha<D>: Sized {
    /// Creates the texture.
    /// Closure `f` should be called after the texture is created.
    fn from_memory_alpha<F>(
        device: &mut D,
        buffer: &[u8],
        width: u32,
        height: u32,
        f: F,
    ) -> Option<Self> where F: FnOnce(&mut D, Self) -> Self;
}

} // verus!
