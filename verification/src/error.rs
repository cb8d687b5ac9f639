use vstd::prelude::*;

verus! {

/// Everything that can go wrong while loading, compositing or packing a
/// container.
#[derive(Clone, Debug)]
pub enum PxoError {
    /// The input ended before the bytes that the format requires, or a
    /// compressed block could not be decompressed.
    ReadFile,
    /// Bytes that had to be text were not valid UTF-8.
    ReadUtf8,
    /// The metadata line was not well-formed JSON.
    ReadJson,
    /// The metadata JSON was missing a required key or held a value of the
    /// wrong type.
    UnexpectedJson,
    /// The magic tag at the start of the container was wrong; carries the
    /// expected tag and the tag that was found.
    UnexpectedMagic(String, String),
    /// The compression mode field was not the supported one; carries the
    /// mode that was found.
    UnexpectedCompressionMode(u32),
    /// The block size field was zero, which the block table layout forbids.
    ZeroBlockSize,
    /// The pixel section did not yield a valid image.
    ReadImage,
    /// A composited or atlas image could not be allocated.
    SpriteConversion,
    /// The sprite frames could not be packed into the requested bounds.
    RectanglePack,
}

} // verus!
