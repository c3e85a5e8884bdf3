use crate::document::{MagFilter, MinFilter, WrapMode};
use vstd::prelude::*;

verus! {

/// The byte layout of decoded pixels.
#[derive(Debug, Clone, Copy, PartialEq, Eq, Structural)]
pub enum PixelFormat {
    /// Three bytes a pixel: red, green, blue.
    Rgb8,
    /// Four bytes a pixel: red, green, blue, alpha.
    Rgba8,
}

impl PixelFormat {
    /// Bytes per pixel.
    pub open spec fn spec_channels(self) -> usize {
        match self {
            PixelFormat::Rgb8 => 3,
            PixelFormat::Rgba8 => 4,
        }
    }

    /// Bytes per pixel.
    #[verifier::when_used_as_spec(spec_channels)]
    pub fn channels(self) -> (n: usize)
        ensures
            n == self.spec_channels(),
    {
        match self {
            PixelFormat::Rgb8 => 3,
            PixelFormat::Rgba8 => 4,
        }
    }
}

/// Decoded pixels, row after row.
#[derive(Debug, Clone, PartialEq, Eq)]
pub struct ImageData {
    pub data: Vec<u8>,
    pub width: u32,
    pub height: u32,
    pub format: PixelFormat,
}

/// How a texture is sampled; every field has a value.
#[derive(Debug, Clone, Copy, PartialEq, Eq)]
pub struct Sampling {
    pub wrap_s: WrapMode,
    pub wrap_t: WrapMode,
    pub min_filter: MinFilter,
    pub mag_filter: MagFilter,
}

/// Pixels and how to sample them.
#[derive(Debug, Clone, PartialEq, Eq)]
pub struct Texture {
    /// Index of the texture in the asset.
    pub source: usize,
    pub data: Vec<u8>,
    pub width: u32,
    pub height: u32,
    pub format: PixelFormat,
    pub sampling: Sampling,
}

/// How a primitive is colored. A material without textures is drawn in its base
/// color.
#[derive(Debug, Clone, Copy, PartialEq, Eq)]
pub struct Material {
    /// Index of the material in the asset; `None` for the default material.
    pub source: Option<usize>,
    /// Id of the normal texture in the scene's texture table.
    pub normal: Option<usize>,
    /// Id of the diffuse texture in the scene's texture table.
    pub diffuse: Option<usize>,
    pub base_diffuse_color: [u32; 4],
}

/// One corner of a primitive; each coordinate is the bit pattern of a
/// single-precision number.
#[derive(Debug, Clone, Copy, PartialEq, Eq)]
pub struct Vertex {
    pub position: [u32; 4],
    pub normal: [u32; 3],
    pub tex_coord: [u32; 2],
}

/// One drawable part of a mesh, with vertex data and a material of its own.
#[derive(Debug, Clone, PartialEq, Eq)]
pub struct Primitive {
    pub vertices: Vec<Vertex>,
    pub indices: Vec<u16>,
    /// Id of the material in the scene's material table.
    pub material: usize,
}

/// The primitives that make up one mesh of the asset.
#[derive(Debug, Clone, PartialEq, Eq)]
pub struct Mesh {
    /// Index of the mesh in the asset.
    pub source: usize,
    pub primitives: Vec<Primitive>,
}

} // verus!
