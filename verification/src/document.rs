use crate::transform::Transform;
use vstd::prelude::*;

verus! {

/// Where the bytes of a buffer come from.
#[derive(Debug, Clone, PartialEq, Eq)]
pub enum BufferSource {
    /// The binary section embedded in the asset.
    Bin,
    /// A reference string: inline `data:` content, or a path beside the asset.
    Uri(Vec<u8>),
}

/// Where the bytes of an image come from.
#[derive(Debug, Clone, PartialEq, Eq)]
pub enum ImageSource {
    /// A reference string, with the media type if the asset declares one.
    Uri { uri: Vec<u8>, mime_type: Option<Vec<u8>> },
    /// `length` bytes of a buffer, starting at `offset`.
    View { buffer: usize, offset: usize, length: usize, view_mime_type: Vec<u8> },
}

/// How a texture goes on beyond its edge.
#[derive(Debug, Clone, Copy, PartialEq, Eq, Structural)]
pub enum WrapMode {
    ClampToEdge,
    MirroredRepeat,
    Repeat,
}

/// How a texture is sampled where it is drawn smaller than it is.
#[derive(Debug, Clone, Copy, PartialEq, Eq, Structural)]
pub enum MinFilter {
    Nearest,
    Linear,
    NearestMipmapNearest,
    LinearMipmapNearest,
    NearestMipmapLinear,
    LinearMipmapLinear,
}

/// How a texture is sampled where it is drawn larger than it is.
#[derive(Debug, Clone, Copy, PartialEq, Eq, Structural)]
pub enum MagFilter {
    Nearest,
    Linear,
}

/// Sampler settings as the asset states them; `None` where it states nothing.
#[derive(Debug, Clone, Copy, PartialEq, Eq)]
pub struct SamplerDesc {
    pub wrap_s: Option<WrapMode>,
    pub wrap_t: Option<WrapMode>,
    pub min_filter: Option<MinFilter>,
    pub mag_filter: Option<MagFilter>,
}

/// A texture as the asset states it: an image and how to sample it.
#[derive(Debug, Clone, Copy, PartialEq, Eq)]
pub struct TextureDesc {
    /// Index of the image that the texture shows.
    pub image: usize,
    pub sampler: SamplerDesc,
}

/// A material as the asset states it; it refers to its textures by their indices.
#[derive(Debug, Clone, Copy, PartialEq, Eq)]
pub struct MaterialDesc {
    pub normal_texture: Option<usize>,
    pub base_color_texture: Option<usize>,
    /// Red, green, blue, alpha, each the bit pattern of a single-precision number.
    pub base_color_factor: [u32; 4],
}

/// One drawable part of a mesh. An attribute that the asset lacks is `None`; each
/// coordinate is the bit pattern of a single-precision number.
#[derive(Debug, Clone, PartialEq, Eq)]
pub struct PrimitiveDesc {
    pub positions: Option<Vec<[u32; 3]>>,
    pub normals: Option<Vec<[u32; 3]>>,
    pub tex_coords: Option<Vec<[u32; 2]>>,
    pub indices: Option<Vec<u32>>,
    /// Index of the material, or `None` for the default material.
    pub material: Option<usize>,
}

/// A mesh as the asset states it.
#[derive(Debug, Clone, PartialEq, Eq)]
pub struct MeshDesc {
    pub primitives: Vec<PrimitiveDesc>,
}

/// A skin as the asset states it: the indices of its joint nodes and of its
/// skeleton root.
#[derive(Debug, Clone, PartialEq, Eq)]
pub struct SkinDesc {
    pub joints: Vec<usize>,
    pub skeleton: Option<usize>,
}

/// A node as the asset states it; it refers to its children and its mesh by their
/// indices.
#[derive(Debug, Clone, PartialEq, Eq)]
pub struct NodeDesc {
    pub children: Vec<usize>,
    pub transform: Transform,
    pub mesh: Option<usize>,
    pub skin: Option<SkinDesc>,
}

/// An asset as its description states it: tables that refer to each other by index,
/// and the root nodes of the default scene.
#[derive(Debug, Clone, PartialEq, Eq)]
pub struct Document {
    pub textures: Vec<TextureDesc>,
    pub materials: Vec<MaterialDesc>,
    pub meshes: Vec<MeshDesc>,
    pub nodes: Vec<NodeDesc>,
    pub scene_roots: Vec<usize>,
}

} // verus!
