use vstd::prelude::*;

verus! {

/// Why an import was abandoned.
///
/// Every variant is a structured value: it names the kind of failure and carries the
/// indices of the asset element at fault.
#[derive(Debug, Clone, PartialEq, Eq)]
pub enum ImportGltfError {
    /// An external file could not be read.
    IOError,
    /// An inline `data:` reference is malformed, or its payload is not base64.
    EncodingError,
    /// The bytes of the image with this index could not be decoded.
    ImageLoadingFailed(usize),
    /// The media type (its bytes) of the image with this index is neither PNG nor JPEG.
    UnsupportedImageFormat(Vec<u8>, usize),
    /// A buffer refers to the embedded binary section, and the asset has none left.
    BinSectionMissing,
    /// A primitive lacks an attribute: its name, the mesh index, the primitive index.
    RequiredAttributeMissing(&'static str, usize, usize),
    /// No buffer has this index.
    UnknownBufferIndex(usize),
    /// Buffer index, start and end of a byte range that the buffer does not cover.
    BufferRangeOutOfBounds(usize, usize, usize),
    /// No image has this index.
    UnknownImageIndex(usize),
    /// No texture has this index.
    UnknownTextureIndex(usize),
    /// No material has this index.
    UnknownMaterialIndex(usize),
    /// No mesh has this index.
    UnknownMeshIndex(usize),
    /// No node has this index.
    UnknownNodeIndex(usize),
    /// A vertex index of this mesh and primitive does not fit 16 bits.
    IndexCapacityExceeded(usize, usize),
    /// A node index does not fit the 16-bit id width.
    NodeIndexCapacityExceeded(usize),
    /// The node with this index is named twice by root and child lists, or it is not
    /// reached from the scene's roots while a node with a larger index is.
    NodeGraphNotForest(usize),
}

/// The mathematical value of an [`ImportGltfError`].
pub enum Failure {
    IOError,
    EncodingError,
    ImageLoadingFailed(int),
    UnsupportedImageFormat(Seq<u8>, int),
    BinSectionMissing,
    RequiredAttributeMissing(Seq<char>, int, int),
    UnknownBufferIndex(int),
    BufferRangeOutOfBounds(int, int, int),
    UnknownImageIndex(int),
    UnknownTextureIndex(int),
    UnknownMaterialIndex(int),
    UnknownMeshIndex(int),
    UnknownNodeIndex(int),
    IndexCapacityExceeded(int, int),
    NodeIndexCapacityExceeded(int),
    NodeGraphNotForest(int),
}

impl View for ImportGltfError {
    type V = Failure;

    open spec fn view(&self) -> Failure {
        match *self {
            ImportGltfError::IOError => Failure::IOError,
            ImportGltfError::EncodingError => Failure::EncodingError,
            ImportGltfError::ImageLoadingFailed(i) => Failure::ImageLoadingFailed(i as int),
            ImportGltfError::UnsupportedImageFormat(m, i) => Failure::UnsupportedImageFormat(
                m@,
                i as int,
            ),
            ImportGltfError::BinSectionMissing => Failure::BinSectionMissing,
            ImportGltfError::RequiredAttributeMissing(name, m, p) => {
                Failure::RequiredAttributeMissing(name@, m as int, p as int)
            },
            ImportGltfError::UnknownBufferIndex(i) => Failure::UnknownBufferIndex(i as int),
            ImportGltfError::BufferRangeOutOfBounds(b, from, to) => {
                Failure::BufferRangeOutOfBounds(b as int, from as int, to as int)
            },
            ImportGltfError::UnknownImageIndex(i) => Failure::UnknownImageIndex(i as int),
            ImportGltfError::UnknownTextureIndex(i) => Failure::UnknownTextureIndex(i as int),
            ImportGltfError::UnknownMaterialIndex(i) => Failure::UnknownMaterialIndex(i as int),
            ImportGltfError::UnknownMeshIndex(i) => Failure::UnknownMeshIndex(i as int),
            ImportGltfError::UnknownNodeIndex(i) => Failure::UnknownNodeIndex(i as int),
            ImportGltfError::IndexCapacityExceeded(m, p) => Failure::IndexCapacityExceeded(
                m as int,
                p as int,
            ),
            ImportGltfError::NodeIndexCapacityExceeded(i) => Failure::NodeIndexCapacityExceeded(
                i as int,
            ),
            ImportGltfError::NodeGraphNotForest(i) => Failure::NodeGraphNotForest(i as int),
        }
    }
}

} // verus!
