//! Import of glTF-style assets into an index-addressed scene graph.

pub mod buffers;
pub mod builder;
pub mod data_uri;
pub mod document;
pub mod error;
pub mod forest;
pub mod frame;
pub mod ids;
pub mod images;
pub mod import_gltf;
pub mod resources;
pub mod scene;
mod traversal;
pub mod transform;

pub use error::ImportGltfError;
pub use frame::Frame;
pub use resources::{Material, Mesh, Texture, Vertex};
pub use scene::{Node, Scene, Skin};
pub use transform::Transform;
