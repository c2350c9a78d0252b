//! Scene evaluation core for hierarchical 3D assets.
//!
//! A parsed asset is turned into a [`Model`]; every frame the model is posed:
//! the node tree is walked and world transforms composed root to leaf,
//! keyframe animation accumulates per-node overrides, and each skin yields
//! its joint matrices.
//!
//! Scalars are held as IEEE-754 single-precision bit patterns and never
//! computed with here. The matrix product, and the matrix of a decomposed
//! transform, are supplied by the caller as functions.

pub mod animation;
pub mod camera;
pub mod error;
pub mod evaluator;
pub mod material;
pub mod matrix;
pub mod mesh;
pub mod model;
pub mod scalar;
pub mod scene;
pub mod skin;
pub mod stream;

pub use animation::{Animation, AnimationData, Channel, ChannelData, Decomposed, Outputs};
pub use camera::{CameraData, FreeCamera, Projection, ProjectionData};
pub use error::MeshLoadError;
pub use evaluator::Transforms;
pub use material::{
    Filter, Format, ImageData, ImageFormat, MagFilter, Material, MaterialData, MinFilter, Texture,
    TextureInfo, Type, WrapMode, WrappingMode,
};
pub use matrix::Mat4;
pub use mesh::{DrawMode, Mesh, MeshData, Mode, PrimitiveData, PrimitiveMaterial, Vertex};
pub use model::{ActiveCamera, Document, DrawCall, Frame, Model, NamedAnimation};
pub use scene::{debug_node_tree, walk_from, Node, Scene, TreeLine, Visit};
pub use skin::{Joint, Skin, SkinData};
