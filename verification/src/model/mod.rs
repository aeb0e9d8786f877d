pub mod mesh;
pub mod model;
pub mod triangle;

pub use mesh::{Mesh, MeshInstance};
pub use model::{Model, ModelInstance};
pub use triangle::ClipResult;
