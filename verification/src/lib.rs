//! The core of a CPU rasterizer: asset storage, mip-mapped textures, near
//! plane clipping, the tile grid with its binning, and the walk over the
//! pixels; beside it, the plain data of the window layer.
//!
//! The library is generic in the types of colours, depths and vertices; it
//! moves them and decides where they go, and leaves the arithmetic on them to
//! its caller, who hands it in as closures.

use vstd::prelude::*;

pub mod asset_manager;
pub mod colour;
pub mod framebuffer;
pub mod id_pool;
pub mod line;
pub mod model;
pub mod name_index;
pub mod platform;
pub mod renderer;
pub mod sat;
pub mod shapes;
pub mod sparse_map;
pub mod texture;
pub mod tile;
pub mod util;

verus! {

/// Number of worker threads for rasterization; zero renders on the caller's
/// thread.
pub const THREADS: usize = 0;

/// Width of a tile of the screen grid, in pixels.
pub const TILE_WIDTH: usize = 8;

/// Height of a tile of the screen grid, in pixels.
pub const TILE_HEIGHT: usize = 8;

/// Number of mip levels stored for every texture.  Level 0 has the size of
/// the image; each further level halves both dimensions.
pub const MIP_LEVELS: usize = 3;

/// Whether texture dimensions must be powers of two.
pub const DIM_POW_2: bool = false;

} // verus!
