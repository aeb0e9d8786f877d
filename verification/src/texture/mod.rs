pub mod bitmap;
pub mod mipmap;
pub mod texture;

pub use bitmap::Bitmap;
pub use mipmap::MipLevel;
pub use texture::Texture;
