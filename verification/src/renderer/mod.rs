pub mod batching;
pub mod framebuffer;
pub mod material;
pub mod subtexture;
pub mod vertex_format;
