//! A rectangle of a texture, in texels.

use vstd::prelude::*;

use crate::renderer::batching::Vec2i;

verus! {

/// The texels `uvs.0` (inclusive) to `uvs.1` of the texture under key `texture`.
#[derive(Copy, Clone, Debug, PartialEq, Eq)]
pub struct Subtexture {
    pub texture: usize,
    pub uvs: (Vec2i, Vec2i),
}

impl Subtexture {
    /// The `w` by `h` texels at `(x, y)`. `requires` keeps each corner within
    /// `u32::MAX`; corners past `i32::MAX` wrap, as `as i32` does.
    pub fn new(texture: usize, x: u32, y: u32, w: u32, h: u32) -> (r: Self)
        requires
            w + x <= u32::MAX,
            h + y <= u32::MAX,
        ensures
            r.texture == texture,
            r.uvs.0 == (Vec2i { x: x as i32, y: y as i32 }),
            r.uvs.1 == (Vec2i { x: (w + x) as i32, y: (h + y) as i32 }),
    {
        Subtexture {
            texture,
            uvs: (Vec2i { x: x as i32, y: y as i32 }, Vec2i { x: (w + x) as i32, y: (h + y) as i32 }),
        }
    }

    /// The whole of a `w` by `h` texture.
    pub fn whole(texture: usize, w: u32, h: u32) -> (r: Self)
        ensures
            r.texture == texture,
            r.uvs.0 == (Vec2i { x: 0, y: 0 }),
            r.uvs.1 == (Vec2i { x: w as i32, y: h as i32 }),
    {
        Subtexture { texture, uvs: (Vec2i { x: 0, y: 0 }, Vec2i { x: w as i32, y: h as i32 }) }
    }
}

} // verus!
