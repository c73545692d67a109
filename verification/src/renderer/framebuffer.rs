//! A framebuffer: its size and the GPU objects behind it, and which of its buffers a clear
//! resets.

use vstd::prelude::*;

verus! {

/// A framebuffer of `width` by `height` pixels, with the names of its GPU framebuffer object
/// and its color texture.
#[derive(Copy, Clone, Debug, PartialEq, Eq, Structural)]
pub struct Framebuffer {
    pub width: u32,
    pub height: u32,
    pub framebuffer_object: u32,
    pub color_texture_object: u32,
}

impl Framebuffer {
    /// The framebuffer over GPU objects already made.
    pub fn from_objects(width: u32, height: u32, framebuffer_object: u32, color_texture_object: u32) -> (r: Self)
        ensures
            r == (Framebuffer { width, height, framebuffer_object, color_texture_object }),
    {
        Framebuffer { width, height, framebuffer_object, color_texture_object }
    }
}

/// Which buffers a clear resets: bit 0 the color buffer, bit 1 the depth buffer, bit 2 the
/// stencil buffer.
#[derive(Copy, Clone, Debug, PartialEq, Eq, Structural)]
pub struct ClearMask {
    bits: u8,
}

/// The GL clear bits of a mask: `COLOR_BUFFER_BIT` (`0x4000`), `DEPTH_BUFFER_BIT` (`0x100`)
/// and `STENCIL_BUFFER_BIT` (`0x400`) for the buffers it names.
pub open spec fn gl_clear_bits(bits: u8) -> u32 {
    ((if bits & 1 != 0 { 0x4000u32 } else { 0u32 }) | (if bits & 2 != 0 { 0x100u32 } else { 0u32 }) | (if bits
        & 4 != 0 { 0x400u32 } else { 0u32 })) as u32
}

/// The values of `gl::COLOR_BUFFER_BIT`, `gl::DEPTH_BUFFER_BIT` and `gl::STENCIL_BUFFER_BIT`,
/// which the gl crate generates from the Khronos registry: `0x4000`, `0x100` and `0x400`.
#[verifier::external_body]
fn gl_buffer_bits() -> (r: (u32, u32, u32))
    ensures
        r == (0x4000u32, 0x100u32, 0x400u32),
{
    (gl::COLOR_BUFFER_BIT, gl::DEPTH_BUFFER_BIT, gl::STENCIL_BUFFER_BIT)
}

impl ClearMask {
    /// The bits of the mask.
    pub closed spec fn mask(self) -> u8 {
        self.bits
    }

    /// No buffer.
    pub fn empty() -> (r: ClearMask)
        ensures
            r.mask() == 0,
    {
        ClearMask { bits: 0 }
    }

    /// The color buffer.
    pub fn color() -> (r: ClearMask)
        ensures
            r.mask() == 1,
    {
        ClearMask { bits: 1 }
    }

    /// The depth buffer.
    pub fn depth() -> (r: ClearMask)
        ensures
            r.mask() == 2,
    {
        ClearMask { bits: 2 }
    }

    /// The stencil buffer.
    pub fn stencil() -> (r: ClearMask)
        ensures
            r.mask() == 4,
    {
        ClearMask { bits: 4 }
    }

    /// The buffers of both masks.
    pub fn union(self, other: ClearMask) -> (r: ClearMask)
        ensures
            r.mask() == self.mask() | other.mask(),
    {
        ClearMask { bits: self.bits | other.bits }
    }

    /// Whether the mask names every buffer that `other` names.
    pub fn contains(self, other: ClearMask) -> (r: bool)
        ensures
            r == (self.mask() & other.mask() == other.mask()),
    {
        self.bits & other.bits == other.bits
    }

    pub fn bits(self) -> (r: u8)
        ensures
            r == self.mask(),
    {
        self.bits
    }

    /// The GL bits that clear the buffers of the mask.
    pub fn to_gl(self) -> (r: u32)
        ensures
            r == gl_clear_bits(self.mask()),
    {
        let (color, depth, stencil) = gl_buffer_bits();
        let c = if self.bits & 1 != 0 { color } else { 0 };
        let d = if self.bits & 2 != 0 { depth } else { 0 };
        let s = if self.bits & 4 != 0 { stencil } else { 0 };
        c | d | s
    }
}

} // verus!
