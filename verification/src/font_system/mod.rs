pub mod font;
pub mod glyphs;
pub mod packing;
