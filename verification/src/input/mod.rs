pub mod button;
pub mod mapping;
pub mod system;
