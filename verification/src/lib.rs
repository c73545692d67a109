pub mod bits;
pub mod net;
pub mod network;
pub mod id_manager;
pub mod entity;
pub mod input;
pub mod task_system;
pub mod animations;
pub mod audio;
pub mod font_system;
pub mod renderer;
pub mod app_config;
pub mod app_control;
