pub mod app;
pub mod chip8;
