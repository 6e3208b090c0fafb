pub mod console;
pub mod gop_framebuffer;
pub mod keyboard;
pub mod tty;
