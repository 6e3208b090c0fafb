pub mod ringbuffer;
pub mod text;
