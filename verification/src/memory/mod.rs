pub mod bmp_alloc;
pub mod phys_frame_bump_alloc;
