pub mod pixel;
pub mod plane;
pub mod slice;
pub mod laws;
