pub mod canvas;
pub mod color;
pub mod hittable;
pub mod image;
pub mod partition;
pub mod path;
pub mod ppm;
pub mod render;
pub mod threads;
