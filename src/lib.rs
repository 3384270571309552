pub mod distance;
pub mod grid;
pub mod markers;
pub mod mesh;
