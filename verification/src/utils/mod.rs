pub mod geometry;
pub mod optimization;
