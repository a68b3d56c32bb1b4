pub mod color;
pub mod proofs;
pub mod rasterizer;
pub mod triangle;
pub mod utils;
