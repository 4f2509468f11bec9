//! The runtime side: hot module replacement patches for changed sources.
pub mod hmr;
