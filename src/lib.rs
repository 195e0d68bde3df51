//! Palette extraction and pixel-art rendering of RGB images.
//!
//! The library works on plain RGB8 buffers: it sizes the coarse grid for a
//! requested block size, averages blocks, maps each block to its nearest
//! palette colour in Lab space, runs 3x3 convolutions with clamped edges, and
//! keeps the best of several clustering runs.
pub mod image;
pub mod convolve;
pub mod downsample;
pub mod color;
pub mod quantize;
pub mod cluster;
