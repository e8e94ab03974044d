//! Mosaic redaction of rectangular image regions.
//!
//! A region is configured relative to either corner of an image, resolved to
//! an in-bounds rectangle, and that rectangle is pixelated block by block.

pub mod batch;
pub mod canvas;
pub mod config;
pub mod files;
pub mod grid;
pub mod processor;
