//! Merging of page-oriented, graph-structured documents and in-place
//! recompression of their embedded raster images, over a verified model
//! of the document object graph. Loading bytes from disk and writing the
//! merged result back are left to the caller; the raster codec is called
//! through a few trusted wrappers.

pub mod inherit;
pub mod merge;
pub mod names;
pub mod objects;
pub mod recompress;
pub mod renumber;
pub mod store;
