//! A verified codec for tag/offset-linked binary table formats, as used by
//! font containers: bounds-checked reading of big-endian tables, a
//! deduplicating object graph that lays tables out and patches their
//! relative offsets, and the identifier remapping that drives subsetting.
pub mod chain;
pub mod classes;
pub mod cmap;
pub mod compile;
pub mod font;
pub mod gdef;
pub mod glyf;
pub mod gpos;
pub mod graph;
pub mod layout;
pub mod mark;
pub mod offset;
pub mod offsets;
pub mod scalar;
pub mod subset;
