//! Client-side binary encoder for complex-data-type (CDT) operations: list,
//! map and blob manipulations addressed by an explicit context path into a
//! nested stored value.
//!
//! The encoder runs in two passes over the same specification: a measure pass
//! that computes the exact serialized length without allocating, and a write
//! pass that appends the same bytes to a caller-supplied [`buffer::Buffer`].
//! Both passes are pinned to one spec-level byte sequence, so their lengths
//! agree by construction.

pub mod buffer;
pub mod cdt;
pub mod msgpack;
pub mod scan_policy;
pub mod value;
