//! The card's own numbers and descriptors, where a number that does not fit is
//! an error and a descriptor has a single element.

/// Buffers that are handed out in turn.
pub mod recycle_allocator;
/// Packet numbers, queue pair numbers and elements.
pub mod types;
/// Numbers made of bytes.
pub mod utils;
/// Work descriptors with a single element.
pub mod work;
