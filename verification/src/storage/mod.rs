//! The storage engine: needles in the volume log, the index over them, and
//! the rebuilding of the index from the log.
pub mod agreement;
pub mod index;
pub mod item;
pub mod needle;
