//! The binary record codec and the byte-level file operations built on it.
pub mod read_write;
pub mod struct_slice;
