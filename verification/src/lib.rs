//! A single-volume blob store: small objects ("needles") are appended to one
//! growing volume log and located through a compact index.
//!
//! The library works on the bytes of its files, held in memory as `Vec<u8>`;
//! moving those bytes from and to a file system is the caller's business.
//!
//! - `diskio` is the binary record codec, and the reading and writing of
//!   records at positions of a file.
//! - `storage` is the engine: the needle store, the index table, the
//!   rebuilding of the index from the volume, and the proofs of what holds
//!   of a table and its volume.
//! - `master` loads the index file when the service starts.
//! - `config` and `init` are the settings and the command line.
//! - `error` names the failures.
pub mod config;
pub mod diskio;
pub mod error;
pub mod init;
pub mod master;
pub mod storage;
