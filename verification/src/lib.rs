//! A minimal virtual file system over an in-memory byte store.
//!
//! The module `filesystem` holds the block-structured file system: regions
//! of fixed-size blocks that are handed out from free chains, and a chain of
//! header blocks that lists the files. The module `table` holds a simpler
//! one, whose items are also found here: a table of ten entries at the start
//! of the store, and behind it the data of the files.

pub mod cursor;
pub mod errors;
pub mod file_header;
pub mod filesystem;
pub mod geometry;
pub mod image;
pub mod laws;
pub mod records;
pub mod table;
pub mod text;

pub use crate::cursor::stream_len;
pub use crate::table::{
    FSHeader, FileDataError, FileHeader, FileHeaderError, FileSystemError, Filesystem,
};
