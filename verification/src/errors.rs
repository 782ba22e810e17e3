//! The errors of the block-structured file system.

use crate::cursor::IoError;
use crate::geometry::BlockKind;
use vstd::prelude::*;

verus! {

/// Why a store could not be formatted.
#[derive(Debug, Clone, Copy, PartialEq, Eq, Structural)]
pub enum InitializationError {
    /// The store cannot hold the main record.
    TooSmallForMainSuperBlock,
    /// The store cannot hold the header region behind the main record.
    TooSmallForHeaderSuperBlock,
    /// The store cannot hold the title region behind the header region.
    TooSmallForTitleSuperBlock,
    /// The store cannot hold the data region behind the title region.
    TooSmallForDataSuperBlock,
    /// The store itself failed.
    IO(IoError),
}

/// Why a record could not be read or written.
#[derive(Debug, Clone, Copy, PartialEq, Eq, Structural)]
pub enum GenericError {
    /// The store itself failed, or ended before the record did.
    IO(IoError),
}

/// Why an operation on the file system failed.
#[derive(Debug, Clone, Copy, PartialEq, Eq, Structural)]
pub enum FilesystemError {
    /// The store could not be formatted.
    InitializationError(InitializationError),
    /// The file's name does not fit into a title block.
    FileNameTooLarge,
    /// The file's content does not fit into a data block.
    ContentTooLarge,
    /// No block of the kind is left to hand out.
    ExhaustedFreeList(BlockKind),
    /// No file has the name.
    NotFound,
    /// The store itself failed, or holds a record that cannot be read.
    IO(IoError),
}

impl InitializationError {
    /// What went wrong, in words, as a sequence of characters.
    pub open spec fn message_text(&self) -> Seq<char> {
        match *self {
            InitializationError::TooSmallForMainSuperBlock => "filesystem size is too small to allocate a main superblock"@,
            InitializationError::TooSmallForHeaderSuperBlock => "filesystem size is too small to allocate a header superblock"@,
            InitializationError::TooSmallForTitleSuperBlock => "filesystem size is too small to allocate a title superblock"@,
            InitializationError::TooSmallForDataSuperBlock => "filesystem size is too small to allocate a data superblock"@,
            InitializationError::IO(e) => e.message_text(),
        }
    }

    /// What went wrong, in words.
    pub fn message(&self) -> (r: String)
        ensures
            r@ == self.message_text(),
    {
        match self {
            InitializationError::TooSmallForMainSuperBlock => "filesystem size is too small to allocate a main superblock".to_owned(),
            InitializationError::TooSmallForHeaderSuperBlock => "filesystem size is too small to allocate a header superblock".to_owned(),
            InitializationError::TooSmallForTitleSuperBlock => "filesystem size is too small to allocate a title superblock".to_owned(),
            InitializationError::TooSmallForDataSuperBlock => "filesystem size is too small to allocate a data superblock".to_owned(),
            InitializationError::IO(e) => e.message(),
        }
    }
}

impl GenericError {
    /// What went wrong, in words, as a sequence of characters.
    pub open spec fn message_text(&self) -> Seq<char> {
        match *self {
            GenericError::IO(e) => e.message_text(),
        }
    }

    /// What went wrong, in words.
    pub fn message(&self) -> (r: String)
        ensures
            r@ == self.message_text(),
    {
        match self {
            GenericError::IO(e) => e.message(),
        }
    }
}

impl FilesystemError {
    /// What went wrong, in words, as a sequence of characters.
    pub open spec fn message_text(&self) -> Seq<char> {
        match *self {
            FilesystemError::InitializationError(e) => e.message_text(),
            FilesystemError::FileNameTooLarge => "file name is larger than 16 bytes"@,
            FilesystemError::ContentTooLarge => "file content is larger than 112 bytes"@,
            FilesystemError::ExhaustedFreeList(BlockKind::Header) => "no free header block is left"@,
            FilesystemError::ExhaustedFreeList(BlockKind::Title) => "no free title block is left"@,
            FilesystemError::ExhaustedFreeList(BlockKind::Data) => "no free data block is left"@,
            FilesystemError::NotFound => "no file has this name"@,
            FilesystemError::IO(e) => e.message_text(),
        }
    }

    /// What went wrong, in words.
    pub fn message(&self) -> (r: String)
        ensures
            r@ == self.message_text(),
    {
        match self {
            FilesystemError::InitializationError(e) => e.message(),
            FilesystemError::FileNameTooLarge => "file name is larger than 16 bytes".to_owned(),
            FilesystemError::ContentTooLarge => "file content is larger than 112 bytes".to_owned(),
            FilesystemError::ExhaustedFreeList(BlockKind::Header) => "no free header block is left".to_owned(),
            FilesystemError::ExhaustedFreeList(BlockKind::Title) => "no free title block is left".to_owned(),
            FilesystemError::ExhaustedFreeList(BlockKind::Data) => "no free data block is left".to_owned(),
            FilesystemError::NotFound => "no file has this name".to_owned(),
            FilesystemError::IO(e) => e.message(),
        }
    }
}

impl From<InitializationError> for FilesystemError {
    fn from(value: InitializationError) -> (r: Self) {
        FilesystemError::InitializationError(value)
    }
}

impl vstd::std_specs::convert::FromSpecImpl<InitializationError> for FilesystemError {
    open spec fn obeys_from_spec() -> bool {
        true
    }

    open spec fn from_spec(value: InitializationError) -> Self {
        FilesystemError::InitializationError(value)
    }
}

impl From<GenericError> for FilesystemError {
    fn from(value: GenericError) -> (r: Self) {
        match value {
            GenericError::IO(e) => FilesystemError::IO(e),
        }
    }
}

impl vstd::std_specs::convert::FromSpecImpl<GenericError> for FilesystemError {
    open spec fn obeys_from_spec() -> bool {
        true
    }

    open spec fn from_spec(value: GenericError) -> Self {
        match value {
            GenericError::IO(e) => FilesystemError::IO(e),
        }
    }
}

} // verus!
