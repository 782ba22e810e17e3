//! The geometry of the store: the kinds of block, how large the blocks of a
//! kind are and how many there are, and the bytes that identify a region.

use vstd::prelude::*;

verus! {

/// The geometry of one kind of block: how large a block is, how many there
/// are, and how many bytes identify the region in front of them.
pub trait BlockAlign {
    /// The bytes at the start of the region that identify its kind.
    spec fn spec_header_size() -> u64;

    /// The bytes that a block of this kind takes, links and payload.
    spec fn spec_block_size() -> u64;

    /// The number of blocks of this kind.
    spec fn spec_block_count() -> u64;

    /// The region's header as it is first written.
    spec fn spec_initial_header() -> Seq<u8>;

    /// The bytes that a block of this kind takes, links and payload.
    fn block_size() -> (r: u64)
        ensures
            r == Self::spec_block_size(),
    ;

    /// The number of blocks of this kind.
    fn block_count() -> (r: u64)
        ensures
            r == Self::spec_block_count(),
    ;

    /// The bytes at the start of the region that identify its kind.
    fn header_size() -> (r: u64)
        ensures
            r == Self::spec_header_size(),
    ;

    /// The bytes that the whole region takes: its header and all its blocks.
    fn super_block_size() -> (r: u64)
        ensures
            r == Self::spec_block_size() * Self::spec_block_count() + Self::spec_header_size(),
    ;

    /// The region's header as it is first written: the kind's identifier,
    /// then zeros.
    fn initial_header() -> (r: Vec<u8>)
        ensures
            r@ == Self::spec_initial_header(),
            r@.len() == Self::spec_header_size(),
    ;
}

/// The record at the start of the store: the heads of the three free chains
/// and of the directory chain. A pointer of `0` means that the chain is empty.
#[derive(Debug, Clone, Copy, PartialEq, Eq, Structural, Default)]
pub struct BlockKindMain {
    /// The first header block that is free, or `0`.
    pub free_header_ptr: u64,
    /// The first title block that is free, or `0`.
    pub free_title_ptr: u64,
    /// The first data block that is free, or `0`.
    pub free_data_ptr: u64,
    /// The header block of the file that was inserted last, or `0` while
    /// there is no file.
    pub first_header_ptr: u64,
}

/// The kind of the header region: one block per file, which holds where the
/// file's title and data blocks are.
#[derive(Debug, Clone, Copy, PartialEq, Eq, Structural, Default)]
pub struct BlockKindHeader;

/// The kind of the title region: one block per file name.
#[derive(Debug, Clone, Copy, PartialEq, Eq, Structural, Default)]
pub struct BlockKindTitle;

/// The kind of the data region: one block per file content.
#[derive(Debug, Clone, Copy, PartialEq, Eq, Structural, Default)]
pub struct BlockKindData;

/// The kinds of block that are handed out from a free chain.
#[derive(Debug, Clone, Copy, PartialEq, Eq, Structural)]
pub enum BlockKind {
    Header,
    Title,
    Data,
}

/// A region header: the kind's identifier in the first byte, zeros after it.
pub open spec fn kind_header(ident: u8, len: nat) -> Seq<u8> {
    Seq::new(len, |i: int| if i == 0 { ident } else { 0u8 })
}

/// A region header of `len` bytes for the kind that `ident` identifies.
fn make_kind_header(ident: u8, len: usize) -> (r: Vec<u8>)
    ensures
        r@ == kind_header(ident, len as nat),
{
    let mut out: Vec<u8> = Vec::with_capacity(len);
    let mut i: usize = 0;
    while i < len
        invariant
            i <= len,
            out@ =~= kind_header(ident, i as nat),
        decreases len - i,
    {
        out.push(if i == 0 { ident } else { 0u8 });
        i += 1;
    }
    out
}

impl BlockAlign for BlockKindMain {
    open spec fn spec_header_size() -> u64 {
        32
    }

    open spec fn spec_block_size() -> u64 {
        0
    }

    open spec fn spec_block_count() -> u64 {
        0
    }

    open spec fn spec_initial_header() -> Seq<u8> {
        kind_header(0, 32)
    }

    fn block_size() -> u64 {
        0
    }

    fn block_count() -> u64 {
        0
    }

    fn header_size() -> u64 {
        32
    }

    fn super_block_size() -> u64 {
        32
    }

    fn initial_header() -> Vec<u8> {
        make_kind_header(0, 32)
    }
}

impl BlockAlign for BlockKindHeader {
    open spec fn spec_header_size() -> u64 {
        16
    }

    open spec fn spec_block_size() -> u64 {
        32
    }

    open spec fn spec_block_count() -> u64 {
        128
    }

    open spec fn spec_initial_header() -> Seq<u8> {
        kind_header(1, 16)
    }

    fn block_size() -> u64 {
        32
    }

    fn block_count() -> u64 {
        128
    }

    fn header_size() -> u64 {
        16
    }

    fn super_block_size() -> u64 {
        Self::block_size() * Self::block_count() + Self::header_size()
    }

    fn initial_header() -> Vec<u8> {
        make_kind_header(1, 16)
    }
}

impl BlockAlign for BlockKindTitle {
    open spec fn spec_header_size() -> u64 {
        16
    }

    open spec fn spec_block_size() -> u64 {
        32
    }

    open spec fn spec_block_count() -> u64 {
        128
    }

    open spec fn spec_initial_header() -> Seq<u8> {
        kind_header(2, 16)
    }

    fn block_size() -> u64 {
        32
    }

    fn block_count() -> u64 {
        128
    }

    fn header_size() -> u64 {
        16
    }

    fn super_block_size() -> u64 {
        Self::block_size() * Self::block_count() + Self::header_size()
    }

    fn initial_header() -> Vec<u8> {
        make_kind_header(2, 16)
    }
}

impl BlockAlign for BlockKindData {
    open spec fn spec_header_size() -> u64 {
        16
    }

    open spec fn spec_block_size() -> u64 {
        128
    }

    open spec fn spec_block_count() -> u64 {
        32
    }

    open spec fn spec_initial_header() -> Seq<u8> {
        kind_header(3, 16)
    }

    fn block_size() -> u64 {
        128
    }

    fn block_count() -> u64 {
        32
    }

    fn header_size() -> u64 {
        16
    }

    fn super_block_size() -> u64 {
        Self::block_size() * Self::block_count() + Self::header_size()
    }

    fn initial_header() -> Vec<u8> {
        make_kind_header(3, 16)
    }
}

} // verus!
