//! What the bytes of a store mean: where the regions and their blocks lie,
//! how the chains run through them, and what each operation makes of a store.

use crate::cursor::{lemma_write_frame, lemma_write_read, read_at, write_at, IoError};
use crate::errors::{FilesystemError, InitializationError};
use crate::filesystem::PoppedBlock;
use crate::geometry::{
    kind_header, BlockAlign, BlockKind, BlockKindData, BlockKindHeader, BlockKindMain,
    BlockKindTitle,
};
use crate::records::{zero_padded, Block, FileHeader, FromBytes, ToBytes};
use crate::text::trimmed;
use vstd::bytes::{spec_u64_from_le_bytes, spec_u64_to_le_bytes};
use vstd::prelude::*;

verus! {

/// The bytes that the region of kind `K` takes, header and blocks.
pub open spec fn region_size<K: BlockAlign>() -> int {
    K::spec_block_size() * K::spec_block_count() + K::spec_header_size()
}

/// The bytes that one block of `kind` takes.
pub open spec fn block_size_of(kind: BlockKind) -> int {
    match kind {
        BlockKind::Header => 32,
        BlockKind::Title => 32,
        BlockKind::Data => 128,
    }
}

/// The number of blocks of `kind`.
pub open spec fn block_count_of(kind: BlockKind) -> int {
    match kind {
        BlockKind::Header => 128,
        BlockKind::Title => 128,
        BlockKind::Data => 32,
    }
}

/// The byte that identifies the region of `kind`.
pub open spec fn kind_ident(kind: BlockKind) -> u8 {
    match kind {
        BlockKind::Header => 1,
        BlockKind::Title => 2,
        BlockKind::Data => 3,
    }
}

/// The offset at which the region of `kind` starts.
pub open spec fn region_start(kind: BlockKind) -> int {
    match kind {
        BlockKind::Header => 32,
        BlockKind::Title => 4144,
        BlockKind::Data => 8256,
    }
}

/// The offset behind the last byte of the region of `kind`.
pub open spec fn region_end(kind: BlockKind) -> int {
    match kind {
        BlockKind::Header => 4144,
        BlockKind::Title => 8256,
        BlockKind::Data => 12368,
    }
}

/// The offset of block number `s` of `kind`.
pub open spec fn block_addr(kind: BlockKind, s: int) -> int {
    match kind {
        BlockKind::Header => 48 + 32 * s,
        BlockKind::Title => 4160 + 32 * s,
        BlockKind::Data => 8272 + 128 * s,
    }
}

/// The bytes that a store needs to hold all four regions.
pub open spec fn total_size() -> int {
    12368
}

/// The offsets above are the running sums of the regions' sizes, in the order
/// main, header, title, data; the first block of a region lies directly
/// behind the region's header; and the blocks of a region follow one another
/// without gaps up to the region's end.
pub proof fn lemma_geometry()
    ensures
        region_start(BlockKind::Header) == region_size::<BlockKindMain>(),
        region_start(BlockKind::Title) == region_start(BlockKind::Header) + region_size::<
            BlockKindHeader,
        >(),
        region_start(BlockKind::Data) == region_start(BlockKind::Title) + region_size::<
            BlockKindTitle,
        >(),
        total_size() == region_start(BlockKind::Data) + region_size::<BlockKindData>(),
        block_addr(BlockKind::Header, 0) == region_start(BlockKind::Header)
            + BlockKindHeader::spec_header_size(),
        block_addr(BlockKind::Title, 0) == region_start(BlockKind::Title)
            + BlockKindTitle::spec_header_size(),
        block_addr(BlockKind::Data, 0) == region_start(BlockKind::Data)
            + BlockKindData::spec_header_size(),
        block_size_of(BlockKind::Header) == BlockKindHeader::spec_block_size(),
        block_size_of(BlockKind::Title) == BlockKindTitle::spec_block_size(),
        block_size_of(BlockKind::Data) == BlockKindData::spec_block_size(),
        block_count_of(BlockKind::Header) == BlockKindHeader::spec_block_count(),
        block_count_of(BlockKind::Title) == BlockKindTitle::spec_block_count(),
        block_count_of(BlockKind::Data) == BlockKindData::spec_block_count(),
        forall|kind: BlockKind|
            #[trigger] block_addr(kind, block_count_of(kind)) == region_end(kind),
{
}

/// The payload of a block that has not been handed out yet.
pub open spec fn free_payload(kind: BlockKind) -> Seq<u8> {
    match kind {
        BlockKind::Header => (FileHeader { start_title_block: 0, start_data_block: 0 }).encoding(),
        BlockKind::Title => zero_padded(Seq::empty(), 16),
        BlockKind::Data => zero_padded(Seq::empty(), 112),
    }
}

/// The offset of block number `s` of `kind` as a link: `0` where there is no
/// such block.
pub open spec fn link_to(kind: BlockKind, s: int) -> u64 {
    if 0 <= s < block_count_of(kind) {
        block_addr(kind, s) as u64
    } else {
        0
    }
}

/// The bytes of block number `s` of `kind` as formatting leaves it: linked to
/// its neighbours in address order, with an empty payload.
pub open spec fn free_block(kind: BlockKind, s: int) -> Seq<u8> {
    spec_u64_to_le_bytes(link_to(kind, s - 1)) + spec_u64_to_le_bytes(link_to(kind, s + 1))
        + free_payload(kind)
}

/// The main record of a store that holds no file.
pub open spec fn fresh_main() -> BlockKindMain {
    BlockKindMain {
        free_header_ptr: block_addr(BlockKind::Header, 0) as u64,
        free_title_ptr: block_addr(BlockKind::Title, 0) as u64,
        free_data_ptr: block_addr(BlockKind::Data, 0) as u64,
        first_header_ptr: 0,
    }
}

/// The region of `kind` in `d` is as formatting leaves it: its header names
/// the kind, and every block is free and linked to its neighbours.
pub open spec fn region_formatted(d: Seq<u8>, kind: BlockKind) -> bool {
    &&& read_at(d, region_start(kind), 16) == Some(kind_header(kind_ident(kind), 16))
    &&& forall|s: int|
        0 <= s < block_count_of(kind) ==> read_at(
            d,
            #[trigger] block_addr(kind, s),
            block_size_of(kind),
        ) == Some(free_block(kind, s))
}

/// The first `total_size()` bytes of `d` are a freshly formatted file system.
pub open spec fn is_formatted(d: Seq<u8>) -> bool {
    &&& d.len() >= total_size()
    &&& read_at(d, 0, 32) == Some(fresh_main().encoding())
    &&& region_formatted(d, BlockKind::Header)
    &&& region_formatted(d, BlockKind::Title)
    &&& region_formatted(d, BlockKind::Data)
}

/// The error, if any, with which a store of `size` bytes is refused: the
/// first region, in the order main, header, title, data, that does not fit;
/// or a size that this machine cannot address.
pub open spec fn sizing_error(size: u64) -> Option<InitializationError> {
    if size < region_start(BlockKind::Header) {
        Some(InitializationError::TooSmallForMainSuperBlock)
    } else if size < region_start(BlockKind::Title) {
        Some(InitializationError::TooSmallForHeaderSuperBlock)
    } else if size < region_start(BlockKind::Data) {
        Some(InitializationError::TooSmallForTitleSuperBlock)
    } else if size < total_size() {
        Some(InitializationError::TooSmallForDataSuperBlock)
    } else if size > usize::MAX {
        Some(InitializationError::IO(IoError::InvalidInput))
    } else {
        None
    }
}

/// `d2` has the length of `d1` and differs from it only between `lo` and `hi`.
pub open spec fn same_outside(d1: Seq<u8>, d2: Seq<u8>, lo: int, hi: int) -> bool {
    &&& d1.len() == d2.len()
    &&& forall|j: int| 0 <= j < d1.len() && !(lo <= j < hi) ==> d1[j] == d2[j]
}

/// The main record of `d`, where `d` is long enough to hold one.
pub open spec fn main_of(d: Seq<u8>) -> Option<BlockKindMain> {
    match read_at(d, 0, 32) {
        Some(b) => Some(BlockKindMain::decoding(b)),
        None => None,
    }
}

/// The header block at offset `a` of `d`, where `d` reaches that far.
pub open spec fn header_block_at(d: Seq<u8>, a: int) -> Option<Block<FileHeader>> {
    match read_at(d, a, 32) {
        Some(b) => Some(Block::<FileHeader>::decoding(b)),
        None => None,
    }
}

/// The head of the free chain of `kind` in the main record `m`.
pub open spec fn free_ptr(m: BlockKindMain, kind: BlockKind) -> u64 {
    match kind {
        BlockKind::Header => m.free_header_ptr,
        BlockKind::Title => m.free_title_ptr,
        BlockKind::Data => m.free_data_ptr,
    }
}

/// The main record `m` with the head of the free chain of `kind` moved to `next`.
pub open spec fn with_free_ptr(m: BlockKindMain, kind: BlockKind, next: u64) -> BlockKindMain {
    match kind {
        BlockKind::Header => BlockKindMain { free_header_ptr: next, ..m },
        BlockKind::Title => BlockKindMain { free_title_ptr: next, ..m },
        BlockKind::Data => BlockKindMain { free_data_ptr: next, ..m },
    }
}


/// `n` zero bytes.
pub open spec fn zeros(n: nat) -> Seq<u8> {
    Seq::new(n, |i: int| 0u8)
}

/// A range that lies outside the part in which two stores differ reads the
/// same from both.
pub(crate) proof fn lemma_same_outside_read(d1: Seq<u8>, d2: Seq<u8>, lo: int, hi: int, a: int, n: int)
    requires
        same_outside(d1, d2, lo, hi),
        0 <= a,
        0 <= n,
        a + n <= d1.len(),
        a + n <= lo || hi <= a,
    ensures
        read_at(d2, a, n) == read_at(d1, a, n),
{
    assert(d2.subrange(a, a + n) =~= d1.subrange(a, a + n));
}

/// A formatted region stays formatted while the store changes only outside it.
pub(crate) proof fn lemma_region_kept(d1: Seq<u8>, d2: Seq<u8>, lo: int, hi: int, kind: BlockKind)
    requires
        same_outside(d1, d2, lo, hi),
        d1.len() >= total_size(),
        region_formatted(d1, kind),
        region_end(kind) <= lo || hi <= region_start(kind),
    ensures
        region_formatted(d2, kind),
{
    lemma_geometry();
    lemma_same_outside_read(d1, d2, lo, hi, region_start(kind), 16);
    assert forall|s: int| 0 <= s < block_count_of(kind) implies read_at(
        d2,
        #[trigger] block_addr(kind, s),
        block_size_of(kind),
    ) == Some(free_block(kind, s)) by {
        lemma_same_outside_read(d1, d2, lo, hi, block_addr(kind, s), block_size_of(kind));
    }
}


/// What taking the first block off the free chain of `kind` gives, in a store
/// `d` with the main record `m`: the block's offset and its two links; or
/// why there is none.
pub open spec fn popped(d: Seq<u8>, m: BlockKindMain, kind: BlockKind) -> Result<
    PoppedBlock,
    FilesystemError,
> {
    let a = free_ptr(m, kind);
    if a == 0 {
        Err(FilesystemError::ExhaustedFreeList(kind))
    } else {
        match read_at(d, a as int, block_size_of(kind)) {
            None => Err(FilesystemError::IO(IoError::UnexpectedEof)),
            Some(b) => Ok(
                PoppedBlock {
                    addr: a,
                    prev_block: spec_u64_from_le_bytes(b.subrange(0, 8)),
                    next_block: spec_u64_from_le_bytes(b.subrange(8, 16)),
                },
            ),
        }
    }
}

/// The bytes of a block with the links of `p` and the payload `payload`,
/// padded with zeros to `width` bytes.
pub open spec fn filled_block(p: PoppedBlock, payload: Seq<u8>, width: nat) -> Seq<u8> {
    spec_u64_to_le_bytes(p.prev_block) + spec_u64_to_le_bytes(p.next_block) + zero_padded(
        payload,
        width,
    )
}

/// The bytes of the header block of a new file: it keeps the back link of
/// `h`, points on to `first`, the file that was newest before it, and names
/// the title block at `t` and the data block at `c`.
pub open spec fn header_block_bytes(h: PoppedBlock, first: u64, t: u64, c: u64) -> Seq<u8> {
    (Block {
        prev_block: h.prev_block,
        next_block: first,
        data: FileHeader { start_title_block: t, start_data_block: c },
    }).encoding()
}

/// The main record after a file has been put into the blocks `h`, `t`, `c`.
pub open spec fn main_after(h: PoppedBlock, t: PoppedBlock, c: PoppedBlock) -> BlockKindMain {
    BlockKindMain {
        free_header_ptr: h.next_block,
        free_title_ptr: t.next_block,
        free_data_ptr: c.next_block,
        first_header_ptr: h.addr,
    }
}

/// The store `d` after a file has been put into the blocks `h`, `t`, `c`:
/// title, data, header and main record are written in this order.
pub open spec fn with_file(
    d: Seq<u8>,
    m: BlockKindMain,
    h: PoppedBlock,
    t: PoppedBlock,
    c: PoppedBlock,
    name: Seq<u8>,
    content: Seq<u8>,
) -> Seq<u8> {
    let d1 = write_at(d, t.addr as int, filled_block(t, name, 16));
    let d2 = write_at(d1, c.addr as int, filled_block(c, content, 112));
    let d3 = write_at(
        d2,
        h.addr as int,
        header_block_bytes(h, m.first_header_ptr, t.addr, c.addr),
    );
    write_at(d3, 0, main_after(h, t, c).encoding())
}

/// What inserting a file makes of the store `d`: the new store, or the error
/// with which the file is refused. The name and the content are checked
/// first, then a header, a title and a data block are taken in this order.
pub open spec fn insert_image(d: Seq<u8>, name: Seq<u8>, content: Seq<u8>) -> Result<
    Seq<u8>,
    FilesystemError,
> {
    if name.len() > 16 {
        Err(FilesystemError::FileNameTooLarge)
    } else if content.len() > 112 {
        Err(FilesystemError::ContentTooLarge)
    } else {
        match main_of(d) {
            None => Err(FilesystemError::IO(IoError::UnexpectedEof)),
            Some(m) => match popped(d, m, BlockKind::Header) {
                Err(e) => Err(e),
                Ok(h) => match popped(d, m, BlockKind::Title) {
                    Err(e) => Err(e),
                    Ok(t) => match popped(d, m, BlockKind::Data) {
                        Err(e) => Err(e),
                        Ok(c) => Ok(with_file(d, m, h, t, c, name, content)),
                    },
                },
            },
        }
    }
}

/// The name in the title block at offset `a`: its payload without the zeros
/// at its end.
pub open spec fn name_at(d: Seq<u8>, a: u64) -> Result<Seq<u8>, IoError> {
    if a == 0 {
        Err(IoError::InvalidData)
    } else {
        match read_at(d, a as int, 32) {
            None => Err(IoError::UnexpectedEof),
            Some(b) => Ok(trimmed(b.subrange(16, 32))),
        }
    }
}

/// The content in the data block at offset `a`: its payload without the
/// zeros at its end.
pub open spec fn content_at(d: Seq<u8>, a: u64) -> Result<Seq<u8>, IoError> {
    if a == 0 {
        Err(IoError::InvalidData)
    } else {
        match read_at(d, a as int, 128) {
            None => Err(IoError::UnexpectedEof),
            Some(b) => Ok(trimmed(b.subrange(16, 128))),
        }
    }
}

/// The header blocks of the chain that starts at `ptr`, in the order of the
/// chain. A chain of more than `fuel` blocks is refused as malformed.
pub open spec fn chain_from(d: Seq<u8>, ptr: u64, fuel: nat) -> Result<
    Seq<Block<FileHeader>>,
    IoError,
>
    decreases fuel,
{
    if ptr == 0 {
        Ok(Seq::empty())
    } else if fuel == 0 {
        Err(IoError::InvalidData)
    } else {
        match header_block_at(d, ptr as int) {
            None => Err(IoError::UnexpectedEof),
            Some(b) => match chain_from(d, b.next_block, (fuel - 1) as nat) {
                Err(e) => Err(e),
                Ok(rest) => Ok(seq![b] + rest),
            },
        }
    }
}

/// The names of the files on the chain that starts at `ptr`, in the order of
/// the chain.
pub open spec fn names_from(d: Seq<u8>, ptr: u64, fuel: nat) -> Result<Seq<Seq<u8>>, IoError>
    decreases fuel,
{
    if ptr == 0 {
        Ok(Seq::empty())
    } else if fuel == 0 {
        Err(IoError::InvalidData)
    } else {
        match header_block_at(d, ptr as int) {
            None => Err(IoError::UnexpectedEof),
            Some(b) => match name_at(d, b.data.start_title_block) {
                Err(e) => Err(e),
                Ok(n) => match names_from(d, b.next_block, (fuel - 1) as nat) {
                    Err(e) => Err(e),
                    Ok(rest) => Ok(seq![n] + rest),
                },
            },
        }
    }
}

/// The first header block on the chain that starts at `ptr` whose file is
/// named `name`, if there is one.
pub open spec fn find_from(d: Seq<u8>, ptr: u64, fuel: nat, name: Seq<u8>) -> Result<
    Option<Block<FileHeader>>,
    IoError,
>
    decreases fuel,
{
    if ptr == 0 {
        Ok(None)
    } else if fuel == 0 {
        Err(IoError::InvalidData)
    } else {
        match header_block_at(d, ptr as int) {
            None => Err(IoError::UnexpectedEof),
            Some(b) => match name_at(d, b.data.start_title_block) {
                Err(e) => Err(e),
                Ok(n) => if n == name {
                    Ok(Some(b))
                } else {
                    find_from(d, b.next_block, (fuel - 1) as nat, name)
                },
            },
        }
    }
}

/// The number of links that a walk along the directory chain follows at most.
pub open spec fn chain_limit() -> nat {
    128
}

/// The header blocks of all files in `d`, newest first.
pub open spec fn directory(d: Seq<u8>) -> Result<Seq<Block<FileHeader>>, IoError> {
    match main_of(d) {
        None => Err(IoError::UnexpectedEof),
        Some(m) => chain_from(d, m.first_header_ptr, chain_limit()),
    }
}

/// The names of all files in `d`, newest first.
pub open spec fn file_names(d: Seq<u8>) -> Result<Seq<Seq<u8>>, IoError> {
    match main_of(d) {
        None => Err(IoError::UnexpectedEof),
        Some(m) => names_from(d, m.first_header_ptr, chain_limit()),
    }
}

/// The header block of the newest file in `d` that is named `name`.
pub open spec fn lookup(d: Seq<u8>, name: Seq<u8>) -> Result<Option<Block<FileHeader>>, IoError> {
    match main_of(d) {
        None => Err(IoError::UnexpectedEof),
        Some(m) => find_from(d, m.first_header_ptr, chain_limit(), name),
    }
}

/// The content of the newest file in `d` that is named `name`.
pub open spec fn file_content(d: Seq<u8>, name: Seq<u8>) -> Result<Seq<u8>, FilesystemError> {
    match lookup(d, name) {
        Err(e) => Err(FilesystemError::IO(e)),
        Ok(None) => Err(FilesystemError::NotFound),
        Ok(Some(b)) => match content_at(d, b.data.start_data_block) {
            Err(e) => Err(FilesystemError::IO(e)),
            Ok(c) => Ok(c),
        },
    }
}


/// Writing the free block number `i` of `kind` into a region whose header
/// and first `i` blocks are formatted leaves the header and the first
/// `i + 1` blocks formatted, and nothing changed outside the region.
pub(crate) proof fn lemma_free_block_written(
    orig: Seq<u8>,
    before: Seq<u8>,
    after: Seq<u8>,
    kind: BlockKind,
    i: int,
)
    requires
        0 <= i < block_count_of(kind),
        orig.len() >= total_size(),
        same_outside(orig, before, region_start(kind), region_end(kind)),
        after == write_at(before, block_addr(kind, i), free_block(kind, i)),
        free_block(kind, i).len() == block_size_of(kind),
        read_at(before, region_start(kind), 16) == Some(kind_header(kind_ident(kind), 16)),
        forall|s: int|
            0 <= s < i ==> read_at(before, #[trigger] block_addr(kind, s), block_size_of(kind))
                == Some(free_block(kind, s)),
    ensures
        same_outside(orig, after, region_start(kind), region_end(kind)),
        read_at(after, region_start(kind), 16) == Some(kind_header(kind_ident(kind), 16)),
        forall|s: int|
            0 <= s < i + 1 ==> read_at(after, #[trigger] block_addr(kind, s), block_size_of(kind))
                == Some(free_block(kind, s)),
{
    let bytes = free_block(kind, i);
    let a = block_addr(kind, i);
    lemma_write_read(before, a, bytes);
    lemma_write_frame(before, a, bytes, region_start(kind), 16);
    assert forall|s: int| 0 <= s < i + 1 implies read_at(
        after,
        #[trigger] block_addr(kind, s),
        block_size_of(kind),
    ) == Some(free_block(kind, s)) by {
        if s < i {
            lemma_write_frame(before, a, bytes, block_addr(kind, s), block_size_of(kind));
        }
    }
}

} // verus!
