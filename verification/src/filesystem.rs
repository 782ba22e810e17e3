//! The block-structured file system: formatting a store, inserting files,
//! listing and reading them.

pub use crate::errors::{FilesystemError, GenericError, InitializationError};
pub use crate::geometry::{
    kind_header, BlockAlign, BlockKind, BlockKindData, BlockKindHeader, BlockKindMain,
    BlockKindTitle,
};
pub use crate::records::{
    data_array, data_from, lemma_block_round_trip, lemma_data_decoding,
    lemma_file_data_round_trip, lemma_file_header_round_trip, lemma_file_title_round_trip,
    lemma_main_round_trip, lemma_title_decoding, pad_with_byte_size, title_array, title_from,
    zero_padded, Block, FileData, FileHeader, FileTitle, FromBytes, SuperBlock, ToBytes,
};
use crate::cursor::{lemma_write_read, read_at, write_at, Cursor, IoError};
use crate::image::{
    block_addr, block_count_of, block_size_of, chain_from, content_at, directory, file_content,
    file_names, find_from, free_block, free_payload, fresh_main, header_block_at,
    header_block_bytes, is_formatted, kind_ident, lemma_free_block_written, lemma_geometry,
    lemma_region_kept, lemma_same_outside_read, link_to, lookup, main_of, name_at, names_from,
    popped, region_end, region_formatted, region_start, same_outside, sizing_error, total_size,
    with_free_ptr, zeros, insert_image,
};
use crate::records::array_bytes;
use crate::text::{same_bytes, string_from_utf8, trim_zeros};
use vstd::bytes::{lemma_auto_spec_u64_to_from_le_bytes, spec_u64_to_le_bytes};
use vstd::prelude::*;
use vstd::utf8::{decode_utf8, encode_utf8, valid_utf8};

verus! {

/// A block that was taken off a free chain: where it lies, and the links
/// that it had in the chain.
#[derive(Debug, Clone, Copy, PartialEq, Eq, Structural)]
pub struct PoppedBlock {
    /// The offset of the block.
    pub addr: u64,
    /// The block before it in the chain, or `0`.
    pub prev_block: u64,
    /// The block behind it in the chain, or `0`.
    pub next_block: u64,
}

/// A vector of `n` zero bytes.
fn zero_bytes(n: usize) -> (r: Vec<u8>)
    ensures
        r@ == zeros(n as nat),
{
    let mut out: Vec<u8> = Vec::with_capacity(n);
    let mut i: usize = 0;
    while i < n
        invariant
            i <= n,
            out@ =~= zeros(i as nat),
        decreases n - i,
    {
        out.push(0u8);
        i += 1;
    }
    out
}

/// A file system in a byte store, which it owns.
#[derive(Debug)]
pub struct Filesystem {
    inner: Cursor,
}

impl View for Filesystem {
    type V = Seq<u8>;

    closed spec fn view(&self) -> Seq<u8> {
        self.inner@
    }
}

impl Filesystem {
    /// A file system over the bytes of `inner`, which are taken as they are.
    pub fn new(inner: Cursor) -> (r: Self)
        ensures
            r@ == inner@,
    {
        Filesystem { inner }
    }

    /// Gives up the file system and returns the bytes of its store.
    pub fn into_bytes(self) -> (r: Vec<u8>)
        ensures
            r@ == self@,
    {
        self.inner.into_inner()
    }

    /// The bytes of the store.
    pub fn bytes(&self) -> (r: &Vec<u8>)
        ensures
            r@ == self@,
    {
        self.inner.get_ref()
    }

    /// Refuses a size that cannot hold the four regions; else fills the
    /// first `size` bytes of the store with zeros.
    fn clear_and_check_size(&mut self, size: u64) -> (r: Result<(), InitializationError>)
        ensures
            match sizing_error(size) {
                Some(e) => r == Err::<(), InitializationError>(e) && final(self)@ == old(self)@,
                None => r is Ok && final(self)@ == write_at(old(self)@, 0, zeros(size as nat)),
            },
    {
        proof {
            lemma_geometry();
        }
        let mut needed_size: u64 = BlockKindMain::super_block_size();
        if size < needed_size {
            return Err(InitializationError::TooSmallForMainSuperBlock);
        }
        needed_size += BlockKindHeader::super_block_size();
        if size < needed_size {
            return Err(InitializationError::TooSmallForHeaderSuperBlock);
        }
        needed_size += BlockKindTitle::super_block_size();
        if size < needed_size {
            return Err(InitializationError::TooSmallForTitleSuperBlock);
        }
        needed_size += BlockKindData::super_block_size();
        if size < needed_size {
            return Err(InitializationError::TooSmallForDataSuperBlock);
        }
        if size > usize::MAX as u64 {
            return Err(InitializationError::IO(IoError::InvalidInput));
        }
        let buf = zero_bytes(size as usize);
        self.inner.set_position(0);
        match self.inner.write_all(buf.as_slice()) {
            Ok(()) => Ok(()),
            Err(e) => Err(InitializationError::IO(e)),
        }
    }

    /// Writes the main record of a store that holds no file.
    fn init_main_header(&mut self) -> (r: Result<(), InitializationError>)
        ensures
            r is Ok,
            final(self)@ == write_at(old(self)@, 0, fresh_main().encoding()),
    {
        proof {
            lemma_geometry();
        }
        let header_sb_start: u64 = BlockKindMain::super_block_size();
        let title_sb_start: u64 = header_sb_start + BlockKindHeader::super_block_size();
        let data_sb_start: u64 = title_sb_start + BlockKindTitle::super_block_size();
        let main_header = BlockKindMain {
            free_header_ptr: header_sb_start + BlockKindHeader::header_size(),
            free_title_ptr: title_sb_start + BlockKindTitle::header_size(),
            free_data_ptr: data_sb_start + BlockKindData::header_size(),
            first_header_ptr: 0,
        };
        proof {
            lemma_main_round_trip(main_header);
        }
        self.inner.set_position(0);
        match main_header.to_bytes(&mut self.inner) {
            Ok(()) => Ok(()),
            Err(e) => Err(InitializationError::IO(e)),
        }
    }

    /// Writes a block of `kind` with the given links and an empty payload at
    /// the position of the store.
    fn write_free_block(&mut self, kind: BlockKind, prev_block: u64, next_block: u64) -> (r: Result<
        (),
        IoError,
    >)
        ensures
            match r {
                Ok(()) => old(self).inner.spec_position() + block_size_of(kind) <= usize::MAX
                    && final(self)@ == write_at(
                    old(self)@,
                    old(self).inner.spec_position() as int,
                    spec_u64_to_le_bytes(prev_block) + spec_u64_to_le_bytes(next_block)
                        + free_payload(kind),
                ) && final(self).inner.spec_position() == old(self).inner.spec_position()
                    + block_size_of(kind),
                Err(e) => e == IoError::InvalidInput && old(self).inner.spec_position()
                    + block_size_of(kind) > usize::MAX && final(self)@ == old(self)@,
            },
    {
        proof {
            lemma_auto_spec_u64_to_from_le_bytes();
        }
        let empty: Vec<u8> = Vec::new();
        assert(empty@ =~= Seq::empty());
        match kind {
            BlockKind::Header => {
                let block = Block {
                    prev_block,
                    next_block,
                    data: FileHeader { start_title_block: 0, start_data_block: 0 },
                };
                block.to_bytes(&mut self.inner)
            },
            BlockKind::Title => {
                let block = Block { prev_block, next_block, data: title_from(empty.as_slice()) };
                block.to_bytes(&mut self.inner)
            },
            BlockKind::Data => {
                let block = Block { prev_block, next_block, data: data_from(empty.as_slice()) };
                block.to_bytes(&mut self.inner)
            },
        }
    }

    /// Lays out the region of `kind`: its header, then its blocks as one
    /// chain in address order, each with an empty payload.
    fn initialize(&mut self, kind: BlockKind) -> (r: Result<(), InitializationError>)
        requires
            old(self)@.len() >= total_size(),
        ensures
            r is Ok,
            same_outside(old(self)@, final(self)@, region_start(kind), region_end(kind)),
            region_formatted(final(self)@, kind),
    {
        proof {
            lemma_geometry();
        }
        let header_sb_start: u64 = BlockKindMain::super_block_size();
        let title_sb_start: u64 = header_sb_start + BlockKindHeader::super_block_size();
        let data_sb_start: u64 = title_sb_start + BlockKindTitle::super_block_size();
        let start: u64 = match kind {
            BlockKind::Header => header_sb_start,
            BlockKind::Title => title_sb_start,
            BlockKind::Data => data_sb_start,
        };
        let header: Vec<u8> = match kind {
            BlockKind::Header => BlockKindHeader::initial_header(),
            BlockKind::Title => BlockKindTitle::initial_header(),
            BlockKind::Data => BlockKindData::initial_header(),
        };
        let count: u64 = match kind {
            BlockKind::Header => BlockKindHeader::block_count(),
            BlockKind::Title => BlockKindTitle::block_count(),
            BlockKind::Data => BlockKindData::block_count(),
        };
        let size: u64 = match kind {
            BlockKind::Header => BlockKindHeader::block_size(),
            BlockKind::Title => BlockKindTitle::block_size(),
            BlockKind::Data => BlockKindData::block_size(),
        };
        self.inner.set_position(start);
        let ghost before = self.inner@;
        match self.inner.write_all(header.as_slice()) {
            Ok(()) => {},
            Err(e) => {
                return Err(InitializationError::IO(e));
            },
        }
        proof {
            lemma_write_read(before, start as int, header@);
        }
        let mut prev_block: u64 = 0;
        let mut i: u64 = 0;
        while i < count
            invariant
                i <= count,
                count == block_count_of(kind),
                size == block_size_of(kind),
                old(self)@.len() >= total_size(),
                self.inner.spec_position() == block_addr(kind, i as int),
                prev_block == link_to(kind, i - 1),
                same_outside(old(self)@, self.inner@, region_start(kind), region_end(kind)),
                read_at(self.inner@, region_start(kind), 16) == Some(
                    kind_header(kind_ident(kind), 16),
                ),
                forall|s: int|
                    0 <= s < i ==> read_at(
                        self.inner@,
                        #[trigger] block_addr(kind, s),
                        block_size_of(kind),
                    ) == Some(free_block(kind, s)),
            decreases count - i,
        {
            let cursor: u64 = self.inner.position();
            let next_block: u64 = if i < count - 1 {
                cursor + size
            } else {
                0
            };
            let ghost before = self.inner@;
            let written = self.write_free_block(kind, prev_block, next_block);
            proof {
                lemma_auto_spec_u64_to_from_le_bytes();
            }
            match written {
                Ok(()) => {},
                Err(e) => {
                    return Err(InitializationError::IO(e));
                },
            }
            proof {
                lemma_free_block_written(old(self)@, before, self.inner@, kind, i as int);
            }
            prev_block = cursor;
            i += 1;
        }
        Ok(())
    }

    /// Lays out the header, title and data regions.
    fn init_superblocks(&mut self) -> (r: Result<(), InitializationError>)
        requires
            old(self)@.len() >= total_size(),
        ensures
            r is Ok,
            same_outside(old(self)@, final(self)@, region_start(BlockKind::Header), total_size()),
            region_formatted(final(self)@, BlockKind::Header),
            region_formatted(final(self)@, BlockKind::Title),
            region_formatted(final(self)@, BlockKind::Data),
    {
        self.initialize(BlockKind::Header)?;
        let ghost d1 = self.inner@;
        self.initialize(BlockKind::Title)?;
        let ghost d2 = self.inner@;
        self.initialize(BlockKind::Data)?;
        proof {
            let d3 = self.inner@;
            lemma_region_kept(d1, d2, 4144, 8256, BlockKind::Header);
            lemma_region_kept(d2, d3, 8256, 12368, BlockKind::Header);
            lemma_region_kept(d2, d3, 8256, 12368, BlockKind::Title);
        }
        Ok(())
    }

    /// Formats the store as an empty file system of `size` bytes: the first
    /// `size` bytes are cleared, and the main record and the three regions
    /// are written at their start. A size that cannot hold the regions is
    /// refused, and the store then stays as it was.
    pub fn init(&mut self, size: u64) -> (r: Result<(), FilesystemError>)
        ensures
            match sizing_error(size) {
                Some(e) => r == Err::<(), FilesystemError>(FilesystemError::InitializationError(e))
                    && final(self)@ == old(self)@,
                None => {
                    &&& r is Ok
                    &&& is_formatted(final(self)@)
                    &&& final(self)@.len() == if old(self)@.len() >= size {
                        old(self)@.len()
                    } else {
                        size as nat
                    }
                    &&& forall|j: int| total_size() <= j < size ==> final(self)@[j] == 0
                    &&& forall|j: int| size <= j < old(self)@.len() ==> final(self)@[j] == old(self)@[j]
                },
            },
    {
        match self.clear_and_check_size(size) {
            Ok(()) => {},
            Err(e) => {
                return Err(FilesystemError::InitializationError(e));
            },
        }
        let ghost d1 = self.inner@;
        match self.init_main_header() {
            Ok(()) => {},
            Err(e) => {
                return Err(FilesystemError::InitializationError(e));
            },
        }
        let ghost d2 = self.inner@;
        match self.init_superblocks() {
            Ok(()) => {},
            Err(e) => {
                return Err(FilesystemError::InitializationError(e));
            },
        }
        proof {
            let d3 = self.inner@;
            lemma_main_round_trip(fresh_main());
            lemma_write_read(d1, 0, fresh_main().encoding());
            lemma_same_outside_read(d2, d3, 32, 12368, 0, 32);
        }
        Ok(())
    }
}

impl Filesystem {
    /// Writes `record` at offset `index`.
    fn write_record<R: ToBytes>(&mut self, index: u64, record: &R) -> (r: Result<
        (),
        GenericError,
    >)
        ensures
            match r {
                Ok(()) => index + record.encoding().len() <= usize::MAX && final(self)@
                    == write_at(old(self)@, index as int, record.encoding()),
                Err(e) => e == GenericError::IO(IoError::InvalidInput) && index
                    + record.encoding().len() > usize::MAX && final(self)@ == old(self)@,
            },
    {
        self.inner.set_position(index);
        match record.to_bytes(&mut self.inner) {
            Ok(()) => Ok(()),
            Err(e) => Err(GenericError::IO(e)),
        }
    }

    /// Reads a record at offset `index`.
    fn read_record<R: FromBytes>(&mut self, index: u64) -> (r: Result<R, GenericError>)
        ensures
            final(self)@ == old(self)@,
            match read_at(old(self)@, index as int, R::width() as int) {
                Some(b) => r == Ok::<R, GenericError>(R::decoding(b)),
                None => r == Err::<R, GenericError>(GenericError::IO(IoError::UnexpectedEof)),
            },
    {
        self.inner.set_position(index);
        match R::from_bytes(&mut self.inner) {
            Ok(v) => Ok(v),
            Err(e) => Err(GenericError::IO(e)),
        }
    }

    /// Writes the main record at the start of the store.
    pub fn write_main_header(&mut self, main_header: BlockKindMain) -> (r: Result<(), GenericError>)
        ensures
            r is Ok,
            final(self)@ == write_at(old(self)@, 0, main_header.encoding()),
    {
        proof {
            lemma_main_round_trip(main_header);
        }
        self.write_record(0, &main_header)
    }

    /// Writes a header block at offset `index`. Fails, changing nothing,
    /// only where the block's end cannot be addressed on this machine.
    pub fn write_header_block(&mut self, index: u64, header_block: Block<FileHeader>) -> (r: Result<
        (),
        GenericError,
    >)
        ensures
            match r {
                Ok(()) => index + 32 <= usize::MAX && final(self)@ == write_at(
                    old(self)@,
                    index as int,
                    header_block.encoding(),
                ),
                Err(e) => e == GenericError::IO(IoError::InvalidInput) && index + 32 > usize::MAX
                    && final(self)@ == old(self)@,
            },
    {
        proof {
            lemma_file_header_round_trip(header_block.data);
            lemma_block_round_trip(header_block);
        }
        self.write_record(index, &header_block)
    }

    /// Writes a title block at offset `index`. Fails, changing nothing, only
    /// where the block's end cannot be addressed on this machine.
    pub fn write_title_block(&mut self, index: u64, title_block: Block<FileTitle>) -> (r: Result<
        (),
        GenericError,
    >)
        ensures
            match r {
                Ok(()) => index + 32 <= usize::MAX && final(self)@ == write_at(
                    old(self)@,
                    index as int,
                    title_block.encoding(),
                ),
                Err(e) => e == GenericError::IO(IoError::InvalidInput) && index + 32 > usize::MAX
                    && final(self)@ == old(self)@,
            },
    {
        proof {
            lemma_file_title_round_trip(title_block.data);
            lemma_block_round_trip(title_block);
        }
        self.write_record(index, &title_block)
    }

    /// Writes a data block at offset `index`. Fails, changing nothing, only
    /// where the block's end cannot be addressed on this machine.
    pub fn write_data_block(&mut self, index: u64, data_block: Block<FileData>) -> (r: Result<
        (),
        GenericError,
    >)
        ensures
            match r {
                Ok(()) => index + 128 <= usize::MAX && final(self)@ == write_at(
                    old(self)@,
                    index as int,
                    data_block.encoding(),
                ),
                Err(e) => e == GenericError::IO(IoError::InvalidInput) && index + 128 > usize::MAX
                    && final(self)@ == old(self)@,
            },
    {
        proof {
            lemma_file_data_round_trip(data_block.data);
            lemma_block_round_trip(data_block);
        }
        self.write_record(index, &data_block)
    }

    /// Reads the main record from the start of the store.
    pub fn read_main_header(&mut self) -> (r: Result<BlockKindMain, GenericError>)
        ensures
            final(self)@ == old(self)@,
            match main_of(old(self)@) {
                Some(m) => r == Ok::<BlockKindMain, GenericError>(m),
                None => r == Err::<BlockKindMain, GenericError>(
                    GenericError::IO(IoError::UnexpectedEof),
                ),
            },
    {
        self.read_record::<BlockKindMain>(0)
    }

    /// Reads the header block at offset `index`; there is none at offset `0`.
    pub fn read_header_block(&mut self, index: u64) -> (r: Result<
        Option<Block<FileHeader>>,
        GenericError,
    >)
        ensures
            final(self)@ == old(self)@,
            index == 0 ==> r == Ok::<Option<Block<FileHeader>>, GenericError>(None),
            index != 0 ==> match header_block_at(old(self)@, index as int) {
                Some(b) => r == Ok::<Option<Block<FileHeader>>, GenericError>(Some(b)),
                None => r == Err::<Option<Block<FileHeader>>, GenericError>(
                    GenericError::IO(IoError::UnexpectedEof),
                ),
            },
    {
        if index == 0 {
            return Ok(None);
        }
        match self.read_record::<Block<FileHeader>>(index) {
            Ok(b) => Ok(Some(b)),
            Err(e) => Err(e),
        }
    }

    /// Reads the title block at offset `index`; there is none at offset `0`.
    pub fn read_title_block(&mut self, index: u64) -> (r: Result<
        Option<Block<FileTitle>>,
        GenericError,
    >)
        ensures
            final(self)@ == old(self)@,
            index == 0 ==> r == Ok::<Option<Block<FileTitle>>, GenericError>(None),
            index != 0 ==> match read_at(old(self)@, index as int, 32) {
                Some(b) => r == Ok::<Option<Block<FileTitle>>, GenericError>(
                    Some(Block::<FileTitle>::decoding(b)),
                ) && Block::<FileTitle>::decoding(b).data.data@ == b.subrange(16, 32),
                None => r == Err::<Option<Block<FileTitle>>, GenericError>(
                    GenericError::IO(IoError::UnexpectedEof),
                ),
            },
    {
        if index == 0 {
            return Ok(None);
        }
        proof {
            if read_at(self@, index as int, 32) is Some {
                lemma_title_decoding(self@.subrange(index as int, index + 32).subrange(16, 32));
            }
        }
        match self.read_record::<Block<FileTitle>>(index) {
            Ok(b) => Ok(Some(b)),
            Err(e) => Err(e),
        }
    }

    /// Reads the data block at offset `index`; there is none at offset `0`.
    pub fn read_data_block(&mut self, index: u64) -> (r: Result<
        Option<Block<FileData>>,
        GenericError,
    >)
        ensures
            final(self)@ == old(self)@,
            index == 0 ==> r == Ok::<Option<Block<FileData>>, GenericError>(None),
            index != 0 ==> match read_at(old(self)@, index as int, 128) {
                Some(b) => r == Ok::<Option<Block<FileData>>, GenericError>(
                    Some(Block::<FileData>::decoding(b)),
                ) && Block::<FileData>::decoding(b).data.data@ == b.subrange(16, 128),
                None => r == Err::<Option<Block<FileData>>, GenericError>(
                    GenericError::IO(IoError::UnexpectedEof),
                ),
            },
    {
        if index == 0 {
            return Ok(None);
        }
        proof {
            if read_at(self@, index as int, 128) is Some {
                lemma_data_decoding(self@.subrange(index as int, index + 128).subrange(16, 128));
            }
        }
        match self.read_record::<Block<FileData>>(index) {
            Ok(b) => Ok(Some(b)),
            Err(e) => Err(e),
        }
    }

    /// Takes the first block off the free chain of `kind`: reads the block
    /// at the head that `main` holds, and moves that head on to the block's
    /// successor. The store is only read; `main` is the caller's copy of the
    /// main record, which the caller writes back.
    pub fn pop(&mut self, main: &mut BlockKindMain, kind: BlockKind) -> (r: Result<
        PoppedBlock,
        FilesystemError,
    >)
        ensures
            final(self)@ == old(self)@,
            r == popped(old(self)@, *old(main), kind),
            match r {
                Ok(p) => *final(main) == with_free_ptr(*old(main), kind, p.next_block),
                Err(_) => *final(main) == *old(main),
            },
    {
        let addr: u64 = match kind {
            BlockKind::Header => main.free_header_ptr,
            BlockKind::Title => main.free_title_ptr,
            BlockKind::Data => main.free_data_ptr,
        };
        if addr == 0 {
            return Err(FilesystemError::ExhaustedFreeList(kind));
        }
        let links: Result<(u64, u64), GenericError> = match kind {
            BlockKind::Header => match self.read_header_block(addr) {
                Ok(Some(b)) => Ok((b.prev_block, b.next_block)),
                Ok(None) => Err(GenericError::IO(IoError::UnexpectedEof)),
                Err(e) => Err(e),
            },
            BlockKind::Title => match self.read_title_block(addr) {
                Ok(Some(b)) => Ok((b.prev_block, b.next_block)),
                Ok(None) => Err(GenericError::IO(IoError::UnexpectedEof)),
                Err(e) => Err(e),
            },
            BlockKind::Data => match self.read_data_block(addr) {
                Ok(Some(b)) => Ok((b.prev_block, b.next_block)),
                Ok(None) => Err(GenericError::IO(IoError::UnexpectedEof)),
                Err(e) => Err(e),
            },
        };
        match links {
            Err(GenericError::IO(e)) => Err(FilesystemError::IO(e)),
            Ok((prev_block, next_block)) => {
                match kind {
                    BlockKind::Header => {
                        main.free_header_ptr = next_block;
                    },
                    BlockKind::Title => {
                        main.free_title_ptr = next_block;
                    },
                    BlockKind::Data => {
                        main.free_data_ptr = next_block;
                    },
                }
                Ok(PoppedBlock { addr, prev_block, next_block })
            },
        }
    }

    /// Puts a header block in front of the directory chain: the block is
    /// written at offset `addr` with the chain's old head as its successor,
    /// and `addr` becomes the head in `main`, the caller's copy of the main
    /// record. Fails, changing nothing, only where the block's end cannot be
    /// addressed on this machine.
    pub fn prepend(&mut self, main: &mut BlockKindMain, addr: u64, block: Block<FileHeader>) -> (r:
        Result<(), GenericError>)
        ensures
            match r {
                Ok(()) => addr + 32 <= usize::MAX && final(self)@ == write_at(
                    old(self)@,
                    addr as int,
                    (Block { next_block: old(main).first_header_ptr, ..block }).encoding(),
                ) && *final(main) == (BlockKindMain { first_header_ptr: addr, ..*old(main) }),
                Err(e) => e == GenericError::IO(IoError::InvalidInput) && addr + 32 > usize::MAX
                    && final(self)@ == old(self)@ && *final(main) == *old(main),
            },
    {
        let linked = Block {
            prev_block: block.prev_block,
            next_block: main.first_header_ptr,
            data: block.data,
        };
        match self.write_header_block(addr, linked) {
            Ok(()) => {
                main.first_header_ptr = addr;
                Ok(())
            },
            Err(e) => Err(e),
        }
    }

    /// Stores a file: its name in a title block, its content in a data
    /// block, and a header block that names both, in front of the directory
    /// chain. A name of more than 16 bytes, a content of more than 112 bytes
    /// and a free chain without a block are each refused with an error of
    /// their own, and the store then stays as it was.
    pub fn insert(&mut self, name: String, data: &[u8]) -> (r: Result<(), FilesystemError>)
        ensures
            match insert_image(old(self)@, encode_utf8(name@), data@) {
                Ok(d) => r is Ok && final(self)@ == d,
                Err(e) => r == Err::<(), FilesystemError>(e) && final(self)@ == old(self)@,
            },
    {
        let name_bytes = name.as_str().as_bytes();
        if name_bytes.len() > 16 {
            return Err(FilesystemError::FileNameTooLarge);
        }
        if data.len() > 112 {
            return Err(FilesystemError::ContentTooLarge);
        }
        let mut main_header = match self.read_main_header() {
            Ok(m) => m,
            Err(GenericError::IO(e)) => {
                return Err(FilesystemError::IO(e));
            },
        };
        let ghost d = self.inner@;
        let ghost m = main_header;
        proof {
            self.inner.lemma_addressable();
        }
        let header = match self.pop(&mut main_header, BlockKind::Header) {
            Ok(p) => p,
            Err(e) => {
                return Err(e);
            },
        };
        let title = match self.pop(&mut main_header, BlockKind::Title) {
            Ok(p) => p,
            Err(e) => {
                return Err(e);
            },
        };
        let content = match self.pop(&mut main_header, BlockKind::Data) {
            Ok(p) => p,
            Err(e) => {
                return Err(e);
            },
        };

        let title_block = Block {
            prev_block: title.prev_block,
            next_block: title.next_block,
            data: title_from(name_bytes),
        };
        let data_block = Block {
            prev_block: content.prev_block,
            next_block: content.next_block,
            data: data_from(data),
        };
        let header_block = Block {
            prev_block: header.prev_block,
            next_block: 0,
            data: FileHeader { start_title_block: title.addr, start_data_block: content.addr },
        };
        proof {
            lemma_write_read(d, title.addr as int, title_block.encoding());
        }
        match self.write_title_block(title.addr, title_block) {
            Ok(()) => {},
            Err(GenericError::IO(e)) => {
                return Err(FilesystemError::IO(e));
            },
        }
        proof {
            lemma_write_read(self.inner@, content.addr as int, data_block.encoding());
        }
        match self.write_data_block(content.addr, data_block) {
            Ok(()) => {},
            Err(GenericError::IO(e)) => {
                return Err(FilesystemError::IO(e));
            },
        }
        proof {
            lemma_write_read(
                self.inner@,
                header.addr as int,
                header_block_bytes(header, m.first_header_ptr, title.addr, content.addr),
            );
        }
        match self.prepend(&mut main_header, header.addr, header_block) {
            Ok(()) => {},
            Err(GenericError::IO(e)) => {
                return Err(FilesystemError::IO(e));
            },
        }
        match self.write_main_header(main_header) {
            Ok(()) => {},
            Err(GenericError::IO(e)) => {
                return Err(FilesystemError::IO(e));
            },
        }
        Ok(())
    }
}


/// The strings that `names` hold are the texts that the byte sequences
/// `raw` encode, one for one.
pub open spec fn decoded_as(names: Seq<String>, raw: Seq<Seq<u8>>) -> bool {
    &&& names.len() == raw.len()
    &&& forall|i: int| 0 <= i < raw.len() ==> (#[trigger] names[i])@ == decode_utf8(raw[i])
}

/// Every one of the byte sequences `raw` is well-formed UTF-8.
pub open spec fn all_valid_text(raw: Seq<Seq<u8>>) -> bool {
    forall|i: int| 0 <= i < raw.len() ==> valid_utf8(#[trigger] raw[i])
}

/// The vectors that `names` hold are the byte sequences `raw`, one for one.
pub open spec fn holds_bytes(names: Seq<Vec<u8>>, raw: Seq<Seq<u8>>) -> bool {
    &&& names.len() == raw.len()
    &&& forall|i: int| 0 <= i < raw.len() ==> (#[trigger] names[i])@ == raw[i]
}

impl Filesystem {
    /// The name in the title block at offset `index`, without its padding.
    fn read_name(&mut self, index: u64) -> (r: Result<Vec<u8>, IoError>)
        ensures
            final(self)@ == old(self)@,
            match name_at(old(self)@, index) {
                Ok(n) => r is Ok && r->Ok_0@ == n,
                Err(e) => r == Err::<Vec<u8>, IoError>(e),
            },
    {
        match self.read_title_block(index) {
            Ok(Some(b)) => {
                let bytes = array_bytes(&b.data.data);
                Ok(trim_zeros(bytes.as_slice()))
            },
            Ok(None) => Err(IoError::InvalidData),
            Err(GenericError::IO(e)) => Err(e),
        }
    }

    /// The content in the data block at offset `index`, without its padding.
    fn read_content(&mut self, index: u64) -> (r: Result<Vec<u8>, IoError>)
        ensures
            final(self)@ == old(self)@,
            match content_at(old(self)@, index) {
                Ok(n) => r is Ok && r->Ok_0@ == n,
                Err(e) => r == Err::<Vec<u8>, IoError>(e),
            },
    {
        match self.read_data_block(index) {
            Ok(Some(b)) => {
                let bytes = array_bytes(&b.data.data);
                Ok(trim_zeros(bytes.as_slice()))
            },
            Ok(None) => Err(IoError::InvalidData),
            Err(GenericError::IO(e)) => Err(e),
        }
    }

    /// The header blocks of all files, newest first. The walk along the
    /// chain ends with an error at a block that cannot be read, and after as
    /// many blocks as the header region holds.
    pub fn enumerate(&mut self) -> (r: Result<Vec<Block<FileHeader>>, FilesystemError>)
        ensures
            final(self)@ == old(self)@,
            match directory(old(self)@) {
                Ok(hs) => r is Ok && r->Ok_0@ == hs,
                Err(e) => r == Err::<Vec<Block<FileHeader>>, FilesystemError>(
                    FilesystemError::IO(e),
                ),
            },
    {
        let main_header = match self.read_main_header() {
            Ok(m) => m,
            Err(GenericError::IO(e)) => {
                return Err(FilesystemError::IO(e));
            },
        };
        let ghost d = self.inner@;
        let mut out: Vec<Block<FileHeader>> = Vec::new();
        let mut ptr: u64 = main_header.first_header_ptr;
        let mut fuel: u64 = BlockKindHeader::block_count();
        while ptr != 0
            invariant
                self.inner@ == d,
                d == old(self)@,
                main_of(d) == Some(main_header),
                directory(d) == match chain_from(d, ptr, fuel as nat) {
                    Ok(rest) => Ok::<Seq<Block<FileHeader>>, IoError>(out@ + rest),
                    Err(e) => Err::<Seq<Block<FileHeader>>, IoError>(e),
                },
            decreases fuel,
        {
            if fuel == 0 {
                return Err(FilesystemError::IO(IoError::InvalidData));
            }
            match self.read_header_block(ptr) {
                Ok(Some(b)) => {
                    proof {
                        let rest = chain_from(d, b.next_block, (fuel - 1) as nat);
                        if rest is Ok {
                            assert(out@.push(b) + rest->Ok_0 =~= out@ + (seq![b] + rest->Ok_0));
                        }
                    }
                    out.push(b);
                    ptr = b.next_block;
                    fuel -= 1;
                },
                Ok(None) => {
                    return Err(FilesystemError::IO(IoError::InvalidData));
                },
                Err(GenericError::IO(e)) => {
                    return Err(FilesystemError::IO(e));
                },
            }
        }
        assert(out@ + Seq::<Block<FileHeader>>::empty() =~= out@);
        Ok(out)
    }

    /// The names of all files as they are stored, newest first.
    pub fn list_raw(&mut self) -> (r: Result<Vec<Vec<u8>>, FilesystemError>)
        ensures
            final(self)@ == old(self)@,
            match file_names(old(self)@) {
                Ok(ns) => r is Ok && holds_bytes(r->Ok_0@, ns),
                Err(e) => r == Err::<Vec<Vec<u8>>, FilesystemError>(FilesystemError::IO(e)),
            },
    {
        let main_header = match self.read_main_header() {
            Ok(m) => m,
            Err(GenericError::IO(e)) => {
                return Err(FilesystemError::IO(e));
            },
        };
        let ghost d = self.inner@;
        let mut out: Vec<Vec<u8>> = Vec::new();
        let ghost mut done: Seq<Seq<u8>> = Seq::empty();
        let mut ptr: u64 = main_header.first_header_ptr;
        let mut fuel: u64 = BlockKindHeader::block_count();
        while ptr != 0
            invariant
                self.inner@ == d,
                d == old(self)@,
                main_of(d) == Some(main_header),
                holds_bytes(out@, done),
                file_names(d) == match names_from(d, ptr, fuel as nat) {
                    Ok(rest) => Ok::<Seq<Seq<u8>>, IoError>(done + rest),
                    Err(e) => Err::<Seq<Seq<u8>>, IoError>(e),
                },
            decreases fuel,
        {
            if fuel == 0 {
                return Err(FilesystemError::IO(IoError::InvalidData));
            }
            let block = match self.read_header_block(ptr) {
                Ok(Some(b)) => b,
                Ok(None) => {
                    return Err(FilesystemError::IO(IoError::InvalidData));
                },
                Err(GenericError::IO(e)) => {
                    return Err(FilesystemError::IO(e));
                },
            };
            let name = match self.read_name(block.data.start_title_block) {
                Ok(n) => n,
                Err(e) => {
                    return Err(FilesystemError::IO(e));
                },
            };
            proof {
                let rest = names_from(d, block.next_block, (fuel - 1) as nat);
                if rest is Ok {
                    assert(done.push(name@) + rest->Ok_0 =~= done + (seq![name@] + rest->Ok_0));
                }
                done = done.push(name@);
            }
            out.push(name);
            ptr = block.next_block;
            fuel -= 1;
        }
        assert(done + Seq::<Seq<u8>>::empty() =~= done);
        Ok(out)
    }

    /// The names of all files, newest first. A stored name that is not
    /// well-formed text is refused as invalid data.
    pub fn list(&mut self) -> (r: Result<Vec<String>, FilesystemError>)
        ensures
            final(self)@ == old(self)@,
            match file_names(old(self)@) {
                Ok(ns) => if all_valid_text(ns) {
                    r is Ok && decoded_as(r->Ok_0@, ns)
                } else {
                    r == Err::<Vec<String>, FilesystemError>(
                        FilesystemError::IO(IoError::InvalidData),
                    )
                },
                Err(e) => r == Err::<Vec<String>, FilesystemError>(FilesystemError::IO(e)),
            },
    {
        let mut raw = match self.list_raw() {
            Ok(v) => v,
            Err(e) => {
                return Err(e);
            },
        };
        let ghost ns = file_names(self.inner@)->Ok_0;
        let mut out: Vec<String> = Vec::new();
        let n: usize = raw.len();
        let mut i: usize = 0;
        while i < n
            invariant
                i <= n,
                n == ns.len(),
                raw@.len() == n,
                self.inner@ == old(self)@,
                file_names(old(self)@) == Ok::<Seq<Seq<u8>>, IoError>(ns),
                forall|j: int| i <= j < n ==> (#[trigger] raw@[j])@ == ns[j],
                out@.len() == i,
                forall|j: int| 0 <= j < i ==> valid_utf8(#[trigger] ns[j]),
                forall|j: int| 0 <= j < i ==> (#[trigger] out@[j])@ == decode_utf8(ns[j]),
            decreases n - i,
        {
            let mut bytes: Vec<u8> = Vec::new();
            bytes.append(&mut raw[i]);
            proof {
                assert(bytes@ =~= ns[i as int]);
            }
            match string_from_utf8(bytes) {
                Ok(s) => {
                    out.push(s);
                },
                Err(_) => {
                    assert(!valid_utf8(ns[i as int]));
                    return Err(FilesystemError::IO(IoError::InvalidData));
                },
            }
            i += 1;
        }
        Ok(out)
    }

    /// The header block of the newest file that is named `name`, if there is
    /// such a file.
    pub fn find_by_name(&mut self, name: &str) -> (r: Result<
        Option<Block<FileHeader>>,
        FilesystemError,
    >)
        ensures
            final(self)@ == old(self)@,
            match lookup(old(self)@, encode_utf8(name@)) {
                Ok(found) => r == Ok::<Option<Block<FileHeader>>, FilesystemError>(found),
                Err(e) => r == Err::<Option<Block<FileHeader>>, FilesystemError>(
                    FilesystemError::IO(e),
                ),
            },
    {
        let wanted = name.as_bytes();
        let main_header = match self.read_main_header() {
            Ok(m) => m,
            Err(GenericError::IO(e)) => {
                return Err(FilesystemError::IO(e));
            },
        };
        let ghost d = self.inner@;
        let mut ptr: u64 = main_header.first_header_ptr;
        let mut fuel: u64 = BlockKindHeader::block_count();
        while ptr != 0
            invariant
                self.inner@ == d,
                d == old(self)@,
                wanted@ == encode_utf8(name@),
                lookup(d, wanted@) == find_from(d, ptr, fuel as nat, wanted@),
            decreases fuel,
        {
            if fuel == 0 {
                return Err(FilesystemError::IO(IoError::InvalidData));
            }
            let block = match self.read_header_block(ptr) {
                Ok(Some(b)) => b,
                Ok(None) => {
                    return Err(FilesystemError::IO(IoError::InvalidData));
                },
                Err(GenericError::IO(e)) => {
                    return Err(FilesystemError::IO(e));
                },
            };
            let found = match self.read_name(block.data.start_title_block) {
                Ok(n) => n,
                Err(e) => {
                    return Err(FilesystemError::IO(e));
                },
            };
            if same_bytes(found.as_slice(), wanted) {
                return Ok(Some(block));
            }
            ptr = block.next_block;
            fuel -= 1;
        }
        Ok(None)
    }

    /// The content of the newest file that is named `name`, without the
    /// zeros that pad it in its block.
    pub fn read(&mut self, name: &str) -> (r: Result<Vec<u8>, FilesystemError>)
        ensures
            final(self)@ == old(self)@,
            match file_content(old(self)@, encode_utf8(name@)) {
                Ok(c) => r is Ok && r->Ok_0@ == c,
                Err(e) => r == Err::<Vec<u8>, FilesystemError>(e),
            },
    {
        let block = match self.find_by_name(name) {
            Ok(Some(b)) => b,
            Ok(None) => {
                return Err(FilesystemError::NotFound);
            },
            Err(e) => {
                return Err(e);
            },
        };
        match self.read_content(block.data.start_data_block) {
            Ok(c) => Ok(c),
            Err(e) => Err(FilesystemError::IO(e)),
        }
    }
}

} // verus!
