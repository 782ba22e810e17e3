//! The records of the store and their encoding in a fixed number of bytes,
//! with integers written least significant byte first.

use crate::cursor::{read_at, write_at, Cursor, IoError};
use crate::geometry::{BlockAlign, BlockKindMain};
use vstd::bytes::{
    lemma_auto_spec_u64_to_from_le_bytes, spec_u64_from_le_bytes, spec_u64_to_le_bytes,
    u64_from_le_bytes, u64_to_le_bytes,
};
use vstd::prelude::*;

verus! {

/// `vec` with the eight bytes of `size` in front of it, least significant
/// first.
pub fn pad_with_byte_size(vec: Vec<u8>, size: u64) -> (r: Vec<u8>)
    ensures
        r@ == spec_u64_to_le_bytes(size) + vec@,
{
    let mut out: Vec<u8> = u64_to_le_bytes(size);
    let mut rest = vec;
    out.append(&mut rest);
    out
}

/// A record that can be read from a byte store, in a fixed number of bytes.
pub trait FromBytes: Sized {
    /// The number of bytes that the record takes.
    spec fn width() -> nat;

    /// The record that `bytes` stand for, where there are `width()` of them.
    spec fn decoding(bytes: Seq<u8>) -> Self;

    /// Reads one record at the reader's position and moves past it. Fails
    /// where the store ends before the record does.
    fn from_bytes(reader: &mut Cursor) -> (r: Result<Self, IoError>)
        ensures
            final(reader)@ == old(reader)@,
            match r {
                Ok(v) => read_at(old(reader)@, old(reader).spec_position() as int, Self::width() as int)
                    is Some && v == Self::decoding(
                    old(reader)@.subrange(
                        old(reader).spec_position() as int,
                        old(reader).spec_position() + Self::width(),
                    ),
                ) && final(reader).spec_position() == old(reader).spec_position() + Self::width(),
                Err(e) => e == IoError::UnexpectedEof && read_at(
                    old(reader)@,
                    old(reader).spec_position() as int,
                    Self::width() as int,
                ) is None && final(reader).spec_position() == old(reader)@.len(),
            },
    ;
}

/// A record that can be written to a byte store.
pub trait ToBytes {
    /// The bytes that stand for the record.
    spec fn encoding(&self) -> Seq<u8>;

    /// Writes the record at the writer's position and moves past it. Fails,
    /// changing nothing, only where the end of the record cannot be addressed
    /// on this machine.
    fn to_bytes(&self, writer: &mut Cursor) -> (r: Result<(), IoError>)
        ensures
            match r {
                Ok(()) => old(writer).spec_position() + self.encoding().len() <= usize::MAX
                    && final(writer)@ == write_at(
                    old(writer)@,
                    old(writer).spec_position() as int,
                    self.encoding(),
                ) && final(writer).spec_position() == old(writer).spec_position()
                    + self.encoding().len(),
                Err(e) => e == IoError::InvalidInput && old(writer).spec_position()
                    + self.encoding().len() > usize::MAX && final(writer)@ == old(writer)@
                    && final(writer).spec_position() == old(writer).spec_position(),
            },
    ;
}

/// The bytes `buf` followed by the eight bytes of `x`, least significant first.
fn append_u64(buf: &mut Vec<u8>, x: u64)
    ensures
        final(buf)@ == old(buf)@ + spec_u64_to_le_bytes(x),
        final(buf)@.len() == old(buf)@.len() + 8,
{
    let mut b: Vec<u8> = u64_to_le_bytes(x);
    buf.append(&mut b);
}

/// Reads eight bytes at the reader's position as an integer, least
/// significant byte first.
fn read_u64(reader: &mut Cursor) -> (r: Result<u64, IoError>)
    ensures
        final(reader)@ == old(reader)@,
        match r {
            Ok(v) => read_at(old(reader)@, old(reader).spec_position() as int, 8) is Some && v
                == spec_u64_from_le_bytes(
                old(reader)@.subrange(
                    old(reader).spec_position() as int,
                    old(reader).spec_position() + 8,
                ),
            ) && final(reader).spec_position() == old(reader).spec_position() + 8,
            Err(e) => e == IoError::UnexpectedEof && read_at(
                old(reader)@,
                old(reader).spec_position() as int,
                8,
            ) is None && final(reader).spec_position() == old(reader)@.len(),
        },
{
    match reader.read_exact(8) {
        Ok(b) => Ok(u64_from_le_bytes(b.as_slice())),
        Err(e) => Err(e),
    }
}

impl ToBytes for BlockKindMain {
    open spec fn encoding(&self) -> Seq<u8> {
        spec_u64_to_le_bytes(self.free_header_ptr) + spec_u64_to_le_bytes(self.free_title_ptr)
            + spec_u64_to_le_bytes(self.free_data_ptr) + spec_u64_to_le_bytes(
            self.first_header_ptr,
        )
    }

    fn to_bytes(&self, writer: &mut Cursor) -> (r: Result<(), IoError>) {
        let mut buf: Vec<u8> = Vec::new();
        append_u64(&mut buf, self.free_header_ptr);
        append_u64(&mut buf, self.free_title_ptr);
        append_u64(&mut buf, self.free_data_ptr);
        append_u64(&mut buf, self.first_header_ptr);
        writer.write_all(buf.as_slice())
    }
}

impl FromBytes for BlockKindMain {
    open spec fn width() -> nat {
        32
    }

    open spec fn decoding(bytes: Seq<u8>) -> Self {
        BlockKindMain {
            free_header_ptr: spec_u64_from_le_bytes(bytes.subrange(0, 8)),
            free_title_ptr: spec_u64_from_le_bytes(bytes.subrange(8, 16)),
            free_data_ptr: spec_u64_from_le_bytes(bytes.subrange(16, 24)),
            first_header_ptr: spec_u64_from_le_bytes(bytes.subrange(24, 32)),
        }
    }

    fn from_bytes(reader: &mut Cursor) -> (r: Result<Self, IoError>) {
        let ghost d = reader@;
        let ghost p = reader.spec_position() as int;
        let free_header_ptr = read_u64(reader)?;
        let free_title_ptr = read_u64(reader)?;
        let free_data_ptr = read_u64(reader)?;
        let first_header_ptr = read_u64(reader)?;
        proof {
            let b = d.subrange(p, p + 32);
            assert(b.subrange(0, 8) =~= d.subrange(p, p + 8));
            assert(b.subrange(8, 16) =~= d.subrange(p + 8, p + 16));
            assert(b.subrange(16, 24) =~= d.subrange(p + 16, p + 24));
            assert(b.subrange(24, 32) =~= d.subrange(p + 24, p + 32));
        }
        Ok(BlockKindMain { free_header_ptr, free_title_ptr, free_data_ptr, first_header_ptr })
    }
}

/// The payload of a header block: where the file's title block and data
/// block start.
#[derive(Debug, Clone, Copy, PartialEq, Eq, Structural, Default)]
pub struct FileHeader {
    pub start_title_block: u64,
    pub start_data_block: u64,
}

impl ToBytes for FileHeader {
    open spec fn encoding(&self) -> Seq<u8> {
        spec_u64_to_le_bytes(self.start_title_block) + spec_u64_to_le_bytes(self.start_data_block)
    }

    fn to_bytes(&self, writer: &mut Cursor) -> (r: Result<(), IoError>) {
        let mut buf: Vec<u8> = Vec::new();
        append_u64(&mut buf, self.start_title_block);
        append_u64(&mut buf, self.start_data_block);
        writer.write_all(buf.as_slice())
    }
}

impl FromBytes for FileHeader {
    open spec fn width() -> nat {
        16
    }

    open spec fn decoding(bytes: Seq<u8>) -> Self {
        FileHeader {
            start_title_block: spec_u64_from_le_bytes(bytes.subrange(0, 8)),
            start_data_block: spec_u64_from_le_bytes(bytes.subrange(8, 16)),
        }
    }

    fn from_bytes(reader: &mut Cursor) -> (r: Result<Self, IoError>) {
        let ghost d = reader@;
        let ghost p = reader.spec_position() as int;
        let start_title_block = read_u64(reader)?;
        let start_data_block = read_u64(reader)?;
        proof {
            let b = d.subrange(p, p + 16);
            assert(b.subrange(0, 8) =~= d.subrange(p, p + 8));
            assert(b.subrange(8, 16) =~= d.subrange(p + 8, p + 16));
        }
        Ok(FileHeader { start_title_block, start_data_block })
    }
}

/// The payload of a title block: a file name, padded with zeros to 16 bytes.
#[derive(Debug, Clone, PartialEq, Eq, Default)]
pub struct FileTitle {
    pub data: [u8; 16],
}

/// The payload of a data block: a file's content, padded with zeros to 112
/// bytes.
#[derive(Debug, Clone, PartialEq, Eq)]
pub struct FileData {
    pub data: [u8; 112],
}

/// The array of 16 bytes that holds `bytes`.
pub open spec fn title_array(bytes: Seq<u8>) -> [u8; 16] {
    choose|a: [u8; 16]| a@ == bytes
}

/// The array of 112 bytes that holds `bytes`.
pub open spec fn data_array(bytes: Seq<u8>) -> [u8; 112] {
    choose|a: [u8; 112]| a@ == bytes
}

/// `bytes`, followed by as many zeros as it takes to fill `len` bytes.
pub open spec fn zero_padded(bytes: Seq<u8>, len: nat) -> Seq<u8> {
    Seq::new(len, |i: int| if i < bytes.len() { bytes[i] } else { 0u8 })
}

/// The 16 bytes of a title payload that hold `bytes` and then zeros.
pub fn title_from(bytes: &[u8]) -> (r: FileTitle)
    requires
        bytes@.len() <= 16,
    ensures
        r.data@ == zero_padded(bytes@, 16),
{
    let mut data: [u8; 16] = [0u8; 16];
    let mut i: usize = 0;
    while i < bytes.len()
        invariant
            i <= bytes@.len() <= 16,
            data@ =~= zero_padded(bytes@.subrange(0, i as int), 16),
        decreases bytes@.len() - i,
    {
        data[i] = bytes[i];
        i += 1;
    }
    assert(bytes@.subrange(0, i as int) =~= bytes@);
    FileTitle { data }
}

/// The 112 bytes of a data payload that hold `bytes` and then zeros.
pub fn data_from(bytes: &[u8]) -> (r: FileData)
    requires
        bytes@.len() <= 112,
    ensures
        r.data@ == zero_padded(bytes@, 112),
{
    let mut data: [u8; 112] = [0u8; 112];
    let mut i: usize = 0;
    while i < bytes.len()
        invariant
            i <= bytes@.len() <= 112,
            data@ =~= zero_padded(bytes@.subrange(0, i as int), 112),
        decreases bytes@.len() - i,
    {
        data[i] = bytes[i];
        i += 1;
    }
    assert(bytes@.subrange(0, i as int) =~= bytes@);
    FileData { data }
}

/// The bytes of `a` as a vector.
pub(crate) fn array_bytes<const N: usize>(a: &[u8; N]) -> (r: Vec<u8>)
    ensures
        r@ == a@,
{
    let mut out: Vec<u8> = Vec::with_capacity(N);
    let mut i: usize = 0;
    while i < N
        invariant
            i <= N,
            a@.len() == N,
            out@ =~= a@.subrange(0, i as int),
        decreases N - i,
    {
        out.push(a[i]);
        i += 1;
    }
    assert(a@.subrange(0, N as int) =~= a@);
    out
}

impl ToBytes for FileTitle {
    open spec fn encoding(&self) -> Seq<u8> {
        self.data@
    }

    fn to_bytes(&self, writer: &mut Cursor) -> (r: Result<(), IoError>) {
        let buf = array_bytes(&self.data);
        writer.write_all(buf.as_slice())
    }
}

impl FromBytes for FileTitle {
    open spec fn width() -> nat {
        16
    }

    open spec fn decoding(bytes: Seq<u8>) -> Self {
        FileTitle { data: title_array(bytes) }
    }

    fn from_bytes(reader: &mut Cursor) -> (r: Result<Self, IoError>) {
        let b = reader.read_exact(16)?;
        let t = title_from(b.as_slice());
        assert(t.data@ =~= b@);
        assert(t.data == title_array(b@));
        Ok(t)
    }
}

impl ToBytes for FileData {
    open spec fn encoding(&self) -> Seq<u8> {
        self.data@
    }

    fn to_bytes(&self, writer: &mut Cursor) -> (r: Result<(), IoError>) {
        let buf = array_bytes(&self.data);
        writer.write_all(buf.as_slice())
    }
}

impl FromBytes for FileData {
    open spec fn width() -> nat {
        112
    }

    open spec fn decoding(bytes: Seq<u8>) -> Self {
        FileData { data: data_array(bytes) }
    }

    fn from_bytes(reader: &mut Cursor) -> (r: Result<Self, IoError>) {
        let b = reader.read_exact(112)?;
        let t = data_from(b.as_slice());
        assert(t.data@ =~= b@);
        assert(t.data == data_array(b@));
        Ok(t)
    }
}

/// One block of a region: the two links of the chain that it stands in,
/// then its payload.
#[derive(Debug, Clone, Copy, PartialEq, Eq, Default)]
pub struct Block<T> where T: ToBytes + FromBytes {
    pub prev_block: u64,
    pub next_block: u64,
    pub data: T,
}

impl<T> ToBytes for Block<T> where T: ToBytes + FromBytes {
    open spec fn encoding(&self) -> Seq<u8> {
        spec_u64_to_le_bytes(self.prev_block) + spec_u64_to_le_bytes(self.next_block)
            + self.data.encoding()
    }

    fn to_bytes(&self, writer: &mut Cursor) -> (r: Result<(), IoError>) {
        let mut buf: Vec<u8> = Vec::new();
        append_u64(&mut buf, self.prev_block);
        append_u64(&mut buf, self.next_block);
        let ghost links = buf@;
        let mut scratch = Cursor::new(buf);
        scratch.set_position(16);
        match self.data.to_bytes(&mut scratch) {
            Ok(()) => {},
            Err(e) => {
                return Err(e);
            },
        }
        assert(scratch@ =~= links + self.data.encoding());
        writer.write_all(scratch.get_ref().as_slice())
    }
}

impl<T> FromBytes for Block<T> where T: ToBytes + FromBytes {
    open spec fn width() -> nat {
        16 + T::width()
    }

    open spec fn decoding(bytes: Seq<u8>) -> Self {
        Block {
            prev_block: spec_u64_from_le_bytes(bytes.subrange(0, 8)),
            next_block: spec_u64_from_le_bytes(bytes.subrange(8, 16)),
            data: T::decoding(bytes.subrange(16, bytes.len() as int)),
        }
    }

    fn from_bytes(reader: &mut Cursor) -> (r: Result<Self, IoError>) {
        let ghost d = reader@;
        let ghost p = reader.spec_position() as int;
        let prev_block = read_u64(reader)?;
        let next_block = read_u64(reader)?;
        let data = T::from_bytes(reader)?;
        proof {
            let b = d.subrange(p, p + 16 + T::width());
            assert(b.subrange(0, 8) =~= d.subrange(p, p + 8));
            assert(b.subrange(8, 16) =~= d.subrange(p + 8, p + 16));
            assert(b.subrange(16, b.len() as int) =~= d.subrange(p + 16, p + 16 + T::width()));
        }
        Ok(Block { prev_block, next_block, data })
    }
}

/// A region as a whole, seen through the blocks that it is made of.
#[derive(Debug, Clone, Copy, PartialEq, Eq, Default)]
pub struct SuperBlock<T> where T: BlockAlign + ToBytes + FromBytes {
    pub blocks: Block<T>,
}


/// Encoding the main record and decoding the result gives the record back.
pub proof fn lemma_main_round_trip(m: BlockKindMain)
    ensures
        m.encoding().len() == BlockKindMain::width(),
        BlockKindMain::decoding(m.encoding()) == m,
{
    lemma_auto_spec_u64_to_from_le_bytes();
    let e = m.encoding();
    assert(e.subrange(0, 8) =~= spec_u64_to_le_bytes(m.free_header_ptr));
    assert(e.subrange(8, 16) =~= spec_u64_to_le_bytes(m.free_title_ptr));
    assert(e.subrange(16, 24) =~= spec_u64_to_le_bytes(m.free_data_ptr));
    assert(e.subrange(24, 32) =~= spec_u64_to_le_bytes(m.first_header_ptr));
}

/// Encoding a header payload and decoding the result gives the payload back.
pub proof fn lemma_file_header_round_trip(h: FileHeader)
    ensures
        h.encoding().len() == FileHeader::width(),
        FileHeader::decoding(h.encoding()) == h,
{
    lemma_auto_spec_u64_to_from_le_bytes();
    let e = h.encoding();
    assert(e.subrange(0, 8) =~= spec_u64_to_le_bytes(h.start_title_block));
    assert(e.subrange(8, 16) =~= spec_u64_to_le_bytes(h.start_data_block));
}

/// Encoding a title payload and decoding the result gives the payload back.
pub proof fn lemma_file_title_round_trip(t: FileTitle)
    ensures
        t.encoding().len() == FileTitle::width(),
        FileTitle::decoding(t.encoding()) == t,
{
    assert(title_array(t.data@)@ == t.data@);
    assert(title_array(t.data@) =~= t.data);
}

/// Encoding a data payload and decoding the result gives the payload back.
pub proof fn lemma_file_data_round_trip(c: FileData)
    ensures
        c.encoding().len() == FileData::width(),
        FileData::decoding(c.encoding()) == c,
{
    assert(data_array(c.data@)@ == c.data@);
    assert(data_array(c.data@) =~= c.data);
}

/// Encoding a block and decoding the result gives the block back, for every
/// payload of which that holds.
pub proof fn lemma_block_round_trip<T: ToBytes + FromBytes>(b: Block<T>)
    requires
        b.data.encoding().len() == T::width(),
        T::decoding(b.data.encoding()) == b.data,
    ensures
        b.encoding().len() == Block::<T>::width(),
        Block::<T>::decoding(b.encoding()) == b,
{
    lemma_auto_spec_u64_to_from_le_bytes();
    let e = b.encoding();
    assert(e.subrange(0, 8) =~= spec_u64_to_le_bytes(b.prev_block));
    assert(e.subrange(8, 16) =~= spec_u64_to_le_bytes(b.next_block));
    assert(e.subrange(16, e.len() as int) =~= b.data.encoding());
}

/// An array of `N` bytes whose first `k` bytes are those of `bytes`.
proof fn lemma_array_prefix<const N: usize>(bytes: Seq<u8>, k: nat) -> (a: [u8; N])
    requires
        bytes.len() == N,
        k <= N,
    ensures
        a@.len() == N,
        forall|i: int| 0 <= i < k ==> a@[i] == bytes[i],
    decreases k,
{
    if k == 0 {
        vstd::array::spec_array_fill_for_copy_type::<u8, N>(0u8)
    } else {
        let a0 = lemma_array_prefix::<N>(bytes, (k - 1) as nat);
        vstd::array::spec_array_update(a0, k - 1, bytes[k - 1])
    }
}

/// A title payload that is decoded from 16 bytes holds those bytes.
pub proof fn lemma_title_decoding(bytes: Seq<u8>)
    requires
        bytes.len() == 16,
    ensures
        FileTitle::decoding(bytes).data@ == bytes,
{
    let a = lemma_array_prefix::<16>(bytes, 16);
    assert(a@ =~= bytes);
}

/// A data payload that is decoded from 112 bytes holds those bytes.
pub proof fn lemma_data_decoding(bytes: Seq<u8>)
    requires
        bytes.len() == 112,
    ensures
        FileData::decoding(bytes).data@ == bytes,
{
    let a = lemma_array_prefix::<112>(bytes, 112);
    assert(a@ =~= bytes);
}

} // verus!
