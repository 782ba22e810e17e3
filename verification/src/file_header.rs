//! The entry of a file in a flat table of files: where its data lies, and its
//! name, in a record of variable length.

use crate::cursor::{read_at, write_at, Cursor, IoError};
use crate::text::string_from_utf8;
use vstd::bytes::{
    lemma_auto_spec_u16_to_from_le_bytes, spec_u16_from_le_bytes, spec_u16_to_le_bytes,
    u16_from_le_bytes, u16_to_le_bytes,
};
use vstd::prelude::*;
use vstd::utf8::{decode_utf8, encode_utf8, valid_utf8};

verus! {

/// Why an entry could not be read.
#[derive(Debug, Clone, Copy, PartialEq, Eq, Structural)]
pub enum FileHeaderError {
    /// The store ended before the address of the data did.
    DataAddress(IoError),
    /// The store ended before the length of the data did.
    DataLength(IoError),
    /// The store ended before the name did.
    FileName(IoError),
    /// The name is not well-formed UTF-8.
    InvalidUTF8,
}

impl FileHeaderError {
    /// What went wrong, in words, as a sequence of characters.
    pub open spec fn message_text(&self) -> Seq<char> {
        match *self {
            FileHeaderError::DataAddress(_) => "Could not read data address"@,
            FileHeaderError::DataLength(_) => "Could not read data length"@,
            FileHeaderError::FileName(_) => "Could not read file name"@,
            FileHeaderError::InvalidUTF8 => "invalid utf-8 sequence"@,
        }
    }

    /// What went wrong, in words.
    pub fn message(&self) -> (r: String)
        ensures
            r@ == self.message_text(),
    {
        match self {
            FileHeaderError::DataAddress(_) => "Could not read data address".to_owned(),
            FileHeaderError::DataLength(_) => "Could not read data length".to_owned(),
            FileHeaderError::FileName(_) => "Could not read file name".to_owned(),
            FileHeaderError::InvalidUTF8 => "invalid utf-8 sequence".to_owned(),
        }
    }
}

/// The fields of an entry as they are read from a store.
pub struct EntryFields {
    pub data_addr: u16,
    pub data_len: u16,
    pub name: Seq<char>,
}

/// The bytes that stand for an entry: address and length of the data, each
/// as two bytes, least significant first; the length of the name in one
/// byte; the bytes of the name.
pub open spec fn entry_encoding(data_addr: u16, data_len: u16, name: Seq<char>) -> Seq<u8> {
    spec_u16_to_le_bytes(data_addr) + spec_u16_to_le_bytes(data_len) + seq![
        encode_utf8(name).len() as u8,
    ] + encode_utf8(name)
}

/// The number of bytes that the entry at offset `pos` of `d` takes, where
/// its fixed part can be read.
pub open spec fn entry_len(d: Seq<u8>, pos: int) -> int {
    5 + d[pos + 4]
}

/// The entry at offset `pos` of `d`, or why there is none.
pub open spec fn entry_at(d: Seq<u8>, pos: int) -> Result<EntryFields, FileHeaderError> {
    if read_at(d, pos, 2) is None {
        Err(FileHeaderError::DataAddress(IoError::UnexpectedEof))
    } else if read_at(d, pos + 2, 2) is None {
        Err(FileHeaderError::DataLength(IoError::UnexpectedEof))
    } else if read_at(d, pos + 4, 1) is None {
        Err(FileHeaderError::FileName(IoError::UnexpectedEof))
    } else if read_at(d, pos + 5, d[pos + 4] as int) is None {
        Err(FileHeaderError::FileName(IoError::UnexpectedEof))
    } else if !valid_utf8(d.subrange(pos + 5, pos + entry_len(d, pos))) {
        Err(FileHeaderError::InvalidUTF8)
    } else {
        Ok(
            EntryFields {
                data_addr: spec_u16_from_le_bytes(d.subrange(pos, pos + 2)),
                data_len: spec_u16_from_le_bytes(d.subrange(pos + 2, pos + 4)),
                name: decode_utf8(d.subrange(pos + 5, pos + entry_len(d, pos))),
            },
        )
    }
}

/// Where a reader stands after it has tried to read the entry at offset
/// `pos`: behind the entry, or behind what it read of a name that is no text,
/// or at the end of a store that is too short.
pub open spec fn position_after_entry(d: Seq<u8>, pos: int) -> int {
    match entry_at(d, pos) {
        Ok(_) => pos + entry_len(d, pos),
        Err(FileHeaderError::InvalidUTF8) => pos + entry_len(d, pos),
        Err(_) => d.len() as int,
    }
}

/// Reads the fields of one entry at the reader's position.
pub fn read_entry(reader: &mut Cursor) -> (r: Result<(u16, u16, String), FileHeaderError>)
    ensures
        final(reader)@ == old(reader)@,
        final(reader).spec_position() == position_after_entry(
            old(reader)@,
            old(reader).spec_position() as int,
        ),
        match entry_at(old(reader)@, old(reader).spec_position() as int) {
            Ok(f) => r is Ok && r->Ok_0.0 == f.data_addr && r->Ok_0.1 == f.data_len
                && r->Ok_0.2@ == f.name,
            Err(e) => r == Err::<(u16, u16, String), FileHeaderError>(e),
        },
{
    let ghost d = reader@;
    let ghost p = reader.spec_position() as int;
    let data_addr = match reader.read_exact(2) {
        Ok(b) => u16_from_le_bytes(b.as_slice()),
        Err(e) => {
            return Err(FileHeaderError::DataAddress(e));
        },
    };
    let data_len = match reader.read_exact(2) {
        Ok(b) => u16_from_le_bytes(b.as_slice()),
        Err(e) => {
            return Err(FileHeaderError::DataLength(e));
        },
    };
    let name_len: u8 = match reader.read_exact(1) {
        Ok(b) => b[0],
        Err(e) => {
            return Err(FileHeaderError::FileName(e));
        },
    };
    let name = match reader.read_exact(name_len as usize) {
        Ok(b) => b,
        Err(e) => {
            return Err(FileHeaderError::FileName(e));
        },
    };
    match string_from_utf8(name) {
        Ok(s) => Ok((data_addr, data_len, s)),
        Err(_) => Err(FileHeaderError::InvalidUTF8),
    }
}

/// The bytes that stand for an entry.
pub fn entry_bytes(data_addr: u16, data_len: u16, name: &str) -> (r: Vec<u8>)
    ensures
        r@ == entry_encoding(data_addr, data_len, name@),
{
    let name_buf = name.as_bytes();
    let name_len: u8 = #[verifier::truncate]
    (name_buf.len() as u8);
    let mut out: Vec<u8> = u16_to_le_bytes(data_addr);
    let mut len_bytes = u16_to_le_bytes(data_len);
    out.append(&mut len_bytes);
    out.push(name_len);
    let mut i: usize = 0;
    while i < name_buf.len()
        invariant
            i <= name_buf@.len(),
            name_buf@ == encode_utf8(name@),
            out@ =~= spec_u16_to_le_bytes(data_addr) + spec_u16_to_le_bytes(data_len) + seq![
                name_len,
            ] + name_buf@.subrange(0, i as int),
        decreases name_buf@.len() - i,
    {
        out.push(name_buf[i]);
        i += 1;
    }
    assert(name_buf@.subrange(0, i as int) =~= name_buf@);
    out
}

/// The entry of one file in the table.
#[derive(Debug, Clone, PartialEq, Eq, Hash, PartialOrd, Ord)]
pub struct FileHeader {
    /// Where the data starts, counted from the start of the data area.
    pub data_addr: u16,
    /// The number of bytes of data.
    pub data_len: u16,
    /// The name of the file.
    pub name: String,
    /// Where the entry lies in the table.
    pub addr: u16,
}

impl FileHeader {
    /// Reads the entry at the reader's position, which is known to lie at
    /// offset `addr` of the table.
    pub fn read(reader: &mut Cursor, addr: u16) -> (r: Result<Self, FileHeaderError>)
        ensures
            final(reader)@ == old(reader)@,
            final(reader).spec_position() == position_after_entry(
                old(reader)@,
                old(reader).spec_position() as int,
            ),
            match entry_at(old(reader)@, old(reader).spec_position() as int) {
                Ok(f) => r is Ok && r->Ok_0.data_addr == f.data_addr && r->Ok_0.data_len
                    == f.data_len && r->Ok_0.name@ == f.name && r->Ok_0.addr == addr,
                Err(e) => r == Err::<Self, FileHeaderError>(e),
            },
    {
        match read_entry(reader) {
            Ok((data_addr, data_len, name)) => Ok(FileHeader { data_addr, data_len, name, addr }),
            Err(e) => Err(e),
        }
    }

    /// The bytes that stand for the entry; where it lies in the table is not
    /// part of them.
    pub open spec fn encoding(&self) -> Seq<u8> {
        entry_encoding(self.data_addr, self.data_len, self.name@)
    }

    /// Writes the entry at the writer's position and moves past it. Fails,
    /// changing nothing, only where the end of the entry cannot be addressed
    /// on this machine.
    pub fn write(&mut self, writer: &mut Cursor) -> (r: Result<(), IoError>)
        ensures
            *final(self) == *old(self),
            match r {
                Ok(()) => old(writer).spec_position() + old(self).encoding().len() <= usize::MAX
                    && final(writer)@ == write_at(
                    old(writer)@,
                    old(writer).spec_position() as int,
                    old(self).encoding(),
                ) && final(writer).spec_position() == old(writer).spec_position() + old(self).encoding().len(),
                Err(e) => e == IoError::InvalidInput && old(writer).spec_position() + old(self).encoding().len() > usize::MAX && final(writer)@ == old(writer)@ && final(writer).spec_position() == old(writer).spec_position(),
            },
    {
        let buf = entry_bytes(self.data_addr, self.data_len, self.name.as_str());
        writer.write_all(buf.as_slice())
    }
}

/// An entry whose name takes at most 255 bytes is read back as it was
/// written.
pub proof fn lemma_entry_round_trip(d: Seq<u8>, pos: int, data_addr: u16, data_len: u16, name: Seq<char>)
    requires
        0 <= pos,
        encode_utf8(name).len() <= 255,
        read_at(d, pos, entry_encoding(data_addr, data_len, name).len() as int) == Some(
            entry_encoding(data_addr, data_len, name),
        ),
    ensures
        entry_at(d, pos) == Ok::<EntryFields, FileHeaderError>(
            EntryFields { data_addr, data_len, name },
        ),
        entry_len(d, pos) == 5 + encode_utf8(name).len(),
{
    lemma_auto_spec_u16_to_from_le_bytes();
    vstd::utf8::encode_utf8_valid_utf8(name);
    vstd::utf8::encode_utf8_decode_utf8(name);
    let e = entry_encoding(data_addr, data_len, name);
    let nb = encode_utf8(name);
    let n = nb.len() as int;
    assert(e.len() == 5 + n);
    let b = d.subrange(pos, pos + 5 + n);
    assert(b == e);
    assert(d[pos + 4] == b[4]);
    assert(e[4] == n as u8);
    assert(d.subrange(pos, pos + 2) =~= b.subrange(0, 2));
    assert(e.subrange(0, 2) =~= spec_u16_to_le_bytes(data_addr));
    assert(d.subrange(pos + 2, pos + 4) =~= b.subrange(2, 4));
    assert(e.subrange(2, 4) =~= spec_u16_to_le_bytes(data_len));
    assert(d.subrange(pos + 5, pos + 5 + n) =~= b.subrange(5, 5 + n));
    assert(e.subrange(5, 5 + n) =~= nb);
}

} // verus!
