//! A file system as one table: a record and ten entries at the start of the
//! store, and behind them the data of the files, one after another.

use crate::cursor::{
    lemma_write_frame, lemma_write_read, read_at, stream_len, write_at, Cursor, IoError,
};
use crate::file_header::{
    entry_at, entry_bytes, entry_encoding, entry_len, lemma_entry_round_trip, read_entry,
    EntryFields,
};
use crate::text::string_from_utf8;
use vstd::bytes::{
    lemma_auto_spec_u16_to_from_le_bytes, spec_u16_from_le_bytes, spec_u16_to_le_bytes,
    u16_from_le_bytes, u16_to_le_bytes,
};
use vstd::prelude::*;
use vstd::utf8::{decode_utf8, encode_utf8, valid_utf8};

verus! {

/// Why a file could not be created.
#[derive(Debug, Clone, Copy, PartialEq, Eq, Structural)]
pub enum FileSystemError {
    /// All entries of the table are in use.
    NoMoreSpaceInTable,
    /// The name takes more bytes than an entry has room for.
    FileNameTooLarge,
}

impl FileSystemError {
    /// What went wrong, in words, as a sequence of characters.
    pub open spec fn message_text(&self) -> Seq<char> {
        match *self {
            FileSystemError::NoMoreSpaceInTable => "No more space in the table"@,
            FileSystemError::FileNameTooLarge => "File name is larger than 16 bytes"@,
        }
    }

    /// What went wrong, in words.
    pub fn message(&self) -> (r: String)
        ensures
            r@ == self.message_text(),
    {
        match self {
            FileSystemError::NoMoreSpaceInTable => "No more space in the table".to_owned(),
            FileSystemError::FileNameTooLarge => "File name is larger than 16 bytes".to_owned(),
        }
    }
}

/// The record at the start of the store.
#[derive(Debug, Clone, Copy, PartialEq, Eq, Structural)]
pub struct FSHeader {
    /// The number of entries in use.
    pub headers: u8,
    /// Where the next data is put, counted from the start of the data area.
    pub free_addr: u16,
}

impl FSHeader {
    /// The three bytes that stand for the record.
    pub open spec fn encoding(&self) -> Seq<u8> {
        seq![self.headers] + spec_u16_to_le_bytes(self.free_addr)
    }

    /// The record that the three bytes `b` stand for.
    pub open spec fn decoding(b: Seq<u8>) -> FSHeader {
        FSHeader { headers: b[0], free_addr: spec_u16_from_le_bytes(b.subrange(1, 3)) }
    }

    /// Reads the record at the reader's position and moves past it. Where
    /// the store ends before the record does, the reader is left at the end
    /// of the store.
    pub fn read(reader: &mut Cursor) -> (r: Result<Self, IoError>)
        ensures
            final(reader)@ == old(reader)@,
            match read_at(old(reader)@, old(reader).spec_position() as int, 3) {
                Some(b) => r == Ok::<Self, IoError>(Self::decoding(b)) && final(reader).spec_position() == old(reader).spec_position() + 3,
                None => r == Err::<Self, IoError>(IoError::UnexpectedEof) && final(reader).spec_position() == old(reader)@.len(),
            },
    {
        let ghost d = reader@;
        let ghost p = reader.spec_position() as int;
        let headers: u8 = match reader.read_exact(1) {
            Ok(b) => b[0],
            Err(e) => {
                return Err(e);
            },
        };
        let free_addr: u16 = match reader.read_exact(2) {
            Ok(b) => u16_from_le_bytes(b.as_slice()),
            Err(e) => {
                return Err(e);
            },
        };
        proof {
            assert(d.subrange(p, p + 3).subrange(1, 3) =~= d.subrange(p + 1, p + 3));
        }
        Ok(FSHeader { headers, free_addr })
    }

    /// Writes the record at the writer's position and moves past it. Fails,
    /// changing nothing, only where the end of the record cannot be
    /// addressed on this machine.
    pub fn write(&mut self, writer: &mut Cursor) -> (r: Result<(), IoError>)
        ensures
            *final(self) == *old(self),
            match r {
                Ok(()) => old(writer).spec_position() + 3 <= usize::MAX && final(writer)@
                    == write_at(
                    old(writer)@,
                    old(writer).spec_position() as int,
                    old(self).encoding(),
                ) && final(writer).spec_position() == old(writer).spec_position() + 3,
                Err(e) => e == IoError::InvalidInput && old(writer).spec_position() + 3
                    > usize::MAX && final(writer)@ == old(writer)@ && final(writer).spec_position() == old(writer).spec_position(),
            },
    {
        proof {
            lemma_auto_spec_u16_to_from_le_bytes();
        }
        let mut buf: Vec<u8> = Vec::new();
        buf.push(self.headers);
        let mut b = u16_to_le_bytes(self.free_addr);
        buf.append(&mut b);
        writer.write_all(buf.as_slice())
    }
}

/// The record is read back as it was written.
pub proof fn lemma_fs_header_round_trip(h: FSHeader)
    ensures
        h.encoding().len() == 3,
        FSHeader::decoding(h.encoding()) == h,
{
    lemma_auto_spec_u16_to_from_le_bytes();
    assert(h.encoding().subrange(1, 3) =~= spec_u16_to_le_bytes(h.free_addr));
}

/// Why an entry of the table could not be read.
#[derive(Debug, Clone, Copy, PartialEq, Eq, Structural)]
pub enum FileHeaderError {
    /// The store ended before the address of the data did.
    DataAddress(IoError),
    /// The store ended before the length of the data did.
    DataLength(IoError),
    /// The store ended before the name did.
    FileName(IoError),
    /// The name is not well-formed UTF-8.
    InvalidUTF8,
}

impl FileHeaderError {
    /// What went wrong, in words, as a sequence of characters.
    pub open spec fn message_text(&self) -> Seq<char> {
        match *self {
            FileHeaderError::DataAddress(_) => "Could not read data address"@,
            FileHeaderError::DataLength(_) => "Could not read data length"@,
            FileHeaderError::FileName(_) => "Could not read file name"@,
            FileHeaderError::InvalidUTF8 => "invalid utf-8 sequence"@,
        }
    }

    /// What went wrong, in words.
    pub fn message(&self) -> (r: String)
        ensures
            r@ == self.message_text(),
    {
        match self {
            FileHeaderError::DataAddress(_) => "Could not read data address".to_owned(),
            FileHeaderError::DataLength(_) => "Could not read data length".to_owned(),
            FileHeaderError::FileName(_) => "Could not read file name".to_owned(),
            FileHeaderError::InvalidUTF8 => "invalid utf-8 sequence".to_owned(),
        }
    }
}

/// The error of this file for one of the module `file_header`.
pub open spec fn table_error(e: crate::file_header::FileHeaderError) -> FileHeaderError {
    match e {
        crate::file_header::FileHeaderError::DataAddress(io) => FileHeaderError::DataAddress(io),
        crate::file_header::FileHeaderError::DataLength(io) => FileHeaderError::DataLength(io),
        crate::file_header::FileHeaderError::FileName(io) => FileHeaderError::FileName(io),
        crate::file_header::FileHeaderError::InvalidUTF8 => FileHeaderError::InvalidUTF8,
    }
}

/// The entry of one file in the table: where its data lies, and its name.
#[derive(Debug, Clone, PartialEq, Eq, Hash, PartialOrd, Ord)]
pub struct FileHeader {
    /// Where the data starts, counted from the start of the data area.
    pub data_addr: u16,
    /// The number of bytes of data.
    pub data_len: u16,
    /// The name of the file.
    pub name: String,
}

impl FileHeader {
    /// The fields of the entry, with the name as a sequence of characters.
    pub open spec fn fields(&self) -> EntryFields {
        EntryFields { data_addr: self.data_addr, data_len: self.data_len, name: self.name@ }
    }

    /// The bytes that stand for the entry.
    pub open spec fn encoding(&self) -> Seq<u8> {
        entry_encoding(self.data_addr, self.data_len, self.name@)
    }

    /// Reads the entry at the reader's position.
    pub fn read(reader: &mut Cursor) -> (r: Result<Self, FileHeaderError>)
        ensures
            final(reader)@ == old(reader)@,
            final(reader).spec_position() == crate::file_header::position_after_entry(
                old(reader)@,
                old(reader).spec_position() as int,
            ),
            match entry_at(old(reader)@, old(reader).spec_position() as int) {
                Ok(f) => r is Ok && r->Ok_0.fields() == f,
                Err(e) => r == Err::<Self, FileHeaderError>(table_error(e)),
            },
    {
        match read_entry(reader) {
            Ok((data_addr, data_len, name)) => Ok(FileHeader { data_addr, data_len, name }),
            Err(crate::file_header::FileHeaderError::DataAddress(e)) => Err(
                FileHeaderError::DataAddress(e),
            ),
            Err(crate::file_header::FileHeaderError::DataLength(e)) => Err(
                FileHeaderError::DataLength(e),
            ),
            Err(crate::file_header::FileHeaderError::FileName(e)) => Err(
                FileHeaderError::FileName(e),
            ),
            Err(crate::file_header::FileHeaderError::InvalidUTF8) => Err(
                FileHeaderError::InvalidUTF8,
            ),
        }
    }

    /// Writes the entry at the writer's position and moves past it. Fails,
    /// changing nothing, only where the end of the entry cannot be addressed
    /// on this machine.
    pub fn write(&mut self, writer: &mut Cursor) -> (r: Result<(), IoError>)
        ensures
            *final(self) == *old(self),
            match r {
                Ok(()) => old(writer).spec_position() + old(self).encoding().len() <= usize::MAX
                    && final(writer)@ == write_at(
                    old(writer)@,
                    old(writer).spec_position() as int,
                    old(self).encoding(),
                ) && final(writer).spec_position() == old(writer).spec_position() + old(self).encoding().len(),
                Err(e) => e == IoError::InvalidInput && old(writer).spec_position() + old(self).encoding().len() > usize::MAX && final(writer)@ == old(writer)@ && final(writer).spec_position() == old(writer).spec_position(),
            },
    {
        let buf = entry_bytes(self.data_addr, self.data_len, self.name.as_str());
        writer.write_all(buf.as_slice())
    }
}


/// Why the data of a file could not be read.
#[derive(Debug, Clone, Copy, PartialEq, Eq, Structural)]
pub enum FileDataError {
    /// The store ended before the data did.
    IO(IoError),
    /// The data is not well-formed UTF-8.
    InvalidUTF8,
}

/// The offset of entry number `i` of the table.
pub open spec fn slot_addr(i: int) -> int {
    16 + 21 * i
}

/// The record at the start of the store `d`.
pub open spec fn fs_header_of(d: Seq<u8>) -> FSHeader {
    FSHeader::decoding(d.subrange(0, 3))
}

/// The entries of the table of `d` from number `i` on, or the error of the
/// first that cannot be read.
pub open spec fn entries_from(d: Seq<u8>, i: int) -> Result<Seq<EntryFields>, FileHeaderError>
    decreases 10 - i,
{
    if i < 0 || i >= 10 {
        Ok(Seq::empty())
    } else {
        match entry_at(d, slot_addr(i)) {
            Err(e) => Err(table_error(e)),
            Ok(f) => match entries_from(d, i + 1) {
                Err(e) => Err(e),
                Ok(rest) => Ok(seq![f] + rest),
            },
        }
    }
}

/// The number of the first entry from number `i` on that cannot be read, or
/// 10 where all can.
pub open spec fn first_unreadable(d: Seq<u8>, i: int) -> int
    decreases 10 - i,
{
    if i < 0 || i >= 10 {
        10
    } else if entry_at(d, slot_addr(i)) is Err {
        i
    } else {
        first_unreadable(d, i + 1)
    }
}

/// Where the store stands after its table was read: behind the last entry,
/// or where the attempt to read the first unreadable entry left it.
pub open spec fn position_after_scan(d: Seq<u8>) -> int {
    let k = first_unreadable(d, 0);
    crate::file_header::position_after_entry(d, slot_addr(if k < 10 { k } else { 9 }))
}

/// The number of the first entry from number `i` on that is named `name`.
pub open spec fn slot_named(entries: Seq<EntryFields>, name: Seq<char>, i: int) -> Option<int>
    decreases entries.len() - i,
{
    if i < 0 || i >= entries.len() {
        None
    } else if entries[i].name == name {
        Some(i)
    } else {
        slot_named(entries, name, i + 1)
    }
}

/// Each of the ten entries of the table of `d` can be read.
pub open spec fn table_readable(d: Seq<u8>) -> bool {
    forall|i: int| 0 <= i < 10 ==> (#[trigger] entry_at(d, slot_addr(i))) is Ok
}

/// The store `d` holds a table as this library writes it: the store is long
/// enough for the ten entries, each of which can be read and has a name of
/// at most 16 bytes, so that it does not reach into the next.
pub open spec fn table_ok(d: Seq<u8>) -> bool {
    &&& d.len() >= 226
    &&& forall|i: int|
        0 <= i < 10 ==> (#[trigger] entry_at(d, slot_addr(i))) is Ok && d[slot_addr(i) + 4] <= 16
}

/// The entries of a table that can be read.
pub open spec fn table_entries(d: Seq<u8>) -> Seq<EntryFields> {
    Seq::new(10, |i: int| entry_at(d, slot_addr(i))->Ok_0)
}

/// All entries of a table that can be read are read, in their order.
proof fn lemma_table_entries(d: Seq<u8>, i: int)
    requires
        table_readable(d),
        0 <= i <= 10,
    ensures
        entries_from(d, i) == Ok::<Seq<EntryFields>, FileHeaderError>(
            table_entries(d).subrange(i, 10),
        ),
    decreases 10 - i,
{
    if i < 10 {
        lemma_table_entries(d, i + 1);
        assert(entry_at(d, slot_addr(i)) is Ok);
        assert(seq![table_entries(d)[i]] + table_entries(d).subrange(i + 1, 10)
            =~= table_entries(d).subrange(i, 10));
    } else {
        assert(table_entries(d).subrange(10, 10) =~= Seq::empty());
    }
}

/// The number of the entry that a file named `name` is written to: the first
/// entry of that name, or else the first entry that is not in use.
pub open spec fn target_slot(d: Seq<u8>, name: Seq<char>) -> int {
    match slot_named(table_entries(d), name, 0) {
        Some(k) => k,
        None => fs_header_of(d).headers as int,
    }
}

/// The record at the start of the store after a file named `name` was
/// created whose entry gives `len` as the length of its data.
pub open spec fn fs_header_after(d: Seq<u8>, name: Seq<char>, len: u16) -> FSHeader {
    FSHeader {
        headers: if slot_named(table_entries(d), name, 0) is None {
            (fs_header_of(d).headers + 1) as u8
        } else {
            fs_header_of(d).headers
        },
        free_addr: (fs_header_of(d).free_addr + len) as u16,
    }
}

/// The length of `content` as an entry gives it: the number of its bytes,
/// of which an entry keeps the low 16 bits.
pub open spec fn entry_data_len(content: Seq<char>) -> u16 {
    encode_utf8(content).len() as u16
}

/// The store `d` after the file was created: its entry is written, then its
/// data behind the data of the files before it, then the record at the start.
pub open spec fn with_created(d: Seq<u8>, name: Seq<char>, content: Seq<char>) -> Seq<u8> {
    let h = fs_header_of(d);
    let d1 = write_at(
        d,
        slot_addr(target_slot(d, name)),
        entry_encoding(h.free_addr, entry_data_len(content), name),
    );
    let d2 = write_at(d1, 226 + h.free_addr, encode_utf8(content));
    write_at(d2, 0, fs_header_after(d, name, entry_data_len(content)).encoding())
}

/// What creating a file makes of the store `d`, whose table can be read: the
/// new store, or the error with which the file is refused.
pub open spec fn creation(d: Seq<u8>, name: Seq<char>, content: Seq<char>) -> Result<
    Seq<u8>,
    FileSystemError,
> {
    if encode_utf8(name).len() > 16 {
        Err(FileSystemError::FileNameTooLarge)
    } else if fs_header_of(d).headers >= 10 {
        Err(FileSystemError::NoMoreSpaceInTable)
    } else {
        Ok(with_created(d, name, content))
    }
}

/// Whether a file can be created in the store `d`: the table can be read;
/// and, where the file is not refused, the data area has room for its data,
/// which ends below the largest offset that an entry can hold and that this
/// machine can address.
pub open spec fn can_create(d: Seq<u8>, name: Seq<char>, content: Seq<char>) -> bool {
    &&& table_readable(d)
    &&& creation(d, name, content) is Ok ==> {
        &&& fs_header_of(d).free_addr + entry_data_len(content) <= u16::MAX
        &&& 226 + fs_header_of(d).free_addr + encode_utf8(content).len() <= usize::MAX
    }
}

/// The store `after` and the result `r` are what creating the file in the
/// store `d` gives: the new store and the file's entry, or the error and the
/// store as it was.
pub open spec fn is_creation(
    d: Seq<u8>,
    after: Seq<u8>,
    name: Seq<char>,
    content: Seq<char>,
    r: Result<FileHeader, FileSystemError>,
) -> bool {
    match creation(d, name, content) {
        Ok(d2) => r is Ok && after == d2 && r->Ok_0.fields() == (EntryFields {
            data_addr: fs_header_of(d).free_addr,
            data_len: entry_data_len(content),
            name,
        }),
        Err(e) => r == Err::<FileHeader, FileSystemError>(e) && after == d,
    }
}

/// A table of which all entries were read can be read.
proof fn lemma_scanned_is_readable(d: Seq<u8>, i: int)
    requires
        0 <= i <= 10,
        entries_from(d, i) is Ok,
    ensures
        forall|j: int| i <= j < 10 ==> (#[trigger] entry_at(d, slot_addr(j))) is Ok,
    decreases 10 - i,
{
    if i < 10 {
        lemma_scanned_is_readable(d, i + 1);
    }
}

/// The data of the file that the entry `f` describes, as text.
pub open spec fn data_of(d: Seq<u8>, f: EntryFields) -> Result<Seq<char>, FileDataError> {
    match read_at(d, 226 + f.data_addr, f.data_len as int) {
        None => Err(FileDataError::IO(IoError::UnexpectedEof)),
        Some(b) => if valid_utf8(b) {
            Ok(decode_utf8(b))
        } else {
            Err(FileDataError::InvalidUTF8)
        },
    }
}

/// A store of 226 zero bytes holds a table that can be read, in which every
/// entry has the empty name.
pub proof fn lemma_empty_table(d: Seq<u8>)
    requires
        d.len() >= 226,
        forall|j: int| 0 <= j < 226 ==> d[j] == 0,
    ensures
        table_ok(d),
        forall|i: int| 0 <= i < 10 ==> (#[trigger] table_entries(d)[i]).name == Seq::<char>::empty(),
{
    assert forall|i: int| 0 <= i < 10 implies (#[trigger] entry_at(d, slot_addr(i))) is Ok && d[slot_addr(
        i,
    ) + 4] <= 16 && entry_at(d, slot_addr(i))->Ok_0.name == Seq::<char>::empty() by {
        let p = slot_addr(i);
        assert(d[p + 4] == 0);
        assert(d.subrange(p + 5, p + 5) =~= Seq::<u8>::empty());
        assert(valid_utf8(Seq::<u8>::empty()));
        assert(decode_utf8(Seq::<u8>::empty()) =~= Seq::<char>::empty());
    }
    assert forall|i: int| 0 <= i < 10 implies (#[trigger] table_entries(d)[i]).name == Seq::<
        char,
    >::empty() by {
        assert(entry_at(d, slot_addr(i)) is Ok);
    }
}

/// What creating a file leaves in the store: a table as this library
/// writes it, in which the entry that was written describes the file and
/// every other entry is as before; and, where the length of the data fits
/// into an entry, the file's data, which is read back as the text that was
/// stored.
pub proof fn lemma_creation(d: Seq<u8>, name: Seq<char>, content: Seq<char>)
    requires
        table_ok(d),
        encode_utf8(name).len() <= 16,
        fs_header_of(d).headers < 10,
    ensures
        0 <= target_slot(d, name) < 10,
        table_ok(with_created(d, name, content)),
        fs_header_of(with_created(d, name, content)) == fs_header_after(
            d,
            name,
            entry_data_len(content),
        ),
        table_entries(with_created(d, name, content)) == table_entries(d).update(
            target_slot(d, name),
            EntryFields {
                data_addr: fs_header_of(d).free_addr,
                data_len: entry_data_len(content),
                name,
            },
        ),
        encode_utf8(content).len() <= u16::MAX ==> data_of(
            with_created(d, name, content),
            EntryFields {
                data_addr: fs_header_of(d).free_addr,
                data_len: entry_data_len(content),
                name,
            },
        ) == Ok::<Seq<char>, FileDataError>(content),
{
    lemma_auto_spec_u16_to_from_le_bytes();
    let h = fs_header_of(d);
    let len = encode_utf8(content).len() as int;
    let k = target_slot(d, name);
    lemma_slot_named_in_range(table_entries(d), name, 0);
    let e = entry_encoding(h.free_addr, entry_data_len(content), name);
    let n = encode_utf8(name).len() as int;
    assert(e.len() == 5 + n);
    let fh = fs_header_after(d, name, entry_data_len(content));
    lemma_fs_header_round_trip(fh);
    let d1 = write_at(d, slot_addr(k), e);
    let d2 = write_at(d1, 226 + h.free_addr, encode_utf8(content));
    let d3 = write_at(d2, 0, fh.encoding());
    assert(d3 == with_created(d, name, content));
    lemma_write_read(d, slot_addr(k), e);
    lemma_write_read(d1, 226 + h.free_addr, encode_utf8(content));
    lemma_write_read(d2, 0, fh.encoding());
    lemma_write_frame(d1, 226 + h.free_addr, encode_utf8(content), slot_addr(k), 5 + n);
    lemma_write_frame(d2, 0, fh.encoding(), slot_addr(k), 5 + n);
    lemma_write_frame(d2, 0, fh.encoding(), 226 + h.free_addr, len);
    lemma_entry_round_trip(d3, slot_addr(k), h.free_addr, entry_data_len(content), name);
    vstd::utf8::encode_utf8_valid_utf8(content);
    vstd::utf8::encode_utf8_decode_utf8(content);
    let written = EntryFields {
        data_addr: h.free_addr,
        data_len: entry_data_len(content),
        name,
    };
    assert forall|i: int| 0 <= i < 10 implies (#[trigger] entry_at(d3, slot_addr(i))) is Ok
        && d3[slot_addr(i) + 4] <= 16 && entry_at(d3, slot_addr(i))->Ok_0 == table_entries(
        d,
    ).update(k, written)[i] by {
        let p = slot_addr(i);
        if i != k {
            assert(entry_at(d, p) is Ok);
            let m = d[p + 4] as int;
            lemma_write_frame(d, slot_addr(k), e, p, 5 + m);
            lemma_write_frame(d1, 226 + h.free_addr, encode_utf8(content), p, 5 + m);
            lemma_write_frame(d2, 0, fh.encoding(), p, 5 + m);
            assert(d3.subrange(p, p + 5 + m) == d.subrange(p, p + 5 + m));
            lemma_same_entry(d, d3, p);
        } else {
            assert(d3[p + 4] == d3.subrange(p, p + 5 + n)[4]);
        }
    }
    assert(table_entries(d3) =~= table_entries(d).update(k, written));
    assert(d3.subrange(0, 3) == fh.encoding());
}

/// The entry that a new file is written to lies in the table.
proof fn lemma_target_slot(d: Seq<u8>, name: Seq<char>)
    requires
        fs_header_of(d).headers < 10,
    ensures
        0 <= target_slot(d, name) < 10,
{
    lemma_slot_named_in_range(table_entries(d), name, 0);
}

/// The number of an entry that is found by its name lies in the table.
proof fn lemma_slot_named_in_range(entries: Seq<EntryFields>, name: Seq<char>, i: int)
    requires
        0 <= i,
    ensures
        slot_named(entries, name, i) matches Some(k) ==> i <= k < entries.len()
            && entries[k].name == name,
    decreases entries.len() - i,
{
    if i < entries.len() && entries[i].name != name {
        lemma_slot_named_in_range(entries, name, i + 1);
    }
}

/// Two stores that hold the same bytes where an entry lies hold the same
/// entry there.
proof fn lemma_same_entry(d1: Seq<u8>, d2: Seq<u8>, p: int)
    requires
        0 <= p,
        entry_at(d1, p) is Ok,
        p + entry_len(d1, p) <= d2.len(),
        d2.subrange(p, p + entry_len(d1, p)) == d1.subrange(p, p + entry_len(d1, p)),
    ensures
        entry_at(d2, p) == entry_at(d1, p),
        d2[p + 4] == d1[p + 4],
{
    let m = entry_len(d1, p);
    let b1 = d1.subrange(p, p + m);
    let b2 = d2.subrange(p, p + m);
    assert(d1[p + 4] == b1[4]);
    assert(d2[p + 4] == b2[4]);
    assert(d1.subrange(p, p + 2) =~= b1.subrange(0, 2));
    assert(d2.subrange(p, p + 2) =~= b2.subrange(0, 2));
    assert(d1.subrange(p + 2, p + 4) =~= b1.subrange(2, 4));
    assert(d2.subrange(p + 2, p + 4) =~= b2.subrange(2, 4));
    assert(d1.subrange(p + 5, p + m) =~= b1.subrange(5, m));
    assert(d2.subrange(p + 5, p + m) =~= b2.subrange(5, m));
}


/// The vectors' entries are the fields `entries`, one for one.
pub open spec fn holds_entries(headers: Seq<FileHeader>, entries: Seq<EntryFields>) -> bool {
    &&& headers.len() == entries.len()
    &&& forall|i: int| 0 <= i < entries.len() ==> (#[trigger] headers[i]).fields() == entries[i]
}

/// A file system with a table of ten files, kept in memory.
#[derive(Debug)]
pub struct Filesystem {
    /// Where the store is kept on disk, if it is.
    pub path: Option<String>,
    /// The store.
    pub memcache: Cursor,
}

impl Filesystem {
    /// The bytes at the start of the store that are kept for its own record.
    pub const FS_HEADER_SIZE: usize = 16;

    /// The largest number of bytes that a file's name can take.
    pub const FILENAME_SIZE: usize = 16;

    /// The bytes that one entry of the table takes.
    pub const TABLE_ALIGN: usize = Self::FILENAME_SIZE + 5;

    /// The number of entries that the table has.
    pub const TOTAL_HEADERS: usize = 10;

    /// The bytes in front of the data area: the record and the table.
    pub const TABLE_SIZE: usize = Self::TABLE_ALIGN * Self::TOTAL_HEADERS + Self::FS_HEADER_SIZE;

    /// A file system with an empty store, which is kept at `path` if there
    /// is one.
    pub fn new(path: Option<&str>) -> (r: Self)
        ensures
            r.memcache@ == Seq::<u8>::empty(),
            r.memcache.spec_position() == 0,
            match path {
                Some(p) => r.path is Some && r.path->0@ == p@,
                None => r.path is None,
            },
    {
        match path {
            Some(p) => Filesystem { path: Some(p.to_owned()), memcache: Cursor::new(Vec::new()) },
            None => Filesystem { path: None, memcache: Cursor::new(Vec::new()) },
        }
    }

    /// Makes the store ready for use: an empty store gets a table in which
    /// no entry is in use; any other store is left as it is.
    pub fn load(&mut self)
        ensures
            final(self).path == old(self).path,
            final(self).memcache@ == if old(self).memcache@.len() > 0 {
                old(self).memcache@
            } else {
                Seq::new(226, |i: int| 0u8)
            },
            old(self).memcache@.len() == 0 ==> table_ok(final(self).memcache@),
            final(self).memcache.spec_position() == if old(self).memcache@.len() > 0 {
                0int
            } else {
                226int
            },
    {
        self.init();
    }

    /// Writes a table in which no entry is in use into a store that is empty.
    fn init(&mut self)
        ensures
            final(self).path == old(self).path,
            final(self).memcache@ == if old(self).memcache@.len() > 0 {
                old(self).memcache@
            } else {
                Seq::new(226, |i: int| 0u8)
            },
            old(self).memcache@.len() == 0 ==> table_ok(final(self).memcache@),
            final(self).memcache.spec_position() == if old(self).memcache@.len() > 0 {
                0int
            } else {
                226int
            },
    {
        proof {
            self.memcache.lemma_addressable();
        }
        let len = match stream_len(&mut self.memcache) {
            Ok(n) => n,
            Err(_) => 0,
        };
        if len > 0 {
            return ;
        }
        let mut buf: Vec<u8> = Vec::new();
        let mut i: usize = 0;
        while i < Self::TABLE_SIZE
            invariant
                i <= 226,
                buf@ =~= Seq::new(i as nat, |j: int| 0u8),
            decreases 226 - i,
        {
            buf.push(0u8);
            i += 1;
        }
        self.memcache.set_position(0);
        let ghost before = self.memcache@;
        match self.memcache.write_all(buf.as_slice()) {
            Ok(()) => {},
            Err(_) => vstd::pervasive::unreached(),
        }
        proof {
            assert(before =~= Seq::<u8>::empty());
            assert(self.memcache@ =~= Seq::new(226, |j: int| 0u8));
            lemma_empty_table(self.memcache@);
        }
    }

    /// All entries of the table, in their order; or the error of the first
    /// that cannot be read.
    pub fn scan_headers(&mut self) -> (r: Result<Vec<FileHeader>, FileHeaderError>)
        ensures
            final(self).path == old(self).path,
            final(self).memcache@ == old(self).memcache@,
            final(self).memcache.spec_position() == position_after_scan(old(self).memcache@),
            match entries_from(old(self).memcache@, 0) {
                Ok(entries) => r is Ok && holds_entries(r->Ok_0@, entries),
                Err(e) => r == Err::<Vec<FileHeader>, FileHeaderError>(e),
            },
    {
        let mut headers: Vec<FileHeader> = Vec::new();
        let ghost d = self.memcache@;
        let ghost mut done: Seq<EntryFields> = Seq::empty();
        self.memcache.set_position(Self::FS_HEADER_SIZE as u64);
        let mut i: usize = 0;
        while i < Self::TOTAL_HEADERS
            invariant
                i <= 10,
                self.memcache@ == d,
                d == old(self).memcache@,
                self.path == old(self).path,
                holds_entries(headers@, done),
                first_unreadable(d, 0) == first_unreadable(d, i as int),
                i > 0 ==> self.memcache.spec_position()
                    == crate::file_header::position_after_entry(d, slot_addr(i - 1)),
                entries_from(d, 0) == match entries_from(d, i as int) {
                    Ok(rest) => Ok::<Seq<EntryFields>, FileHeaderError>(done + rest),
                    Err(e) => Err::<Seq<EntryFields>, FileHeaderError>(e),
                },
            decreases 10 - i,
        {
            self.memcache.set_position(
                (Self::FS_HEADER_SIZE as u64) + (Self::TABLE_ALIGN as u64) * (i as u64),
            );
            let header = match FileHeader::read(&mut self.memcache) {
                Ok(h) => h,
                Err(e) => {
                    return Err(e);
                },
            };
            proof {
                let rest = entries_from(d, i + 1);
                if rest is Ok {
                    assert(done.push(header.fields()) + rest->Ok_0 =~= done + (seq![
                        header.fields(),
                    ] + rest->Ok_0));
                }
                done = done.push(header.fields());
            }
            headers.push(header);
            i += 1;
        }
        assert(done + Seq::<EntryFields>::empty() =~= done);
        Ok(headers)
    }

    /// The first entry of the table that is named `filename`, if there is
    /// one. All entries are read first, and an entry that cannot be read is
    /// an error wherever it lies.
    pub fn get_file_header(&mut self, filename: String) -> (r: Result<
        Option<FileHeader>,
        FileHeaderError,
    >)
        ensures
            final(self).path == old(self).path,
            final(self).memcache@ == old(self).memcache@,
            final(self).memcache.spec_position() == position_after_scan(old(self).memcache@),
            match entries_from(old(self).memcache@, 0) {
                Ok(entries) => match slot_named(entries, filename@, 0) {
                    Some(k) => r is Ok && r->Ok_0 is Some && 0 <= k < entries.len()
                        && r->Ok_0->0.fields() == entries[k],
                    None => r is Ok && r->Ok_0 is None,
                },
                Err(e) => r == Err::<Option<FileHeader>, FileHeaderError>(e),
            },
    {
        let mut headers = match self.scan_headers() {
            Ok(h) => h,
            Err(e) => {
                return Err(e);
            },
        };
        let ghost entries = entries_from(self.memcache@, 0)->Ok_0;
        let n: usize = headers.len();
        let mut i: usize = 0;
        while i < n
            invariant
                i <= n,
                n == entries.len(),
                self.path == old(self).path,
                self.memcache@ == old(self).memcache@,
                self.memcache.spec_position() == position_after_scan(old(self).memcache@),
                entries_from(old(self).memcache@, 0) == Ok::<Seq<EntryFields>, FileHeaderError>(
                    entries,
                ),
                holds_entries(headers@, entries),
                slot_named(entries, filename@, 0) == slot_named(entries, filename@, i as int),
            decreases n - i,
        {
            if headers[i].name == filename {
                assert(headers@[i as int].fields() == entries[i as int]);
                let found = headers.swap_remove(i);
                return Ok(Some(found));
            }
            assert(headers@[i as int].fields() == entries[i as int]);
            i += 1;
        }
        Ok(None)
    }

    /// The offset of the first entry of the table that is named `filename`,
    /// if there is one. All entries are read first, and an entry that cannot
    /// be read is an error wherever it lies.
    pub fn get_file_header_addr(&mut self, filename: String) -> (r: Result<
        Option<usize>,
        FileHeaderError,
    >)
        ensures
            final(self).path == old(self).path,
            final(self).memcache@ == old(self).memcache@,
            final(self).memcache.spec_position() == position_after_scan(old(self).memcache@),
            match entries_from(old(self).memcache@, 0) {
                Ok(entries) => match slot_named(entries, filename@, 0) {
                    Some(k) => r is Ok && r->Ok_0 is Some && r->Ok_0->0 == slot_addr(k) && 0 <= k
                        < 10,
                    None => r == Ok::<Option<usize>, FileHeaderError>(None),
                },
                Err(e) => r == Err::<Option<usize>, FileHeaderError>(e),
            },
    {
        let headers = match self.scan_headers() {
            Ok(h) => h,
            Err(e) => {
                return Err(e);
            },
        };
        let ghost entries = entries_from(self.memcache@, 0)->Ok_0;
        proof {
            lemma_entries_count(self.memcache@, 0);
        }
        let n: usize = headers.len();
        let mut i: usize = 0;
        while i < n
            invariant
                i <= n,
                n == entries.len(),
                n <= 10,
                self.path == old(self).path,
                self.memcache@ == old(self).memcache@,
                self.memcache.spec_position() == position_after_scan(old(self).memcache@),
                entries_from(old(self).memcache@, 0) == Ok::<Seq<EntryFields>, FileHeaderError>(
                    entries,
                ),
                holds_entries(headers@, entries),
                slot_named(entries, filename@, 0) == slot_named(entries, filename@, i as int),
            decreases n - i,
        {
            assert(headers@[i as int].fields() == entries[i as int]);
            if headers[i].name == filename {
                return Ok(Some(i * Self::TABLE_ALIGN + Self::FS_HEADER_SIZE));
            }
            i += 1;
        }
        Ok(None)
    }

    /// The data of the file that `header` describes, as text.
    pub fn get_file_data(&mut self, header: FileHeader) -> (r: Result<String, FileDataError>)
        ensures
            final(self).path == old(self).path,
            final(self).memcache@ == old(self).memcache@,
            match data_of(old(self).memcache@, header.fields()) {
                Ok(text) => r is Ok && r->Ok_0@ == text,
                Err(e) => r == Err::<String, FileDataError>(e),
            },
            final(self).memcache.spec_position() == if read_at(
                old(self).memcache@,
                226 + header.data_addr,
                header.data_len as int,
            ) is Some {
                226 + header.data_addr + header.data_len
            } else {
                old(self).memcache@.len() as int
            },
    {
        self.memcache.set_position(header.data_addr as u64 + Self::TABLE_SIZE as u64);
        let data = match self.memcache.read_exact(header.data_len as usize) {
            Ok(b) => b,
            Err(e) => {
                return Err(FileDataError::IO(e));
            },
        };
        match string_from_utf8(data) {
            Ok(s) => Ok(s),
            Err(_) => Err(FileDataError::InvalidUTF8),
        }
    }

    /// Creates a file: its entry is written to the table, over the first
    /// entry of the same name if there is one, and its data is put behind the
    /// data of the files before it. A name of more than 16 bytes is refused,
    /// and so is any file once ten entries are in use; the store then stays
    /// as it was. The table must be readable and the data area must have
    /// room, which `checked_create_file` tests.
    pub fn create_file(&mut self, filename: String, content: String) -> (r: Result<
        FileHeader,
        FileSystemError,
    >)
        requires
            can_create(old(self).memcache@, filename@, content@),
        ensures
            final(self).path == old(self).path,
            is_creation(old(self).memcache@, final(self).memcache@, filename@, content@, r),
            table_ok(old(self).memcache@) ==> table_ok(final(self).memcache@),
            final(self).memcache.spec_position() == if encode_utf8(filename@).len() > 16 {
                old(self).memcache.spec_position()
            } else {
                3
            },
    {
        if filename.as_str().as_bytes().len() > Self::FILENAME_SIZE {
            return Err(FileSystemError::FileNameTooLarge);
        }
        let ghost d = self.memcache@;
        proof {
            self.memcache.lemma_addressable();
            lemma_table_entries(d, 0);
            assert(table_entries(d).subrange(0, 10) =~= table_entries(d));
            assert(entry_at(d, slot_addr(0)) is Ok);
        }
        self.memcache.set_position(0);
        let mut fs_header = match FSHeader::read(&mut self.memcache) {
            Ok(h) => h,
            Err(_) => vstd::pervasive::unreached(),
        };
        if fs_header.headers >= Self::TOTAL_HEADERS as u8 {
            return Err(FileSystemError::NoMoreSpaceInTable);
        }
        proof {
            lemma_target_slot(d, filename@);
            if table_ok(d) {
                lemma_creation(d, filename@, content@);
            }
        }
        let mut header_addr: usize = fs_header.headers as usize * Self::TABLE_ALIGN
            + Self::FS_HEADER_SIZE;
        let data_addr: usize = fs_header.free_addr as usize;
        let data_offset: usize = Self::TABLE_SIZE;
        let existing_header_addr = match self.get_file_header_addr(filename.clone()) {
            Ok(a) => a,
            Err(_) => vstd::pervasive::unreached(),
        };
        if let Some(addr) = existing_header_addr {
            header_addr = addr;
        }
        let content_bytes = content.as_str().as_bytes();
        let data_len: u16 = #[verifier::truncate]
        (content_bytes.len() as u16);
        let mut file_header = FileHeader { data_addr: data_addr as u16, data_len, name: filename };
        proof {
            lemma_auto_spec_u16_to_from_le_bytes();
            assert(header_addr == slot_addr(target_slot(d, file_header.name@)));
            assert(file_header.encoding().len() == 5 + encode_utf8(file_header.name@).len());
        }
        self.memcache.set_position(header_addr as u64);
        match file_header.write(&mut self.memcache) {
            Ok(()) => {},
            Err(_) => vstd::pervasive::unreached(),
        }
        self.memcache.set_position((data_addr + data_offset) as u64);
        match self.memcache.write_all(content_bytes) {
            Ok(()) => {},
            Err(_) => vstd::pervasive::unreached(),
        }
        if existing_header_addr.is_none() {
            fs_header.headers += 1;
        }
        fs_header.free_addr = data_addr as u16 + data_len;
        self.memcache.set_position(0);
        match fs_header.write(&mut self.memcache) {
            Ok(()) => {},
            Err(_) => vstd::pervasive::unreached(),
        }
        Ok(file_header)
    }
    /// Creates a file as `create_file` does where a file can be created, and
    /// returns nothing, leaving the bytes of the store as they were, where
    /// the table cannot be read or the data area has no room.
    pub fn checked_create_file(&mut self, filename: String, content: String) -> (r: Option<
        Result<FileHeader, FileSystemError>,
    >)
        ensures
            final(self).path == old(self).path,
            r is Some <==> can_create(old(self).memcache@, filename@, content@),
            match r {
                Some(res) => is_creation(
                    old(self).memcache@,
                    final(self).memcache@,
                    filename@,
                    content@,
                    res,
                ),
                None => final(self).memcache@ == old(self).memcache@,
            },
            table_ok(old(self).memcache@) ==> table_ok(final(self).memcache@),
            final(self).memcache.spec_position() == if table_readable(old(self).memcache@) {
                3
            } else {
                position_after_scan(old(self).memcache@)
            },
    {
        let ghost d = self.memcache@;
        match self.scan_headers() {
            Ok(_) => {
                proof {
                    lemma_scanned_is_readable(d, 0);
                }
            },
            Err(_) => {
                proof {
                    if table_readable(d) {
                        lemma_table_entries(d, 0);
                    }
                }
                return None;
            },
        }
        proof {
            assert(entry_at(d, slot_addr(0)) is Ok);
        }
        self.memcache.set_position(0);
        let fs_header = match FSHeader::read(&mut self.memcache) {
            Ok(h) => h,
            Err(_) => {
                return None;
            },
        };
        let content_len: usize = content.as_str().as_bytes().len();
        if filename.as_str().as_bytes().len() <= Self::FILENAME_SIZE && fs_header.headers
            < Self::TOTAL_HEADERS as u8 {
            let data_len: u16 = #[verifier::truncate]
            (content_len as u16);
            if fs_header.free_addr as u32 + data_len as u32 > u16::MAX as u32 {
                return None;
            }
            if content_len > usize::MAX - Self::TABLE_SIZE - fs_header.free_addr as usize {
                return None;
            }
        }
        Some(self.create_file(filename, content))
    }
}

/// As many entries are read from number `i` on as the table has from there.
proof fn lemma_entries_count(d: Seq<u8>, i: int)
    requires
        0 <= i <= 10,
    ensures
        entries_from(d, i) matches Ok(entries) ==> entries.len() == 10 - i,
    decreases 10 - i,
{
    if i < 10 {
        lemma_entries_count(d, i + 1);
    }
}

} // verus!
