//! A seekable, growable byte store with a read/write position.

use vstd::prelude::*;

verus! {

/// The ways in which an operation on a byte store can fail.
#[derive(Clone, Copy, Debug, PartialEq, Eq, Structural)]
pub enum IoError {
    /// Fewer bytes were available than the operation needed.
    UnexpectedEof,
    /// The position or length cannot be represented on this machine.
    InvalidInput,
    /// The bytes read do not form a valid record.
    InvalidData,
}

impl IoError {
    /// What went wrong, in words, as a sequence of characters.
    pub open spec fn message_text(&self) -> Seq<char> {
        match *self {
            IoError::UnexpectedEof => "failed to fill whole buffer"@,
            IoError::InvalidInput => "position exceeds the largest possible length of a store"@,
            IoError::InvalidData => "the store holds a record that cannot be read"@,
        }
    }

    /// What went wrong, in words.
    pub fn message(&self) -> (r: String)
        ensures
            r@ == self.message_text(),
    {
        match self {
            IoError::UnexpectedEof => "failed to fill whole buffer".to_owned(),
            IoError::InvalidInput => "position exceeds the largest possible length of a store".to_owned(),
            IoError::InvalidData => "the store holds a record that cannot be read".to_owned(),
        }
    }
}

/// The bytes of `d` after `bytes` has been written at offset `pos`: the store
/// grows as far as the write reaches, and a gap between its old end and `pos`
/// is filled with zeros.
pub open spec fn write_at(d: Seq<u8>, pos: int, bytes: Seq<u8>) -> Seq<u8> {
    Seq::new(
        (if d.len() >= pos + bytes.len() { d.len() as int } else { pos + bytes.len() }) as nat,
        |i: int|
            if pos <= i < pos + bytes.len() {
                bytes[i - pos]
            } else if i < d.len() {
                d[i]
            } else {
                0u8
            },
    )
}

/// The `n` bytes of `d` that start at offset `pos`, if `d` holds that many.
pub open spec fn read_at(d: Seq<u8>, pos: int, n: int) -> Option<Seq<u8>> {
    if 0 <= pos && 0 <= n && pos + n <= d.len() {
        Some(d.subrange(pos, pos + n))
    } else {
        None
    }
}

/// A write leaves every range that it does not overlap as it was.
pub proof fn lemma_write_frame(d: Seq<u8>, pos: int, bytes: Seq<u8>, a: int, n: int)
    requires
        0 <= pos,
        0 <= a,
        0 <= n,
        a + n <= d.len(),
        a + n <= pos || pos + bytes.len() <= a,
    ensures
        read_at(write_at(d, pos, bytes), a, n) == read_at(d, a, n),
{
    assert(write_at(d, pos, bytes).subrange(a, a + n) =~= d.subrange(a, a + n));
}

/// A write is read back unchanged from where it was made.
pub proof fn lemma_write_read(d: Seq<u8>, pos: int, bytes: Seq<u8>)
    requires
        0 <= pos,
    ensures
        read_at(write_at(d, pos, bytes), pos, bytes.len() as int) == Some(bytes),
        write_at(d, pos, bytes).len() >= d.len(),
        pos + bytes.len() <= d.len() ==> write_at(d, pos, bytes).len() == d.len(),
{
    assert(write_at(d, pos, bytes).subrange(pos, pos + bytes.len()) =~= bytes);
}

/// An in-memory byte store with a position, at which reads and writes happen.
#[derive(Debug)]
pub struct Cursor {
    data: Vec<u8>,
    pos: u64,
}

impl View for Cursor {
    type V = Seq<u8>;

    closed spec fn view(&self) -> Seq<u8> {
        self.data@
    }
}

impl Cursor {
    /// The offset at which the next read or write happens.
    pub closed spec fn spec_position(&self) -> u64 {
        self.pos
    }

    /// A store never holds more bytes than this machine can address.
    pub proof fn lemma_addressable(&self)
        ensures
            self@.len() <= usize::MAX,
    {
        assert(self.data.len() == self.data@.len());
    }

    /// A store over `data`, positioned at its start.
    pub fn new(data: Vec<u8>) -> (r: Self)
        ensures
            r@ == data@,
            r.spec_position() == 0,
    {
        Cursor { data, pos: 0 }
    }

    #[verifier::when_used_as_spec(spec_position)]
    pub fn position(&self) -> (r: u64)
        ensures
            r == self.spec_position(),
    {
        self.pos
    }

    /// Moves to the absolute offset `pos`; the bytes stay as they are.
    pub fn set_position(&mut self, pos: u64)
        ensures
            final(self)@ == old(self)@,
            final(self).spec_position() == pos,
    {
        self.pos = pos;
    }

    /// The bytes held.
    pub fn get_ref(&self) -> (r: &Vec<u8>)
        ensures
            r@ == self@,
    {
        &self.data
    }

    /// Gives up the store and returns its bytes.
    pub fn into_inner(self) -> (r: Vec<u8>)
        ensures
            r@ == self@,
    {
        self.data
    }

    /// The number of bytes held.
    pub fn len(&self) -> (r: usize)
        ensures
            r == self@.len(),
    {
        self.data.len()
    }

    /// Reads exactly `n` bytes at the position and moves past them. Where
    /// fewer than `n` bytes are left, nothing is returned and the position
    /// moves to the end of the store.
    pub fn read_exact(&mut self, n: usize) -> (r: Result<Vec<u8>, IoError>)
        ensures
            final(self)@ == old(self)@,
            match r {
                Ok(v) => read_at(old(self)@, old(self).spec_position() as int, n as int) == Some(
                    v@,
                ) && final(self).spec_position() == old(self).spec_position() + n,
                Err(e) => e == IoError::UnexpectedEof && read_at(
                    old(self)@,
                    old(self).spec_position() as int,
                    n as int,
                ) is None && final(self).spec_position() == old(self)@.len(),
            },
    {
        let len: usize = self.data.len();
        if self.pos > len as u64 || len - (self.pos as usize) < n {
            self.pos = len as u64;
            return Err(IoError::UnexpectedEof);
        }
        let start: usize = self.pos as usize;
        let mut out: Vec<u8> = Vec::with_capacity(n);
        let mut i: usize = 0;
        while i < n
            invariant
                i <= n,
                start + n <= len,
                len == self.data@.len(),
                self.data@ == old(self).data@,
                out@ == self.data@.subrange(start as int, start + i),
            decreases n - i,
        {
            out.push(self.data[start + i]);
            i += 1;
            assert(out@ =~= self.data@.subrange(start as int, start + i));
        }
        self.pos = (start + n) as u64;
        Ok(out)
    }

    /// Writes `bytes` at the position and moves past them, growing the store
    /// where the write reaches beyond its end. Fails, changing nothing, only
    /// where the end of the write cannot be addressed on this machine.
    pub fn write_all(&mut self, bytes: &[u8]) -> (r: Result<(), IoError>)
        ensures
            match r {
                Ok(()) => old(self).spec_position() + bytes@.len() <= usize::MAX && final(self)@
                    == write_at(old(self)@, old(self).spec_position() as int, bytes@)
                    && final(self).spec_position() == old(self).spec_position() + bytes@.len(),
                Err(e) => e == IoError::InvalidInput && old(self).spec_position() + bytes@.len()
                    > usize::MAX && final(self)@ == old(self)@ && final(self).spec_position()
                    == old(self).spec_position(),
            },
    {
        let n: usize = bytes.len();
        if self.pos > usize::MAX as u64 || usize::MAX - (self.pos as usize) < n {
            return Err(IoError::InvalidInput);
        }
        let start: usize = self.pos as usize;
        while self.data.len() < start
            invariant
                self.pos == old(self).pos,
                old(self).data@.len() <= self.data@.len() || self.data@.len() >= start,
                self.data@.len() <= start || self.data@ == old(self).data@,
                self.data@ =~= write_at(old(self).data@, self.data@.len() as int, Seq::empty()),
            decreases start - self.data.len(),
        {
            self.data.push(0u8);
        }
        let ghost padded = self.data@;
        let mut i: usize = 0;
        while i < n
            invariant
                i <= n,
                n == bytes@.len(),
                start + n <= usize::MAX,
                start == old(self).pos,
                self.pos == old(self).pos,
                padded =~= write_at(old(self).data@, start as int, Seq::empty()),
                self.data@ =~= write_at(padded, start as int, bytes@.subrange(0, i as int)),
            decreases n - i,
        {
            if start + i < self.data.len() {
                self.data[start + i] = bytes[i];
            } else {
                self.data.push(bytes[i]);
            }
            i += 1;
        }
        assert(bytes@.subrange(0, n as int) =~= bytes@);
        assert(self.data@ =~= write_at(old(self).data@, start as int, bytes@));
        self.pos = (start + n) as u64;
        Ok(())
    }
}

/// The length of the store behind `cursor`, which is left positioned at its
/// start.
pub fn stream_len(cursor: &mut Cursor) -> (r: Result<u64, IoError>)
    ensures
        r == Ok::<u64, IoError>(old(cursor)@.len() as u64),
        final(cursor)@ == old(cursor)@,
        final(cursor).spec_position() == 0,
{
    let len: u64 = cursor.len() as u64;
    cursor.set_position(0);
    Ok(len)
}

} // verus!
