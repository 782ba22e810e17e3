//! What holds of every file system that was formatted and then only had
//! files inserted: which blocks are in use, what the directory lists, and
//! that a file is read back as it was stored.

use crate::cursor::{lemma_write_frame, lemma_write_read, read_at, write_at, IoError};
use crate::errors::FilesystemError;
use crate::filesystem::{all_valid_text, PoppedBlock};
use crate::geometry::{
    BlockAlign, BlockKind, BlockKindData, BlockKindHeader, BlockKindMain, BlockKindTitle,
};
use crate::records::{
    lemma_block_round_trip, lemma_file_header_round_trip, lemma_main_round_trip, zero_padded,
    Block, FileHeader, FromBytes, ToBytes,
};
use crate::image::{
    block_addr, block_count_of, block_size_of, chain_limit, content_at, file_content, file_names,
    filled_block, free_block, fresh_main, header_block_at, header_block_bytes, insert_image,
    is_formatted, lemma_geometry, link_to, lookup, main_after, main_of, name_at, names_from,
    popped, region_formatted, region_size, total_size, with_file,
};
use crate::text::{lemma_trimmed_padding, trimmed};
use vstd::bytes::{
    lemma_auto_spec_u64_to_from_le_bytes, spec_u64_from_le_bytes, spec_u64_to_le_bytes,
};
use vstd::prelude::*;
use vstd::utf8::{decode_utf8, encode_utf8, valid_utf8};

verus! {

/// The forward link of the block at offset `a`.
pub open spec fn next_link(d: Seq<u8>, a: int) -> u64 {
    spec_u64_from_le_bytes(d.subrange(a + 8, a + 16))
}

/// The main record of a store that holds `n` files: the first `n` blocks of
/// each kind are in use, and the header block of the newest file heads the
/// directory chain.
pub open spec fn main_with(n: int) -> BlockKindMain {
    BlockKindMain {
        free_header_ptr: link_to(BlockKind::Header, n),
        free_title_ptr: link_to(BlockKind::Title, n),
        free_data_ptr: link_to(BlockKind::Data, n),
        first_header_ptr: link_to(BlockKind::Header, n - 1),
    }
}

/// Block number `s` of `kind` is linked to the next block of its free chain.
pub open spec fn slot_is_free(d: Seq<u8>, kind: BlockKind, s: int) -> bool {
    next_link(d, block_addr(kind, s)) == link_to(kind, s + 1)
}

/// Header block number `s` belongs to the file that was inserted as number
/// `s`: it names title and data block number `s` and is linked to the header
/// block of the file before it.
pub open spec fn slot_holds_file(d: Seq<u8>, s: int) -> bool {
    match header_block_at(d, block_addr(BlockKind::Header, s)) {
        Some(b) => b.next_block == link_to(BlockKind::Header, s - 1) && b.data == (FileHeader {
            start_title_block: block_addr(BlockKind::Title, s) as u64,
            start_data_block: block_addr(BlockKind::Data, s) as u64,
        }),
        None => false,
    }
}

/// The store `d` is a file system with `n` files: what formatting and then
/// `n` insertions leave, whatever the files' names and contents.
pub open spec fn holds_files(d: Seq<u8>, n: int) -> bool {
    &&& 0 <= n <= 32
    &&& d.len() >= total_size()
    &&& main_of(d) == Some(main_with(n))
    &&& forall|kind: BlockKind, s: int|
        n <= s < block_count_of(kind) ==> #[trigger] slot_is_free(d, kind, s)
    &&& forall|s: int| 0 <= s < n ==> #[trigger] slot_holds_file(d, s)
}

/// The name of the file that was inserted as number `s`.
pub open spec fn stored_name(d: Seq<u8>, s: int) -> Seq<u8> {
    trimmed(
        d.subrange(block_addr(BlockKind::Title, s) + 16, block_addr(BlockKind::Title, s) + 32),
    )
}

/// The names of the first `k` files, the one inserted last first.
pub open spec fn stored_names(d: Seq<u8>, k: int) -> Seq<Seq<u8>> {
    Seq::new(k as nat, |i: int| stored_name(d, k - 1 - i))
}

/// After formatting, the main record holds as the head of each free chain
/// the first offset behind the header of that kind's region, where the
/// regions follow one another in the order main, header, title, data; and the
/// directory chain is empty.
pub proof fn lemma_formatted_main(d: Seq<u8>)
    requires
        is_formatted(d),
    ensures
        main_of(d) == Some(fresh_main()),
        fresh_main().free_header_ptr == region_size::<BlockKindMain>()
            + BlockKindHeader::spec_header_size(),
        fresh_main().free_title_ptr == region_size::<BlockKindMain>() + region_size::<
            BlockKindHeader,
        >() + BlockKindTitle::spec_header_size(),
        fresh_main().free_data_ptr == region_size::<BlockKindMain>() + region_size::<
            BlockKindHeader,
        >() + region_size::<BlockKindTitle>() + BlockKindData::spec_header_size(),
        fresh_main().first_header_ptr == 0,
{
    lemma_geometry();
    lemma_main_round_trip(fresh_main());
}

/// A free block as formatting writes it is linked to the next block.
proof fn lemma_free_block_link(d: Seq<u8>, kind: BlockKind, s: int)
    requires
        0 <= s < block_count_of(kind),
        read_at(d, block_addr(kind, s), block_size_of(kind)) == Some(free_block(kind, s)),
    ensures
        slot_is_free(d, kind, s),
{
    lemma_auto_spec_u64_to_from_le_bytes();
    let a = block_addr(kind, s);
    let b = d.subrange(a, a + block_size_of(kind));
    assert(b.subrange(8, 16) =~= d.subrange(a + 8, a + 16));
    assert(free_block(kind, s).subrange(8, 16) =~= spec_u64_to_le_bytes(link_to(kind, s + 1)));
}

/// A freshly formatted store is a file system with no files.
pub proof fn lemma_formatted_is_empty(d: Seq<u8>)
    requires
        is_formatted(d),
    ensures
        holds_files(d, 0),
        file_names(d) == Ok::<Seq<Seq<u8>>, IoError>(Seq::empty()),
{
    lemma_formatted_main(d);
    assert forall|kind: BlockKind, s: int| 0 <= s < block_count_of(kind) implies #[trigger] slot_is_free(
        d,
        kind,
        s,
    ) by {
        assert(region_formatted(d, kind));
        lemma_free_block_link(d, kind, s);
    }
}

/// What the three blocks are that an insertion into a store with `n` files
/// takes: block number `n` of each kind, whose successor in the free chain is
/// block number `n + 1`.
proof fn lemma_popped(d: Seq<u8>, n: int, kind: BlockKind)
    requires
        holds_files(d, n),
        n < block_count_of(kind),
    ensures
        popped(d, main_with(n), kind) is Ok,
        popped(d, main_with(n), kind)->Ok_0.addr == block_addr(kind, n),
        popped(d, main_with(n), kind)->Ok_0.next_block == link_to(kind, n + 1),
{
    let a = block_addr(kind, n);
    assert(slot_is_free(d, kind, n));
    let b = d.subrange(a, a + block_size_of(kind));
    assert(b.subrange(8, 16) =~= d.subrange(a + 8, a + 16));
}

/// The offsets of the three blocks that file number `n` is put into, and the
/// ranges that are then written, do not overlap.
pub open spec fn clear_of_file(n: int, a: int, len: int) -> bool {
    &&& 32 <= a
    &&& a + len <= block_addr(BlockKind::Header, n) || block_addr(BlockKind::Header, n) + 32 <= a
    &&& a + len <= block_addr(BlockKind::Title, n) || block_addr(BlockKind::Title, n) + 32 <= a
    &&& a + len <= block_addr(BlockKind::Data, n) || block_addr(BlockKind::Data, n) + 128 <= a
}

/// What is read from a store after file number `n` was put into it: the
/// four records that were written, and everything else as before.
proof fn lemma_with_file_reads(
    d: Seq<u8>,
    m: BlockKindMain,
    h: PoppedBlock,
    t: PoppedBlock,
    c: PoppedBlock,
    name: Seq<u8>,
    content: Seq<u8>,
    n: int,
)
    requires
        0 <= n < 32,
        d.len() >= total_size(),
        h.addr == block_addr(BlockKind::Header, n),
        t.addr == block_addr(BlockKind::Title, n),
        c.addr == block_addr(BlockKind::Data, n),
    ensures
        with_file(d, m, h, t, c, name, content).len() == d.len(),
        read_at(with_file(d, m, h, t, c, name, content), 0, 32) == Some(
            main_after(h, t, c).encoding(),
        ),
        read_at(with_file(d, m, h, t, c, name, content), h.addr as int, 32) == Some(
            header_block_bytes(h, m.first_header_ptr, t.addr, c.addr),
        ),
        read_at(with_file(d, m, h, t, c, name, content), t.addr as int, 32) == Some(
            filled_block(t, name, 16),
        ),
        read_at(with_file(d, m, h, t, c, name, content), c.addr as int, 128) == Some(
            filled_block(c, content, 112),
        ),
        forall|a: int, len: int|
            0 <= len && a + len <= d.len() && clear_of_file(n, a, len) ==> #[trigger] read_at(
                with_file(d, m, h, t, c, name, content),
                a,
                len,
            ) == read_at(d, a, len),
{
    lemma_auto_spec_u64_to_from_le_bytes();
    let tb = filled_block(t, name, 16);
    let cb = filled_block(c, content, 112);
    let hb = header_block_bytes(h, m.first_header_ptr, t.addr, c.addr);
    let mb = main_after(h, t, c).encoding();
    let d1 = write_at(d, t.addr as int, tb);
    let d2 = write_at(d1, c.addr as int, cb);
    let d3 = write_at(d2, h.addr as int, hb);
    let d4 = write_at(d3, 0, mb);
    assert(d4 == with_file(d, m, h, t, c, name, content));
    assert(tb.len() == 32);
    assert(cb.len() == 128);
    assert(hb.len() == 32);
    assert(mb.len() == 32);
    lemma_write_read(d, t.addr as int, tb);
    lemma_write_read(d1, c.addr as int, cb);
    lemma_write_read(d2, h.addr as int, hb);
    lemma_write_read(d3, 0, mb);
    // the title block
    lemma_write_frame(d1, c.addr as int, cb, t.addr as int, 32);
    lemma_write_frame(d2, h.addr as int, hb, t.addr as int, 32);
    lemma_write_frame(d3, 0, mb, t.addr as int, 32);
    // the data block
    lemma_write_frame(d2, h.addr as int, hb, c.addr as int, 128);
    lemma_write_frame(d3, 0, mb, c.addr as int, 128);
    // the header block
    lemma_write_frame(d3, 0, mb, h.addr as int, 32);
    assert forall|a: int, len: int|
        0 <= len && a + len <= d.len() && clear_of_file(n, a, len) implies #[trigger] read_at(
        d4,
        a,
        len,
    ) == read_at(d, a, len) by {
        lemma_write_frame(d, t.addr as int, tb, a, len);
        lemma_write_frame(d1, c.addr as int, cb, a, len);
        lemma_write_frame(d2, h.addr as int, hb, a, len);
        lemma_write_frame(d3, 0, mb, a, len);
    }
}


/// Inserting into a file system with `n` files succeeds while a data block is
/// left, whatever the name and the content, provided that they fit; the store
/// is then a file system with `n + 1` files. Once all 32 data blocks are in
/// use the insertion is refused for want of a data block, though header and
/// title blocks are left.
pub proof fn lemma_insert_keeps_file_system(
    d: Seq<u8>,
    n: int,
    name: Seq<u8>,
    content: Seq<u8>,
)
    requires
        holds_files(d, n),
        name.len() <= 16,
        content.len() <= 112,
    ensures
        n < 32 ==> insert_image(d, name, content) is Ok && holds_files(
            insert_image(d, name, content)->Ok_0,
            n + 1,
        ),
        n == 32 ==> insert_image(d, name, content) == Err::<Seq<u8>, FilesystemError>(
            FilesystemError::ExhaustedFreeList(BlockKind::Data),
        ),
{
    let m = main_with(n);
    lemma_popped(d, n, BlockKind::Header);
    lemma_popped(d, n, BlockKind::Title);
    if n < 32 {
        lemma_popped(d, n, BlockKind::Data);
        let h = popped(d, m, BlockKind::Header)->Ok_0;
        let t = popped(d, m, BlockKind::Title)->Ok_0;
        let c = popped(d, m, BlockKind::Data)->Ok_0;
        let d2 = with_file(d, m, h, t, c, name, content);
        assert(insert_image(d, name, content) == Ok::<Seq<u8>, FilesystemError>(d2));
        lemma_with_file_reads(d, m, h, t, c, name, content, n);
        lemma_main_round_trip(main_after(h, t, c));
        assert(main_of(d2) == Some(main_with(n + 1)));
        assert forall|kind: BlockKind, s: int| n + 1 <= s < block_count_of(kind) implies #[trigger] slot_is_free(
            d2,
            kind,
            s,
        ) by {
            assert(slot_is_free(d, kind, s));
            let a = block_addr(kind, s) + 8;
            assert(clear_of_file(n, a, 8));
            assert(read_at(d2, a, 8) == read_at(d, a, 8));
        }
        assert forall|s: int| 0 <= s < n + 1 implies #[trigger] slot_holds_file(d2, s) by {
            let a = block_addr(BlockKind::Header, s);
            if s < n {
                assert(slot_holds_file(d, s));
                assert(clear_of_file(n, a, 32));
                assert(read_at(d2, a, 32) == read_at(d, a, 32));
            } else {
                let b = Block {
                    prev_block: h.prev_block,
                    next_block: m.first_header_ptr,
                    data: FileHeader { start_title_block: t.addr, start_data_block: c.addr },
                };
                lemma_file_header_round_trip(b.data);
                lemma_block_round_trip(b);
                assert(header_block_at(d2, a) == Some(b));
            }
        }
    }
}

/// A name of more than 16 bytes is refused as too large, whatever the store
/// holds; so is, where the name fits, a content of more than 112 bytes. A
/// name of exactly 16 bytes and a content of exactly 112 bytes are accepted
/// by every file system that has a data block left.
pub proof fn lemma_insert_size_limits(d: Seq<u8>, n: int, name: Seq<u8>, content: Seq<u8>)
    ensures
        name.len() > 16 ==> insert_image(d, name, content) == Err::<Seq<u8>, FilesystemError>(
            FilesystemError::FileNameTooLarge,
        ),
        name.len() <= 16 && content.len() > 112 ==> insert_image(d, name, content) == Err::<
            Seq<u8>,
            FilesystemError,
        >(FilesystemError::ContentTooLarge),
        holds_files(d, n) && n < 32 && name.len() <= 16 && content.len() <= 112 ==> insert_image(
            d,
            name,
            content,
        ) is Ok,
{
    if holds_files(d, n) && n < 32 && name.len() <= 16 && content.len() <= 112 {
        lemma_insert_keeps_file_system(d, n, name, content);
    }
}

/// In a file system with `n` files, the chain that starts at the header
/// block of file number `k - 1` lists the names of the first `k` files, the
/// one inserted last first.
proof fn lemma_names_chain(d: Seq<u8>, n: int, k: int, fuel: nat)
    requires
        holds_files(d, n),
        0 <= k <= n,
        fuel >= k,
    ensures
        names_from(d, link_to(BlockKind::Header, k - 1), fuel) == Ok::<Seq<Seq<u8>>, IoError>(
            stored_names(d, k),
        ),
    decreases k,
{
    if k == 0 {
        assert(stored_names(d, 0) =~= Seq::empty());
    } else {
        let s = k - 1;
        assert(slot_holds_file(d, s));
        let b = header_block_at(d, block_addr(BlockKind::Header, s))->0;
        let at = block_addr(BlockKind::Title, s);
        assert(d.subrange(at, at + 32).subrange(16, 32) =~= d.subrange(at + 16, at + 32));
        assert(name_at(d, b.data.start_title_block) == Ok::<Seq<u8>, IoError>(stored_name(d, s)));
        lemma_names_chain(d, n, k - 1, (fuel - 1) as nat);
        assert(seq![stored_name(d, s)] + stored_names(d, k - 1) =~= stored_names(d, k));
    }
}

/// The directory of a file system with `n` files lists the names of its
/// files, the one inserted last first.
pub proof fn lemma_directory_lists_files(d: Seq<u8>, n: int)
    requires
        holds_files(d, n),
    ensures
        file_names(d) == Ok::<Seq<Seq<u8>>, IoError>(stored_names(d, n)),
        stored_names(d, n).len() == n,
{
    lemma_names_chain(d, n, n, chain_limit());
}

/// Bytes that do not end in a zero are stored and read back unchanged:
/// padding them with zeros and trimming the zeros at the end gives them back.
pub proof fn lemma_padding_trimmed(bytes: Seq<u8>, width: nat)
    requires
        bytes.len() <= width,
        bytes.len() > 0 ==> bytes.last() != 0,
    ensures
        trimmed(zero_padded(bytes, width)) == bytes,
{
    lemma_trimmed_padding(zero_padded(bytes, width), bytes.len());
    assert(zero_padded(bytes, width).subrange(0, bytes.len() as int) =~= bytes);
}

/// After a file was inserted into a file system, the directory lists its
/// name first, and behind it the names that it listed before, in their old
/// order. The name is listed as it is stored: without zeros at its end.
pub proof fn lemma_insert_lists_newest_first(
    d: Seq<u8>,
    n: int,
    name: Seq<u8>,
    content: Seq<u8>,
)
    requires
        holds_files(d, n),
        insert_image(d, name, content) is Ok,
    ensures
        file_names(d) is Ok,
        file_names(insert_image(d, name, content)->Ok_0) == Ok::<Seq<Seq<u8>>, IoError>(
            seq![trimmed(zero_padded(name, 16))] + file_names(d)->Ok_0,
        ),
{
    lemma_insert_keeps_file_system(d, n, name, content);
    let d2 = insert_image(d, name, content)->Ok_0;
    lemma_directory_lists_files(d, n);
    lemma_directory_lists_files(d2, n + 1);
    lemma_stored_names_after_insert(d, n, name, content);
    assert(stored_names(d2, n + 1) =~= seq![trimmed(zero_padded(name, 16))] + stored_names(d, n));
}

/// An insertion stores the new file's name in title block number `n` and
/// leaves the names of the files before it as they were.
proof fn lemma_stored_names_after_insert(d: Seq<u8>, n: int, name: Seq<u8>, content: Seq<u8>)
    requires
        holds_files(d, n),
        insert_image(d, name, content) is Ok,
    ensures
        n < 32,
        stored_name(insert_image(d, name, content)->Ok_0, n) == trimmed(zero_padded(name, 16)),
        forall|s: int|
            0 <= s < n ==> #[trigger] stored_name(insert_image(d, name, content)->Ok_0, s)
                == stored_name(d, s),
        content_at(
            insert_image(d, name, content)->Ok_0,
            block_addr(BlockKind::Data, n) as u64,
        ) == Ok::<Seq<u8>, IoError>(trimmed(zero_padded(content, 112))),
{
    lemma_insert_keeps_file_system(d, n, name, content);
    lemma_auto_spec_u64_to_from_le_bytes();
    let m = main_with(n);
    lemma_popped(d, n, BlockKind::Header);
    lemma_popped(d, n, BlockKind::Title);
    lemma_popped(d, n, BlockKind::Data);
    let h = popped(d, m, BlockKind::Header)->Ok_0;
    let t = popped(d, m, BlockKind::Title)->Ok_0;
    let c = popped(d, m, BlockKind::Data)->Ok_0;
    let d2 = with_file(d, m, h, t, c, name, content);
    assert(insert_image(d, name, content) == Ok::<Seq<u8>, FilesystemError>(d2));
    lemma_with_file_reads(d, m, h, t, c, name, content, n);
    let at = block_addr(BlockKind::Title, n);
    assert(d2.subrange(at, at + 32).subrange(16, 32) =~= d2.subrange(at + 16, at + 32));
    assert(filled_block(t, name, 16).subrange(16, 32) =~= zero_padded(name, 16));
    let ac = block_addr(BlockKind::Data, n);
    assert(filled_block(c, content, 112).subrange(16, 128) =~= zero_padded(content, 112));
    assert forall|s: int| 0 <= s < n implies #[trigger] stored_name(d2, s) == stored_name(
        d,
        s,
    ) by {
        let a = block_addr(BlockKind::Title, s) + 16;
        assert(clear_of_file(n, a, 16));
        assert(read_at(d2, a, 16) == read_at(d, a, 16));
    }
}

/// A file that was inserted into a file system is found under its name, and
/// what is read is the content that was stored, byte for byte. This holds of
/// names that do not end in a zero byte: a name is stored padded with zeros,
/// which are not told apart from its own. Of the content the zeros at its
/// end are not read back.
pub proof fn lemma_insert_then_read(d: Seq<u8>, n: int, name: Seq<u8>, content: Seq<u8>)
    requires
        holds_files(d, n),
        insert_image(d, name, content) is Ok,
        name.len() > 0 ==> name.last() != 0,
    ensures
        file_content(insert_image(d, name, content)->Ok_0, name) == Ok::<
            Seq<u8>,
            FilesystemError,
        >(trimmed(zero_padded(content, 112))),
        content.len() > 0 && content.last() != 0 ==> file_content(
            insert_image(d, name, content)->Ok_0,
            name,
        ) == Ok::<Seq<u8>, FilesystemError>(content),
        content.len() == 0 ==> file_content(insert_image(d, name, content)->Ok_0, name) == Ok::<
            Seq<u8>,
            FilesystemError,
        >(content),
{
    lemma_insert_keeps_file_system(d, n, name, content);
    lemma_stored_names_after_insert(d, n, name, content);
    let d2 = insert_image(d, name, content)->Ok_0;
    assert(slot_holds_file(d2, n));
    let b = header_block_at(d2, block_addr(BlockKind::Header, n))->0;
    let at = block_addr(BlockKind::Title, n);
    assert(d2.subrange(at, at + 32).subrange(16, 32) =~= d2.subrange(at + 16, at + 32));
    lemma_padding_trimmed(name, 16);
    assert(name_at(d2, b.data.start_title_block) == Ok::<Seq<u8>, IoError>(name));
    assert(lookup(d2, name) == Ok::<Option<Block<FileHeader>>, IoError>(Some(b)));
    if content.len() == 0 || content.last() != 0 {
        lemma_padding_trimmed(content, 112);
    }
}


/// A name that is given as text is listed as the same text: its bytes are
/// stored, padded, trimmed and decoded to the characters that it was made of.
/// This holds of names whose last byte is not zero.
pub proof fn lemma_text_name_round_trip(name: Seq<char>)
    requires
        encode_utf8(name).len() <= 16,
        encode_utf8(name).len() > 0 ==> encode_utf8(name).last() != 0,
    ensures
        valid_utf8(trimmed(zero_padded(encode_utf8(name), 16))),
        decode_utf8(trimmed(zero_padded(encode_utf8(name), 16))) == name,
{
    lemma_padding_trimmed(encode_utf8(name), 16);
    vstd::utf8::encode_utf8_valid_utf8(name);
    vstd::utf8::encode_utf8_decode_utf8(name);
}


/// The names that a file system lists stay text, so that they can be listed
/// as strings, while the names that are inserted are text whose last byte is
/// not zero; and the name that was inserted last is listed first, as the
/// text that it was.
pub proof fn lemma_text_names_stay_text(d: Seq<u8>, n: int, name: Seq<char>, content: Seq<u8>)
    requires
        holds_files(d, n),
        all_valid_text(stored_names(d, n)),
        insert_image(d, encode_utf8(name), content) is Ok,
        encode_utf8(name).len() > 0 ==> encode_utf8(name).last() != 0,
    ensures
        file_names(insert_image(d, encode_utf8(name), content)->Ok_0) == Ok::<
            Seq<Seq<u8>>,
            IoError,
        >(stored_names(insert_image(d, encode_utf8(name), content)->Ok_0, n + 1)),
        all_valid_text(stored_names(insert_image(d, encode_utf8(name), content)->Ok_0, n + 1)),
        decode_utf8(stored_names(insert_image(d, encode_utf8(name), content)->Ok_0, n + 1)[0])
            == name,
{
    let d2 = insert_image(d, encode_utf8(name), content)->Ok_0;
    lemma_insert_keeps_file_system(d, n, encode_utf8(name), content);
    lemma_insert_lists_newest_first(d, n, encode_utf8(name), content);
    lemma_directory_lists_files(d, n);
    lemma_directory_lists_files(d2, n + 1);
    lemma_text_name_round_trip(name);
    let newest = trimmed(zero_padded(encode_utf8(name), 16));
    assert(stored_names(d2, n + 1) == seq![newest] + stored_names(d, n));
    assert forall|i: int| 0 <= i < n + 1 implies valid_utf8(
        #[trigger] stored_names(d2, n + 1)[i],
    ) by {
        if i > 0 {
            assert(stored_names(d2, n + 1)[i] == stored_names(d, n)[i - 1]);
        }
    }
}

} // verus!
