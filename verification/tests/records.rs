use rfs::cursor::{stream_len, Cursor, IoError};
use rfs::file_header::{FileHeader, FileHeaderError};
use rfs::filesystem::{
    data_from, pad_with_byte_size, title_from, Block, BlockAlign, BlockKindData, BlockKindHeader,
    BlockKindMain, BlockKindTitle, FileData, FileHeader as BlockFileHeader, FileTitle,
    FilesystemError, FromBytes, GenericError, InitializationError, ToBytes,
};
use rfs::text::{same_bytes, trim_zeros};

#[test]
fn pad_with_byte_size_puts_the_size_in_front() {
    assert_eq!(
        pad_with_byte_size(vec![9, 8], 0x0102030405060708),
        vec![8, 7, 6, 5, 4, 3, 2, 1, 9, 8]
    );
    assert_eq!(pad_with_byte_size(vec![], 1), vec![1, 0, 0, 0, 0, 0, 0, 0]);
}

#[test]
fn cursor_reads_what_was_written() {
    let mut c = Cursor::new(vec![1, 2, 3]);
    assert_eq!(c.read_exact(2), Ok(vec![1, 2]));
    assert_eq!(c.position(), 2);
    assert_eq!(c.read_exact(2), Err(IoError::UnexpectedEof));
    assert_eq!(c.position(), 3);
    c.set_position(1);
    c.write_all(&[7, 8, 9]).unwrap();
    assert_eq!(c.get_ref(), &vec![1, 7, 8, 9]);
    assert_eq!(c.position(), 4);
    assert_eq!(c.len(), 4);
}

#[test]
fn cursor_write_behind_the_end_pads_with_zeros() {
    let mut c = Cursor::new(vec![1]);
    c.set_position(3);
    c.write_all(&[5]).unwrap();
    assert_eq!(c.get_ref(), &vec![1, 0, 0, 5]);
    assert_eq!(stream_len(&mut c), Ok(4));
    assert_eq!(c.position(), 0);
}

#[test]
fn geometry_of_each_kind() {
    assert_eq!(
        (
            BlockKindMain::header_size(),
            BlockKindMain::block_size(),
            BlockKindMain::block_count()
        ),
        (32, 0, 0)
    );
    assert_eq!(
        (
            BlockKindHeader::header_size(),
            BlockKindHeader::block_size(),
            BlockKindHeader::block_count()
        ),
        (16, 32, 128)
    );
    assert_eq!(
        (
            BlockKindTitle::header_size(),
            BlockKindTitle::block_size(),
            BlockKindTitle::block_count()
        ),
        (16, 32, 128)
    );
    assert_eq!(
        (
            BlockKindData::header_size(),
            BlockKindData::block_size(),
            BlockKindData::block_count()
        ),
        (16, 128, 32)
    );
    assert_eq!(BlockKindMain::initial_header(), vec![0u8; 32]);
    let mut expected = vec![0u8; 16];
    expected[0] = 1;
    assert_eq!(BlockKindHeader::initial_header(), expected);
    expected[0] = 2;
    assert_eq!(BlockKindTitle::initial_header(), expected);
    expected[0] = 3;
    assert_eq!(BlockKindData::initial_header(), expected);
}

#[test]
fn main_record_round_trip() {
    let main = BlockKindMain {
        free_header_ptr: 1,
        free_title_ptr: 0x0102030405060708,
        free_data_ptr: u64::MAX,
        first_header_ptr: 0,
    };
    let mut c = Cursor::new(Vec::new());
    main.to_bytes(&mut c).unwrap();
    assert_eq!(c.len(), 32);
    assert_eq!(&c.get_ref()[8..16], &[8, 7, 6, 5, 4, 3, 2, 1]);
    c.set_position(0);
    assert_eq!(BlockKindMain::from_bytes(&mut c), Ok(main));
    assert_eq!(
        BlockKindMain::from_bytes(&mut c),
        Err(IoError::UnexpectedEof)
    );
}

#[test]
fn blocks_round_trip() {
    let header = Block {
        prev_block: 3,
        next_block: 4,
        data: BlockFileHeader {
            start_title_block: 5,
            start_data_block: 6,
        },
    };
    let title = Block {
        prev_block: 1,
        next_block: 2,
        data: title_from(b"name"),
    };
    let data = Block {
        prev_block: 7,
        next_block: 8,
        data: data_from(b"content"),
    };
    let mut c = Cursor::new(Vec::new());
    header.to_bytes(&mut c).unwrap();
    title.to_bytes(&mut c).unwrap();
    data.to_bytes(&mut c).unwrap();
    assert_eq!(c.len(), 32 + 32 + 128);
    c.set_position(0);
    assert_eq!(Block::<BlockFileHeader>::from_bytes(&mut c), Ok(header));
    assert_eq!(Block::<FileTitle>::from_bytes(&mut c), Ok(title));
    assert_eq!(Block::<FileData>::from_bytes(&mut c), Ok(data));
    // a truncated record is an error, not a panic
    let mut short = Cursor::new(vec![0u8; 31]);
    assert_eq!(
        Block::<FileTitle>::from_bytes(&mut short),
        Err(IoError::UnexpectedEof)
    );
}

#[test]
fn payloads_are_padded_with_zeros() {
    let t = title_from(b"ab");
    assert_eq!(&t.data[..3], &[b'a', b'b', 0]);
    assert_eq!(t.data.len(), 16);
    let d = data_from(&[1u8; 112]);
    assert_eq!(d.data, [1u8; 112]);
}

#[test]
fn trimming_removes_only_the_zeros_at_the_end() {
    assert_eq!(trim_zeros(&[1, 0, 2, 0, 0]), vec![1, 0, 2]);
    assert_eq!(trim_zeros(&[0, 0]), Vec::<u8>::new());
    assert_eq!(trim_zeros(&[]), Vec::<u8>::new());
    assert_eq!(trim_zeros(&[5]), vec![5]);
    assert!(same_bytes(&[1, 2], &[1, 2]));
    assert!(!same_bytes(&[1, 2], &[1, 3]));
    assert!(!same_bytes(&[1, 2], &[1]));
}

#[test]
fn errors_convert_into_the_file_system_error() {
    assert_eq!(
        FilesystemError::from(InitializationError::TooSmallForTitleSuperBlock),
        FilesystemError::InitializationError(InitializationError::TooSmallForTitleSuperBlock)
    );
    assert_eq!(
        FilesystemError::from(GenericError::IO(IoError::UnexpectedEof)),
        FilesystemError::IO(IoError::UnexpectedEof)
    );
}

#[test]
fn entry_with_address_round_trip() {
    let mut header = FileHeader {
        data_addr: 10,
        data_len: 3,
        name: "abc".to_string(),
        addr: 37,
    };
    let mut c = Cursor::new(Vec::new());
    header.write(&mut c).unwrap();
    assert_eq!(c.get_ref(), &vec![10, 0, 3, 0, 3, b'a', b'b', b'c']);
    c.set_position(0);
    assert_eq!(FileHeader::read(&mut c, 37), Ok(header));
}

#[test]
fn entry_errors_name_the_field_that_is_missing() {
    let mut c = Cursor::new(vec![1]);
    assert_eq!(
        FileHeader::read(&mut c, 0),
        Err(FileHeaderError::DataAddress(IoError::UnexpectedEof))
    );
    let mut c = Cursor::new(vec![1, 0, 2]);
    assert_eq!(
        FileHeader::read(&mut c, 0),
        Err(FileHeaderError::DataLength(IoError::UnexpectedEof))
    );
    let mut c = Cursor::new(vec![1, 0, 2, 0]);
    assert_eq!(
        FileHeader::read(&mut c, 0),
        Err(FileHeaderError::FileName(IoError::UnexpectedEof))
    );
    let mut c = Cursor::new(vec![1, 0, 2, 0, 2, b'a']);
    assert_eq!(
        FileHeader::read(&mut c, 0),
        Err(FileHeaderError::FileName(IoError::UnexpectedEof))
    );
    let mut c = Cursor::new(vec![1, 0, 2, 0, 1, 0xff]);
    assert_eq!(
        FileHeader::read(&mut c, 0),
        Err(FileHeaderError::InvalidUTF8)
    );
}

#[test]
fn cursor_refuses_a_write_that_cannot_be_addressed() {
    let mut c = Cursor::new(vec![1, 2]);
    c.set_position(u64::MAX);
    assert_eq!(c.write_all(&[1]), Err(IoError::InvalidInput));
    assert_eq!(c.get_ref(), &vec![1, 2]);
    assert_eq!(c.position(), u64::MAX);
    let main = BlockKindMain::default();
    assert_eq!(main.to_bytes(&mut c), Err(IoError::InvalidInput));
    assert_eq!(c.get_ref(), &vec![1, 2]);
    assert_eq!(
        IoError::InvalidInput.message(),
        "position exceeds the largest possible length of a store"
    );
}
