use rfs::cursor::{Cursor, IoError};
use rfs::filesystem::{
    data_from, title_from, Block, BlockAlign, BlockKind, BlockKindData, BlockKindHeader,
    BlockKindMain, BlockKindTitle, FileHeader, Filesystem, FilesystemError, GenericError,
    InitializationError, PoppedBlock,
};

fn total_size() -> u64 {
    BlockKindMain::super_block_size()
        + BlockKindHeader::super_block_size()
        + BlockKindTitle::super_block_size()
        + BlockKindData::super_block_size()
}

fn fresh() -> Filesystem {
    let mut fs = Filesystem::new(Cursor::new(Vec::new()));
    fs.init(total_size()).unwrap();
    fs
}

#[test]
fn hello_scenario() {
    let mut fs = fresh();
    fs.insert("hello.txt".to_string(), b"Hello, World!").unwrap();
    fs.insert("hello2.txt".to_string(), b"Hello, from the filesystem!").unwrap();
    assert_eq!(fs.read("hello.txt").unwrap(), b"Hello, World!".to_vec());
    assert_eq!(
        fs.list().unwrap(),
        vec!["hello2.txt".to_string(), "hello.txt".to_string()]
    );
}

#[test]
fn geometry_sizes() {
    assert_eq!(BlockKindMain::super_block_size(), 32);
    assert_eq!(BlockKindHeader::super_block_size(), 4112);
    assert_eq!(BlockKindTitle::super_block_size(), 4112);
    assert_eq!(BlockKindData::super_block_size(), 4112);
    assert_eq!(total_size(), 12368);
}

#[test]
fn init_writes_free_pointers() {
    let mut fs = fresh();
    let main = fs.read_main_header().unwrap();
    assert_eq!(main.free_header_ptr, 32 + 16);
    assert_eq!(main.free_title_ptr, 32 + 4112 + 16);
    assert_eq!(main.free_data_ptr, 32 + 4112 + 4112 + 16);
    assert_eq!(main.first_header_ptr, 0);
    assert_eq!(fs.bytes().len(), 12368);
    assert_eq!(fs.bytes()[32], 1);
    assert_eq!(fs.bytes()[4144], 2);
    assert_eq!(fs.bytes()[8256], 3);
}

#[test]
fn init_refuses_small_sizes_by_tier() {
    let cases = [
        (0u64, InitializationError::TooSmallForMainSuperBlock),
        (31, InitializationError::TooSmallForMainSuperBlock),
        (32, InitializationError::TooSmallForHeaderSuperBlock),
        (4143, InitializationError::TooSmallForHeaderSuperBlock),
        (4144, InitializationError::TooSmallForTitleSuperBlock),
        (8255, InitializationError::TooSmallForTitleSuperBlock),
        (8256, InitializationError::TooSmallForDataSuperBlock),
        (12367, InitializationError::TooSmallForDataSuperBlock),
    ];
    for (size, expected) in cases {
        let mut fs = Filesystem::new(Cursor::new(vec![7u8; 5]));
        assert_eq!(
            fs.init(size),
            Err(FilesystemError::InitializationError(expected))
        );
        assert_eq!(fs.bytes(), &vec![7u8; 5]);
    }
    let mut fs = Filesystem::new(Cursor::new(Vec::new()));
    assert_eq!(fs.init(12368), Ok(()));
}

#[test]
fn name_and_content_boundaries() {
    let mut fs = fresh();
    assert_eq!(fs.insert("a".repeat(16), &[1u8; 112]), Ok(()));
    assert_eq!(fs.read(&"a".repeat(16)).unwrap(), vec![1u8; 112]);
    let before = fs.bytes().clone();
    assert_eq!(
        fs.insert("a".repeat(17), b"x"),
        Err(FilesystemError::FileNameTooLarge)
    );
    assert_eq!(
        fs.insert("b".to_string(), &[1u8; 113]),
        Err(FilesystemError::ContentTooLarge)
    );
    assert_eq!(fs.bytes(), &before);
}

#[test]
fn data_blocks_run_out_first() {
    let mut fs = fresh();
    for i in 0..32 {
        assert_eq!(fs.insert(format!("file{i}"), b"content"), Ok(()));
    }
    let before = fs.bytes().clone();
    assert_eq!(
        fs.insert("one more".to_string(), b"content"),
        Err(FilesystemError::ExhaustedFreeList(BlockKind::Data))
    );
    assert_eq!(fs.bytes(), &before);
    let main = fs.read_main_header().unwrap();
    assert_eq!(main.free_data_ptr, 0);
    assert_ne!(main.free_header_ptr, 0);
    assert_ne!(main.free_title_ptr, 0);
    assert_eq!(fs.list().unwrap().len(), 32);
}

#[test]
fn list_is_newest_first() {
    let mut fs = fresh();
    fs.insert("A".to_string(), b"1").unwrap();
    fs.insert("B".to_string(), b"2").unwrap();
    fs.insert("C".to_string(), b"3").unwrap();
    assert_eq!(fs.list().unwrap(), vec!["C", "B", "A"]);
    assert_eq!(
        fs.list_raw().unwrap(),
        vec![b"C".to_vec(), b"B".to_vec(), b"A".to_vec()]
    );
    assert_eq!(fs.enumerate().unwrap().len(), 3);
}

#[test]
fn read_finds_newest_of_equal_names() {
    let mut fs = fresh();
    fs.insert("same".to_string(), b"old").unwrap();
    fs.insert("same".to_string(), b"new").unwrap();
    assert_eq!(fs.read("same").unwrap(), b"new".to_vec());
    assert_eq!(fs.read("other"), Err(FilesystemError::NotFound));
}

#[test]
fn operations_on_a_short_store_fail_with_eof() {
    let mut fs = Filesystem::new(Cursor::new(vec![0u8; 10]));
    assert_eq!(
        fs.insert("a".to_string(), b"b"),
        Err(FilesystemError::IO(IoError::UnexpectedEof))
    );
    assert_eq!(fs.list(), Err(FilesystemError::IO(IoError::UnexpectedEof)));
    assert_eq!(
        fs.read("a"),
        Err(FilesystemError::IO(IoError::UnexpectedEof))
    );
}

#[test]
fn the_store_is_handed_back_as_bytes() {
    let mut fs = Filesystem::new(Cursor::new(vec![1, 2, 3]));
    assert_eq!(fs.bytes(), &vec![1, 2, 3]);
    assert_eq!(
        fs.init(3),
        Err(FilesystemError::InitializationError(
            InitializationError::TooSmallForMainSuperBlock
        ))
    );
    assert_eq!(fs.into_bytes(), vec![1, 2, 3]);
}

#[test]
fn init_keeps_what_lies_behind_the_size() {
    let mut fs = Filesystem::new(Cursor::new(vec![9u8; 12400]));
    fs.init(12380).unwrap();
    let bytes = fs.bytes();
    assert_eq!(bytes.len(), 12400);
    assert!(bytes[12368..12380].iter().all(|b| *b == 0));
    assert!(bytes[12380..].iter().all(|b| *b == 9));
}

#[test]
fn free_chains_run_in_address_order() {
    let mut fs = fresh();
    let first = fs.read_header_block(48).unwrap().unwrap();
    assert_eq!((first.prev_block, first.next_block), (0, 80));
    assert_eq!(first.data, FileHeader::default());
    let second = fs.read_header_block(80).unwrap().unwrap();
    assert_eq!((second.prev_block, second.next_block), (48, 112));
    let last = fs.read_header_block(48 + 127 * 32).unwrap().unwrap();
    assert_eq!((last.prev_block, last.next_block), (48 + 126 * 32, 0));
    let title = fs.read_title_block(4160 + 32).unwrap().unwrap();
    assert_eq!((title.prev_block, title.next_block), (4160, 4160 + 64));
    assert_eq!(title.data.data, [0u8; 16]);
    let data = fs.read_data_block(8272 + 31 * 128).unwrap().unwrap();
    assert_eq!((data.prev_block, data.next_block), (8272 + 30 * 128, 0));
    assert_eq!(data.data.data, [0u8; 112]);
    assert_eq!(fs.read_header_block(0), Ok(None));
    assert_eq!(fs.read_title_block(0), Ok(None));
    assert_eq!(fs.read_data_block(0), Ok(None));
    assert_eq!(
        fs.read_data_block(12368 - 127),
        Err(GenericError::IO(IoError::UnexpectedEof))
    );
}

#[test]
fn pop_hands_out_the_head_and_moves_it_on() {
    let mut fs = fresh();
    let mut main = fs.read_main_header().unwrap();
    let popped = fs.pop(&mut main, BlockKind::Data).unwrap();
    assert_eq!(
        popped,
        PoppedBlock {
            addr: 8272,
            prev_block: 0,
            next_block: 8272 + 128
        }
    );
    assert_eq!(main.free_data_ptr, 8272 + 128);
    assert_eq!(main.free_header_ptr, 48);
    main.free_title_ptr = 0;
    assert_eq!(
        fs.pop(&mut main, BlockKind::Title),
        Err(FilesystemError::ExhaustedFreeList(BlockKind::Title))
    );
    main.free_header_ptr = 12368 - 31;
    assert_eq!(
        fs.pop(&mut main, BlockKind::Header),
        Err(FilesystemError::IO(IoError::UnexpectedEof))
    );
    main.free_header_ptr = 0;
    assert_eq!(
        fs.pop(&mut main, BlockKind::Header),
        Err(FilesystemError::ExhaustedFreeList(BlockKind::Header))
    );
}

#[test]
fn insert_names_the_first_chain_that_is_empty() {
    let mut fs = fresh();
    let mut main = fs.read_main_header().unwrap();
    main.free_header_ptr = 0;
    main.free_data_ptr = 0;
    fs.write_main_header(main).unwrap();
    assert_eq!(
        fs.insert("a".to_string(), b"1"),
        Err(FilesystemError::ExhaustedFreeList(BlockKind::Header))
    );
    main.free_header_ptr = 48;
    main.free_title_ptr = 0;
    fs.write_main_header(main).unwrap();
    assert_eq!(
        fs.insert("a".to_string(), b"1"),
        Err(FilesystemError::ExhaustedFreeList(BlockKind::Title))
    );
}

#[test]
fn insert_writes_the_documented_blocks() {
    let mut fs = fresh();
    fs.insert("a".to_string(), b"xyz").unwrap();
    fs.insert("b".to_string(), b"").unwrap();
    let main = fs.read_main_header().unwrap();
    assert_eq!(main.free_header_ptr, 48 + 64);
    assert_eq!(main.free_title_ptr, 4160 + 64);
    assert_eq!(main.free_data_ptr, 8272 + 256);
    assert_eq!(main.first_header_ptr, 48 + 32);
    let newest = fs.read_header_block(48 + 32).unwrap().unwrap();
    assert_eq!(newest.next_block, 48);
    assert_eq!(newest.prev_block, 48);
    assert_eq!(newest.data.start_title_block, 4160 + 32);
    assert_eq!(newest.data.start_data_block, 8272 + 128);
    let oldest = fs.read_header_block(48).unwrap().unwrap();
    assert_eq!(oldest.next_block, 0);
    assert_eq!(oldest.data.start_title_block, 4160);
    assert_eq!(oldest.data.start_data_block, 8272);
    let title = fs.read_title_block(4160).unwrap().unwrap();
    assert_eq!(title.data, title_from(b"a"));
    assert_eq!((title.prev_block, title.next_block), (0, 4160 + 32));
    let data = fs.read_data_block(8272).unwrap().unwrap();
    assert_eq!(data.data, data_from(b"xyz"));
    assert_eq!(fs.read("b").unwrap(), Vec::<u8>::new());
    assert_eq!(fs.find_by_name("a").unwrap(), Some(oldest));
    assert_eq!(fs.find_by_name("c").unwrap(), None);
}

#[test]
fn a_name_that_is_no_text_is_listed_raw_only() {
    let mut fs = fresh();
    fs.insert("a".to_string(), b"1").unwrap();
    let block = Block {
        prev_block: 0,
        next_block: 0,
        data: title_from(&[0xff, 0xfe]),
    };
    fs.write_title_block(4160, block).unwrap();
    assert_eq!(fs.list_raw().unwrap(), vec![vec![0xff, 0xfe]]);
    assert_eq!(fs.list(), Err(FilesystemError::IO(IoError::InvalidData)));
}

#[test]
fn a_chain_that_runs_in_a_circle_is_refused() {
    let mut fs = fresh();
    fs.insert("a".to_string(), b"1").unwrap();
    let mut block = fs.read_header_block(48).unwrap().unwrap();
    block.next_block = 48;
    fs.write_header_block(48, block).unwrap();
    assert_eq!(
        fs.enumerate(),
        Err(FilesystemError::IO(IoError::InvalidData))
    );
    assert_eq!(fs.list(), Err(FilesystemError::IO(IoError::InvalidData)));
    assert_eq!(
        fs.read("zz"),
        Err(FilesystemError::IO(IoError::InvalidData))
    );
    assert_eq!(fs.read("a").unwrap(), b"1".to_vec());
}

#[test]
fn prepend_links_the_block_to_the_old_head() {
    let mut fs = fresh();
    let mut main = fs.read_main_header().unwrap();
    main.first_header_ptr = 80;
    let block = Block {
        prev_block: 5,
        next_block: 77,
        data: FileHeader {
            start_title_block: 1,
            start_data_block: 2,
        },
    };
    fs.prepend(&mut main, 48, block).unwrap();
    assert_eq!(main.first_header_ptr, 48);
    let written = fs.read_header_block(48).unwrap().unwrap();
    assert_eq!(written.next_block, 80);
    assert_eq!(written.prev_block, 5);
    assert_eq!(written.data, block.data);
}

#[test]
fn names_and_contents_with_zeros_at_the_end_lose_them() {
    let mut fs = fresh();
    fs.insert("a\0".to_string(), &[1, 0, 2, 0, 0]).unwrap();
    assert_eq!(fs.list().unwrap(), vec!["a"]);
    assert_eq!(fs.read("a").unwrap(), vec![1, 0, 2]);
    assert_eq!(fs.read("a\0"), Err(FilesystemError::NotFound));
}

#[test]
fn error_messages() {
    assert_eq!(
        FilesystemError::InitializationError(InitializationError::TooSmallForDataSuperBlock)
            .message(),
        "filesystem size is too small to allocate a data superblock"
    );
    assert_eq!(
        InitializationError::TooSmallForMainSuperBlock.message(),
        "filesystem size is too small to allocate a main superblock"
    );
    assert_eq!(
        FilesystemError::ExhaustedFreeList(BlockKind::Data).message(),
        "no free data block is left"
    );
    assert_eq!(
        GenericError::IO(IoError::UnexpectedEof).message(),
        "failed to fill whole buffer"
    );
}
