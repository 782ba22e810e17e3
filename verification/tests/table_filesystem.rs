use rfs::cursor::{Cursor, IoError};
use rfs::{
    stream_len, FSHeader, FileDataError, FileHeader, FileHeaderError, FileSystemError, Filesystem,
};

#[test]
fn test_create_file() {
    let mut filesystem = Filesystem::new(None);

    let title = "test.txt";
    let content = "This is a test.";

    filesystem.load();
    filesystem
        .create_file(title.to_string(), content.to_string())
        .unwrap();

    // The filesystem should contain space for all file headers, the filesystem header itself, and the data
    assert_eq!(
        stream_len(&mut filesystem.memcache).unwrap() as usize,
        Filesystem::TABLE_SIZE + content.len()
    );
}

#[test]
fn test_create_different_files() {
    let mut filesystem = Filesystem::new(None);

    let title = "test.txt";
    let content = "This is a test.";

    let title2 = "test2.txt";
    let content2 = "This is another test.";

    filesystem.load();
    let header = filesystem
        .create_file(title.to_string(), content.to_string())
        .unwrap();
    let header2 = filesystem
        .create_file(title2.to_string(), content2.to_string())
        .unwrap();

    // The filesystem should contain space for all file headers, the filesystem header itself, and the data
    assert_eq!(
        stream_len(&mut filesystem.memcache).unwrap() as usize,
        Filesystem::TABLE_SIZE + content.len() + content2.len()
    );

    // The first header should contain the first data
    let data = filesystem.get_file_data(header).unwrap();
    assert_eq!(data, content);

    // The second header should contain the second data
    let data2 = filesystem.get_file_data(header2).unwrap();
    assert_eq!(data2, content2);
}

#[test]
fn test_too_many_headers() {
    let mut filesystem = Filesystem::new(None);

    let title = "test.txt";
    let content = "This is a test.";

    filesystem.load();

    // Create the maximum number of files
    for i in 0..Filesystem::TOTAL_HEADERS {
        filesystem
            .create_file(format!("{title}{i}"), content.to_string())
            .unwrap();
    }

    // Try to create another file
    let result = filesystem.create_file(title.to_string(), content.to_string());

    // The filesystem should return an error
    assert!(matches!(result, Err(FileSystemError::NoMoreSpaceInTable)));
}

#[test]
fn test_file_name_too_large() {
    let mut filesystem = Filesystem::new(None);

    let title = "this is a file with a name that is too large.txt";
    let content = "This is a test.";

    filesystem.load();

    // Create a file with a name that is too large
    let result = filesystem.create_file(title.to_string(), content.to_string());

    // The filesystem should return an error
    assert!(matches!(result, Err(FileSystemError::FileNameTooLarge)));
}

#[test]
fn test_overwrite_with_same_name() {
    let mut filesystem = Filesystem::new(None);

    let title = "test.txt";
    let content = "This is a test.";
    let content2 = "This is another test.";

    filesystem.load();
    let header = filesystem
        .create_file(title.to_string(), content.to_string())
        .unwrap();
    let header2 = filesystem
        .create_file(title.to_string(), content2.to_string())
        .unwrap();

    // The filesystem should contain the new and old data
    assert_eq!(
        stream_len(&mut filesystem.memcache).unwrap() as usize,
        Filesystem::TABLE_SIZE + content.len() + content2.len()
    );

    // The first header should contain the first data
    let data = filesystem.get_file_data(header).unwrap();
    assert_eq!(data, content);

    // The second header should contain the second data
    let data2 = filesystem.get_file_data(header2).unwrap();
    assert_eq!(data2, content2);
}

#[test]
fn table_constants() {
    assert_eq!(Filesystem::FS_HEADER_SIZE, 16);
    assert_eq!(Filesystem::FILENAME_SIZE, 16);
    assert_eq!(Filesystem::TABLE_ALIGN, 21);
    assert_eq!(Filesystem::TOTAL_HEADERS, 10);
    assert_eq!(Filesystem::TABLE_SIZE, 226);
}

#[test]
fn new_keeps_the_path_and_starts_empty() {
    let fs = Filesystem::new(Some("disk.bin"));
    assert_eq!(fs.path.as_deref(), Some("disk.bin"));
    assert_eq!(fs.memcache.get_ref().len(), 0);
    let fs = Filesystem::new(None);
    assert_eq!(fs.path, None);
}

#[test]
fn load_fills_an_empty_store_and_keeps_any_other() {
    let mut fs = Filesystem::new(None);
    fs.load();
    assert_eq!(fs.memcache.get_ref(), &vec![0u8; 226]);
    fs.create_file("a".to_string(), "xyz".to_string()).unwrap();
    let before = fs.memcache.get_ref().clone();
    fs.load();
    assert_eq!(fs.memcache.get_ref(), &before);
}

#[test]
fn create_file_writes_the_documented_bytes() {
    let mut fs = Filesystem::new(None);
    fs.load();
    let h1 = fs.create_file("a".to_string(), "xyz".to_string()).unwrap();
    assert_eq!(h1.data_addr, 0);
    assert_eq!(h1.data_len, 3);
    assert_eq!(h1.name, "a");
    let h2 = fs.create_file("bc".to_string(), "hello".to_string()).unwrap();
    assert_eq!(h2.data_addr, 3);
    assert_eq!(h2.data_len, 5);
    let bytes = fs.memcache.get_ref();
    // the record at the start: two entries in use, eight bytes of data
    assert_eq!(&bytes[0..3], &[2, 8, 0]);
    // the first entry
    assert_eq!(&bytes[16..22], &[0, 0, 3, 0, 1, b'a']);
    // the second entry
    assert_eq!(&bytes[37..44], &[3, 0, 5, 0, 2, b'b', b'c']);
    // the data area
    assert_eq!(&bytes[226..234], b"xyzhello");
    assert_eq!(bytes.len(), 234);
}

#[test]
fn overwriting_reuses_the_entry_but_not_the_data() {
    let mut fs = Filesystem::new(None);
    fs.load();
    fs.create_file("a".to_string(), "one".to_string()).unwrap();
    fs.create_file("b".to_string(), "two".to_string()).unwrap();
    let h = fs.create_file("a".to_string(), "three".to_string()).unwrap();
    assert_eq!(h.data_addr, 6);
    let bytes = fs.memcache.get_ref().clone();
    assert_eq!(&bytes[0..3], &[2, 11, 0]);
    assert_eq!(&bytes[16..22], &[6, 0, 5, 0, 1, b'a']);
    assert_eq!(fs.get_file_header_addr("a".to_string()).unwrap(), Some(16));
    assert_eq!(fs.get_file_header_addr("b".to_string()).unwrap(), Some(37));
    assert_eq!(fs.get_file_header_addr("zz".to_string()).unwrap(), None);
    let found = fs.get_file_header("b".to_string()).unwrap().unwrap();
    assert_eq!(found.data_addr, 3);
    assert_eq!(fs.get_file_data(found).unwrap(), "two");
    assert!(fs.get_file_header("zz".to_string()).unwrap().is_none());
    assert_eq!(fs.scan_headers().unwrap().len(), 10);
}

#[test]
fn a_name_of_sixteen_bytes_is_accepted_in_the_table() {
    let mut fs = Filesystem::new(None);
    fs.load();
    assert!(fs.create_file("a".repeat(16), "x".to_string()).is_ok());
    assert!(matches!(
        fs.create_file("a".repeat(17), "x".to_string()),
        Err(FileSystemError::FileNameTooLarge)
    ));
}

#[test]
fn scan_of_a_short_table_fails() {
    let mut fs = Filesystem::new(None);
    fs.memcache = Cursor::new(vec![0u8; 17]);
    assert_eq!(
        fs.scan_headers(),
        Err(FileHeaderError::DataAddress(IoError::UnexpectedEof))
    );
    fs.memcache = Cursor::new(vec![0u8; 19]);
    assert_eq!(
        fs.scan_headers(),
        Err(FileHeaderError::DataLength(IoError::UnexpectedEof))
    );
    fs.memcache = Cursor::new(vec![0u8; 20]);
    assert_eq!(
        fs.scan_headers(),
        Err(FileHeaderError::FileName(IoError::UnexpectedEof))
    );
    let mut bytes = vec![0u8; 226];
    bytes[20] = 1;
    bytes[21] = 0xff;
    fs.memcache = Cursor::new(bytes);
    assert_eq!(
        fs.get_file_header("a".to_string()),
        Err(FileHeaderError::InvalidUTF8)
    );
}

#[test]
fn data_that_is_missing_or_no_text_is_an_error() {
    let mut fs = Filesystem::new(None);
    fs.load();
    let missing = FileHeader {
        data_addr: 0,
        data_len: 4,
        name: "a".to_string(),
    };
    assert_eq!(
        fs.get_file_data(missing),
        Err(FileDataError::IO(IoError::UnexpectedEof))
    );
    let mut bytes = vec![0u8; 228];
    bytes[226] = 0xff;
    bytes[227] = 0xfe;
    fs.memcache = Cursor::new(bytes);
    let broken = FileHeader {
        data_addr: 0,
        data_len: 2,
        name: "a".to_string(),
    };
    assert_eq!(fs.get_file_data(broken), Err(FileDataError::InvalidUTF8));
}

#[test]
fn fs_header_round_trip() {
    let mut cursor = Cursor::new(Vec::new());
    let mut header = FSHeader {
        headers: 7,
        free_addr: 0x1234,
    };
    header.write(&mut cursor).unwrap();
    assert_eq!(cursor.get_ref(), &vec![7, 0x34, 0x12]);
    assert_eq!(cursor.position(), 3);
    cursor.set_position(0);
    assert_eq!(FSHeader::read(&mut cursor), Ok(header));
    assert_eq!(FSHeader::read(&mut cursor), Err(IoError::UnexpectedEof));
}

#[test]
fn table_entry_round_trip() {
    let mut cursor = Cursor::new(Vec::new());
    let mut header = FileHeader {
        data_addr: 0x0102,
        data_len: 0x0304,
        name: "héllo".to_string(),
    };
    header.write(&mut cursor).unwrap();
    assert_eq!(
        cursor.get_ref(),
        &vec![2, 1, 4, 3, 6, b'h', 0xc3, 0xa9, b'l', b'l', b'o']
    );
    cursor.set_position(0);
    assert_eq!(FileHeader::read(&mut cursor), Ok(header));
    assert_eq!(cursor.position(), 11);
}

#[test]
fn table_error_messages() {
    assert_eq!(
        FileSystemError::NoMoreSpaceInTable.message(),
        "No more space in the table"
    );
    assert_eq!(
        FileSystemError::FileNameTooLarge.message(),
        "File name is larger than 16 bytes"
    );
    assert_eq!(
        FileHeaderError::DataAddress(IoError::UnexpectedEof).message(),
        "Could not read data address"
    );
    assert_eq!(
        FileHeaderError::DataLength(IoError::UnexpectedEof).message(),
        "Could not read data length"
    );
    assert_eq!(
        FileHeaderError::FileName(IoError::UnexpectedEof).message(),
        "Could not read file name"
    );
}

#[test]
fn positions_after_table_operations() {
    let mut fs = Filesystem::new(None);
    fs.load();
    assert_eq!(fs.memcache.position(), 226);
    fs.create_file("abc".to_string(), "xyz".to_string()).unwrap();
    assert_eq!(fs.memcache.position(), 3);
    fs.scan_headers().unwrap();
    assert_eq!(fs.memcache.position(), 16 + 9 * 21 + 5);
    fs.load();
    assert_eq!(fs.memcache.position(), 0);
}

#[test]
fn checked_create_file_tests_what_create_file_needs() {
    let mut fs = Filesystem::new(None);
    fs.load();
    let first = fs
        .checked_create_file("a".to_string(), "x".repeat(40000))
        .unwrap()
        .unwrap();
    assert_eq!((first.data_addr, first.data_len), (0, 40000));
    let before = fs.memcache.get_ref().clone();
    // the data area has no room for 40000 bytes more
    assert_eq!(fs.checked_create_file("b".to_string(), "x".repeat(40000)), None);
    assert_eq!(fs.memcache.get_ref(), &before);
    assert_eq!(fs.memcache.position(), 3);
    // a file that is refused needs no room
    assert_eq!(
        fs.checked_create_file("b".repeat(17), "x".repeat(40000)),
        Some(Err(FileSystemError::FileNameTooLarge))
    );
    let second = fs
        .checked_create_file("b".to_string(), "x".repeat(25535))
        .unwrap()
        .unwrap();
    assert_eq!((second.data_addr, second.data_len), (40000, 25535));
    assert_eq!(fs.memcache.get_ref().len(), 226 + 65535);
    // a table that cannot be read
    let mut short = Filesystem::new(None);
    short.memcache = Cursor::new(vec![0u8; 100]);
    assert_eq!(short.checked_create_file("a".to_string(), "x".to_string()), None);
    assert_eq!(short.memcache.get_ref(), &vec![0u8; 100]);
}
