use segindex::directory::{Directory, SeekableWrite};
use segindex::errors::{FileError, OpenWriteError};
use segindex::ram_directory::RamDirectory;

const TEST_PATH: &[u8] = b"some_path_for_test";

fn test_simple(directory: &mut RamDirectory) {
    let mut write_file = directory.open_write(TEST_PATH).unwrap();
    write_file.write_all(&[4]);
    write_file.write_all(&[3]);
    write_file.write_all(&[7, 3, 5]);
    directory.flush_write(write_file).unwrap();
    let read_file = directory.open_read(TEST_PATH).unwrap();
    let data: &[u8] = read_file.as_slice();
    assert_eq!(data, &[4u8, 3u8, 7u8, 3u8, 5u8]);
    assert!(directory.delete(TEST_PATH).is_ok());
}

fn test_seek(directory: &mut RamDirectory) {
    let mut write_file = directory.open_write(TEST_PATH).unwrap();
    write_file.write_all(&[4, 3, 7, 3, 5]);
    write_file.seek(0);
    write_file.write_all(&[3, 1]);
    directory.flush_write(write_file).unwrap();
    let read_file = directory.open_read(TEST_PATH).unwrap();
    let data: &[u8] = read_file.as_slice();
    assert_eq!(data, &[3u8, 1u8, 7u8, 3u8, 5u8]);
    assert!(directory.delete(TEST_PATH).is_ok());
}

fn test_rewrite_forbidden(directory: &mut RamDirectory) {
    directory.open_write(TEST_PATH).unwrap();
    assert!(directory.open_write(TEST_PATH).is_err());
    assert!(matches!(
        directory.open_write(TEST_PATH),
        Err(OpenWriteError::FileAlreadyExists)
    ));
    assert!(directory.delete(TEST_PATH).is_ok());
}

fn test_write_create_the_file(directory: &mut RamDirectory) {
    assert!(directory.open_read(TEST_PATH).is_err());
    let _w = directory.open_write(TEST_PATH).unwrap();
    assert!(directory.open_read(TEST_PATH).is_ok());
    assert!(directory.delete(TEST_PATH).is_ok());
}

fn test_delete(directory: &mut RamDirectory) {
    assert!(directory.open_read(TEST_PATH).is_err());
    let mut write_file = directory.open_write(TEST_PATH).unwrap();
    write_file.write_all(&[1, 2, 3, 4]);
    directory.flush_write(write_file).unwrap();
    let read_handle = directory.open_read(TEST_PATH).unwrap();
    assert_eq!(read_handle.as_slice(), &[1u8, 2u8, 3u8, 4u8]);
    assert!(directory.delete(TEST_PATH).is_ok());
    assert!(directory.delete(b"SomeOtherPath").is_err());
    assert_eq!(read_handle.as_slice(), &[1u8, 2u8, 3u8, 4u8]);
    assert!(directory.open_read(TEST_PATH).is_err());
}

fn test_directory(directory: &mut RamDirectory) {
    test_simple(directory);
    test_seek(directory);
    test_rewrite_forbidden(directory);
    test_write_create_the_file(directory);
    test_delete(directory);
}

#[test]
fn test_ram_directory() {
    let mut ram_directory = RamDirectory::create();
    test_directory(&mut ram_directory);
}

#[test]
fn open_read_before_any_write_does_not_exist() {
    let ram_directory = RamDirectory::create();
    assert!(matches!(
        ram_directory.open_read(b"never_written"),
        Err(FileError::DoesNotExist)
    ));
}

#[test]
fn delete_unknown_path_does_not_exist() {
    let mut ram_directory = RamDirectory::create();
    assert!(matches!(
        ram_directory.delete(b"never_written"),
        Err(FileError::DoesNotExist)
    ));
}

#[test]
fn atomic_write_replaces_whole_contents() {
    let mut ram_directory = RamDirectory::create();
    ram_directory.atomic_write(b"blob", &[1, 2, 3]).unwrap();
    assert_eq!(
        ram_directory.open_read(b"blob").unwrap().as_slice(),
        &[1u8, 2u8, 3u8]
    );
    ram_directory.atomic_write(b"blob", &[9]).unwrap();
    assert_eq!(ram_directory.open_read(b"blob").unwrap().as_slice(), &[9u8]);
}

#[test]
fn source_survives_atomic_rewrite() {
    let mut ram_directory = RamDirectory::create();
    ram_directory.atomic_write(b"blob", &[1, 2, 3]).unwrap();
    let before = ram_directory.open_read(b"blob").unwrap();
    ram_directory.atomic_write(b"blob", &[7, 8]).unwrap();
    assert_eq!(before.as_slice(), &[1u8, 2u8, 3u8]);
    let after = ram_directory.open_read(b"blob").unwrap();
    assert_eq!(after.as_slice(), &[7u8, 8u8]);
}
