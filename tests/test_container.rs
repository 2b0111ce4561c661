use anyreader::container::{is_safe_relative, join, FileItem, FileKind, SizeHint};
use anyreader::error::ReadError;
use anyreader::source::ByteSource;
use anyreader::walk::{iterate_archive, recursive_read};
use std::io::Write;

const DATA: &[u8] = b"hello world";

fn gzip_data(data: &[u8]) -> Vec<u8> {
    let mut encoder = flate2::write::GzEncoder::new(Vec::new(), flate2::Compression::default());
    encoder.write_all(data).unwrap();
    encoder.finish().unwrap()
}

fn zstd_data(data: Vec<u8>) -> Vec<u8> {
    zstd::encode_all(data.as_slice(), 1).unwrap()
}

fn xz_data(data: Vec<u8>) -> Vec<u8> {
    let mut encoder = liblzma::write::XzEncoder::new(Vec::new(), 1);
    encoder.write_all(&data).unwrap();
    encoder.finish().unwrap()
}

fn tar_archive<const K: usize>(entries: [(&str, Vec<u8>); K]) -> Vec<u8> {
    let mut builder = tar::Builder::new(Vec::new());
    for (name, data) in entries {
        let mut header = tar::Header::new_gnu();
        header.set_size(data.len() as u64);
        header.set_mode(0o644);
        header.set_entry_type(tar::EntryType::Regular);
        header.set_cksum();
        builder.append_data(&mut header, name, data.as_slice()).unwrap();
    }
    builder.into_inner().unwrap()
}

fn zip_archive<const K: usize>(entries: [(&str, Vec<u8>); K]) -> Vec<u8> {
    let mut writer = zip::ZipWriter::new(std::io::Cursor::new(Vec::new()));
    for (name, data) in entries {
        writer
            .start_file(name, zip::write::SimpleFileOptions::default())
            .unwrap();
        writer.write_all(&data).unwrap();
    }
    writer.finish().unwrap().into_inner()
}

fn leaves(data: &[u8]) -> Result<Vec<FileItem>, ReadError> {
    recursive_read("root", ByteSource::from_slice(data))
}

fn process(data: &[u8]) -> Vec<(String, Vec<u8>)> {
    leaves(data)
        .unwrap()
        .into_iter()
        .map(|item| (item.path, item.reader.read_to_end()))
        .collect()
}

#[test]
fn test_tar() {
    let archive: Vec<u8> = tar_archive([
        ("file-1", xz_data(zstd_data(gzip_data(DATA)))),
        ("inner", tar_archive([("file-2", DATA.to_vec())])),
    ]);
    let x = process(archive.as_slice());
    assert_eq!(
        x,
        vec![
            ("root/file-1".into(), DATA.to_vec()),
            ("root/inner/file-2".into(), DATA.to_vec()),
        ]
    );
}

#[test]
fn test_zip() {
    let archive: Vec<u8> = zip_archive([
        ("file-1", xz_data(zstd_data(gzip_data(DATA)))),
        ("inner", zip_archive([("file-2", DATA.to_vec())])),
    ]);
    let x = process(archive.as_slice());
    assert_eq!(
        x,
        vec![
            ("root/file-1".into(), DATA.to_vec()),
            ("root/inner/file-2".into(), DATA.to_vec()),
        ]
    );
}

#[test]
fn test_mixed() {
    let archive: Vec<u8> = zip_archive([
        ("file-1", xz_data(zstd_data(gzip_data(DATA)))),
        ("inner", tar_archive([("file-2", DATA.to_vec())])),
    ]);
    let x = process(archive.as_slice());
    assert_eq!(
        x,
        vec![
            ("root/file-1".into(), DATA.to_vec()),
            ("root/inner/file-2".into(), DATA.to_vec()),
        ]
    );
}

#[test]
fn test_text() {
    let x = process(DATA);
    assert_eq!(x, vec![("root".into(), DATA.to_vec())]);
}

#[test]
fn plain_leaf_keeps_bytes_kind_and_unknown_hint() {
    let items = leaves(DATA).unwrap();
    assert_eq!(items.len(), 1);
    assert_eq!(items[0].kind, FileKind::File);
    assert_eq!(items[0].size_hint, SizeHint::Unknown);
}

#[test]
fn empty_input_is_one_empty_leaf() {
    let x = process(b"");
    assert_eq!(x, vec![("root".into(), Vec::new())]);
}

#[test]
fn nested_tar_paths_are_hierarchical() {
    let inner = tar_archive([("b", DATA.to_vec())]);
    let outer = tar_archive([("a", inner)]);
    let x = process(outer.as_slice());
    assert_eq!(x, vec![("root/a/b".into(), DATA.to_vec())]);
}

#[test]
fn stacked_codecs_in_zip_report_outer_compressed_size() {
    let compressed = xz_data(zstd_data(gzip_data(DATA)));
    let n = compressed.len() as u64;
    let archive = zip_archive([("deep", compressed)]);
    let items = leaves(archive.as_slice()).unwrap();
    assert_eq!(items.len(), 1);
    assert_eq!(items[0].path, "root/deep");
    assert_eq!(items[0].size_hint, SizeHint::CompressedSize(n));
    let content = items.into_iter().next().unwrap().reader.read_to_end();
    assert_eq!(content, DATA.to_vec());
}

#[test]
fn plain_tar_entry_has_exact_size() {
    let archive = tar_archive([("x", DATA.to_vec())]);
    let items = leaves(archive.as_slice()).unwrap();
    assert_eq!(items.len(), 1);
    assert_eq!(items[0].size_hint, SizeHint::Exact(DATA.len() as u64));
    assert_eq!(items[0].kind, FileKind::File);
}

#[test]
fn compressed_archive_is_entered() {
    let archive = gzip_data(&tar_archive([("x", DATA.to_vec())]));
    let x = process(archive.as_slice());
    assert_eq!(x, vec![("root/x".into(), DATA.to_vec())]);
}

#[test]
fn shallow_iteration_leaves_entries_untouched() {
    let compressed = gzip_data(DATA);
    let archive = gzip_data(&tar_archive([("plain", DATA.to_vec()), ("packed", compressed.clone())]));
    let items = iterate_archive(ByteSource::from_slice(&archive)).unwrap();
    let x: Vec<(String, Vec<u8>)> = items
        .into_iter()
        .map(|item| (item.path, item.reader.read_to_end()))
        .collect();
    assert_eq!(
        x,
        vec![("plain".into(), DATA.to_vec()), ("packed".into(), compressed)]
    );
}

#[test]
fn shallow_iteration_does_not_enter_nested_archives() {
    let inner = zip_archive([("file-2", DATA.to_vec())]);
    let archive = tar_archive([("inner", inner.clone())]);
    let items = iterate_archive(ByteSource::from_slice(&archive)).unwrap();
    assert_eq!(items.len(), 1);
    assert_eq!(items[0].path, "inner");
    let content = items.into_iter().next().unwrap().reader.read_to_end();
    assert_eq!(content, inner);
}

#[test]
fn shallow_iteration_of_plain_data_is_not_an_archive() {
    let r = iterate_archive(ByteSource::from_slice(DATA));
    assert!(matches!(r, Err(ReadError::NotAnArchive)));
}

#[test]
fn shallow_iteration_of_compressed_plain_data_is_not_an_archive() {
    let once = gzip_data(DATA);
    let r = iterate_archive(ByteSource::from_slice(&once));
    assert!(matches!(r, Err(ReadError::NotAnArchive)));
    let thrice = xz_data(zstd_data(gzip_data(DATA)));
    let r = iterate_archive(ByteSource::from_slice(&thrice));
    assert!(matches!(r, Err(ReadError::NotAnArchive)));
}

#[test]
fn corrupt_gzip_fails_to_decompress() {
    let mut data = gzip_data(DATA);
    let n = data.len();
    data.truncate(n / 2);
    let r = leaves(&data);
    assert!(matches!(
        r,
        Err(ReadError::Decompress(anyreader::stream::Codec::Gzip))
    ));
}

#[test]
fn zip_entry_escaping_its_directory_is_refused() {
    let archive = zip_archive([("../evil", DATA.to_vec())]);
    let r = leaves(archive.as_slice());
    assert!(matches!(r, Err(ReadError::UnsafePath)));
}

#[test]
fn tar_entry_escaping_its_directory_is_refused() {
    let mut builder = tar::Builder::new(Vec::new());
    let mut header = tar::Header::new_gnu();
    header.set_size(DATA.len() as u64);
    header.set_mode(0o644);
    header.set_entry_type(tar::EntryType::Regular);
    {
        let name = &mut header.as_old_mut().name;
        name[..6].copy_from_slice(b"../bad");
    }
    header.set_cksum();
    builder.append(&header, DATA).unwrap();
    let archive = builder.into_inner().unwrap();
    let r = leaves(archive.as_slice());
    assert!(matches!(r, Err(ReadError::UnsafePath)));
}

#[test]
fn truncated_zip_is_malformed() {
    let archive = zip_archive([("file-1", DATA.to_vec())]);
    let r = leaves(&archive[..40]);
    assert!(matches!(r, Err(ReadError::MalformedEntry)));
}

#[test]
fn tar_directory_entry_is_surfaced_with_its_kind() {
    let mut builder = tar::Builder::new(Vec::new());
    let mut header = tar::Header::new_gnu();
    header.set_size(0);
    header.set_mode(0o755);
    header.set_entry_type(tar::EntryType::Directory);
    header.set_cksum();
    builder.append_data(&mut header, "dir/", &b""[..]).unwrap();
    let archive = builder.into_inner().unwrap();
    let items = leaves(archive.as_slice()).unwrap();
    assert_eq!(items.len(), 1);
    assert_eq!(items[0].kind, FileKind::Directory);
    assert!(items[0].kind.is_directory());
    assert!(!items[0].kind.is_file());
}

#[test]
fn join_adds_one_separator() {
    assert_eq!(join("root", "a"), "root/a");
    assert_eq!(join("root/", "a"), "root/a");
    assert_eq!(join("", "a"), "a");
    assert_eq!(join("root/a", "b/c"), "root/a/b/c");
}

#[test]
fn safe_relative_paths() {
    assert!(is_safe_relative("a/b"));
    assert!(is_safe_relative("a/..b"));
    assert!(is_safe_relative("a/b.."));
    assert!(!is_safe_relative("/etc/passwd"));
    assert!(!is_safe_relative(".."));
    assert!(!is_safe_relative("../x"));
    assert!(is_safe_relative("a/../b"));
    assert!(is_safe_relative("a/./.."));
    assert!(is_safe_relative("./a"));
    assert!(!is_safe_relative("a/../.."));
    assert!(!is_safe_relative("a/../../b"));
    assert!(!is_safe_relative("./.."));
}

#[test]
fn size_hint_degrades_once_and_never_upgrades() {
    assert_eq!(SizeHint::Exact(7).downgrade(), SizeHint::CompressedSize(7));
    assert_eq!(SizeHint::CompressedSize(7).downgrade(), SizeHint::CompressedSize(7));
    assert_eq!(SizeHint::Unknown.downgrade(), SizeHint::Unknown);
}

#[test]
fn file_kind_predicates() {
    assert!(FileKind::File.is_file());
    assert!(FileKind::Directory.is_directory());
    assert!(FileKind::Other.is_other());
    assert!(!FileKind::Other.is_file());
}

#[test]
fn empty_zip_is_plain_data() {
    let archive = zip_archive([]);
    let x = process(archive.as_slice());
    assert_eq!(x, vec![("root".into(), archive.clone())]);
}

#[test]
fn tar_listing_inside_gzip_is_exact() {
    let archive = gzip_data(&tar_archive([("one", b"1".to_vec()), ("two", b"22".to_vec())]));
    let items = iterate_archive(ByteSource::from_slice(&archive)).unwrap();
    let x: Vec<(String, FileKind, SizeHint, Vec<u8>)> = items
        .into_iter()
        .map(|item| (item.path, item.kind, item.size_hint, item.reader.read_to_end()))
        .collect();
    assert_eq!(
        x,
        vec![
            ("one".into(), FileKind::File, SizeHint::Exact(1), b"1".to_vec()),
            ("two".into(), FileKind::File, SizeHint::Exact(2), b"22".to_vec()),
        ]
    );
}

#[test]
fn unsafe_entry_deep_inside_fails_the_walk() {
    let inner = zip_archive([("ok", DATA.to_vec()), ("../evil", DATA.to_vec())]);
    let archive = tar_archive([("first", DATA.to_vec()), ("inner", inner)]);
    let r = leaves(archive.as_slice());
    assert!(matches!(r, Err(ReadError::UnsafePath)));
}
