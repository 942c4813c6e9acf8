//! Tests of path normalisation and of archive extraction against real
//! tar.gz, tar.xz and zip archives built in memory.

use std::io::Write;

use fetchy::error::Error;
use fetchy::extract::{extract_asset, plan_extraction, simplify_path, ArchiveEntry, TarReader,
    ZipReader};
use fetchy::manifest::{ArchiveFormat, AssetType, BinaryInArchive};
use fetchy::pattern::Pattern;

fn tar_bytes(entries: &[(&str, &[u8])]) -> Vec<u8> {
    let mut builder = tar::Builder::new(Vec::new());
    for (path, data) in entries {
        let mut header = tar::Header::new_gnu();
        header.set_size(data.len() as u64);
        header.set_mode(0o644);
        header.set_cksum();
        builder.append_data(&mut header, path, *data).unwrap();
    }
    builder.into_inner().unwrap()
}

fn gz_bytes(plain: &[u8]) -> Vec<u8> {
    let mut enc = flate2::write::GzEncoder::new(Vec::new(), flate2::Compression::default());
    enc.write_all(plain).unwrap();
    enc.finish().unwrap()
}

fn xz_bytes(plain: &[u8]) -> Vec<u8> {
    let mut enc = xz2::write::XzEncoder::new(Vec::new(), 6);
    enc.write_all(plain).unwrap();
    enc.finish().unwrap()
}

fn zip_bytes(entries: &[(&str, &[u8])]) -> Vec<u8> {
    let mut writer = zip::ZipWriter::new(std::io::Cursor::new(Vec::new()));
    for (path, data) in entries {
        writer
            .start_file(*path, zip::write::SimpleFileOptions::default())
            .unwrap();
        writer.write_all(data).unwrap();
    }
    writer.finish().unwrap().into_inner()
}

fn files(patterns: &[(&str, &str)]) -> Vec<BinaryInArchive> {
    patterns
        .iter()
        .map(|(pat, copy_as)| BinaryInArchive {
            path_matcher: Pattern::parse(pat).unwrap(),
            copy_as: (*copy_as).to_owned(),
        })
        .collect()
}

#[test]
fn simplify_path_normalises() {
    assert_eq!(simplify_path("bin/tool"), "bin/tool");
    assert_eq!(simplify_path("/bin//tool"), "bin/tool");
    assert_eq!(simplify_path("./bin/./tool"), "bin/tool");
    assert_eq!(simplify_path("a/b/../tool"), "a/tool");
    assert_eq!(simplify_path("../../tool"), "tool");
    assert_eq!(simplify_path(""), "");
}

#[test]
fn targz_extraction_yields_matched_binary() {
    let data = gz_bytes(&tar_bytes(&[("pkg/bin/tool", b"#!tool"), ("pkg/README", b"doc")]));
    let typ = AssetType::Archive {
        format: ArchiveFormat::TarGz,
        files: files(&[(".*/tool$", "tool")]),
    };
    let items = extract_asset(&data, &typ).unwrap();
    assert_eq!(items.len(), 1);
    assert_eq!(items[0].bin_name, "tool");
    assert_eq!(items[0].data, b"#!tool");
}

#[test]
fn tarxz_extraction_yields_matched_binary() {
    let data = xz_bytes(&tar_bytes(&[("tool", b"xzpayload")]));
    let typ = AssetType::Archive {
        format: ArchiveFormat::TarXz,
        files: files(&[("^tool$", "tool")]),
    };
    let items = extract_asset(&data, &typ).unwrap();
    assert_eq!(items.len(), 1);
    assert_eq!(items[0].data, b"xzpayload");
}

#[test]
fn zip_extraction_yields_matched_binary() {
    let data = zip_bytes(&[("a/tool.exe", b"zippayload"), ("a/notes.txt", b"n")]);
    let typ = AssetType::Archive {
        format: ArchiveFormat::Zip,
        files: files(&[(r"tool\.exe$", "tool")]),
    };
    let items = extract_asset(&data, &typ).unwrap();
    assert_eq!(items.len(), 1);
    assert_eq!(items[0].bin_name, "tool");
    assert_eq!(items[0].data, b"zippayload");
}

#[test]
fn binary_asset_passes_through() {
    let data = b"hello".to_vec();
    let typ = AssetType::Binary { copy_as: "tool".to_owned() };
    let items = extract_asset(&data, &typ).unwrap();
    assert_eq!(items.len(), 1);
    assert_eq!(items[0].bin_name, "tool");
    assert_eq!(items[0].data, b"hello");
}

#[test]
fn pattern_matching_two_entries_is_fatal() {
    // `bin/tool` and `usr/bin/tool` both match `.*tool$`: no file may be
    // extracted.
    let entries = vec![
        ArchiveEntry { path: "bin/tool".to_owned(), is_file: true, data: b"1".to_vec() },
        ArchiveEntry { path: "usr/bin/tool".to_owned(), is_file: true, data: b"2".to_vec() },
    ];
    let fs = files(&[(".*tool$", "tool")]);
    assert!(matches!(
        plan_extraction(&entries, &fs),
        Err(Error::PatternMatchedMultiple { .. })
    ));
}

#[test]
fn entry_matched_by_two_patterns_is_fatal() {
    let entries = vec![ArchiveEntry {
        path: "bin/tool".to_owned(),
        is_file: true,
        data: b"1".to_vec(),
    }];
    let fs = files(&[(".*tool$", "tool-a"), ("^bin/.*$", "tool-b")]);
    assert!(matches!(
        plan_extraction(&entries, &fs),
        Err(Error::EntryMatchedByMultiplePatterns { .. })
    ));
}

#[test]
fn pattern_matching_nothing_reports_listing() {
    let entries = vec![
        ArchiveEntry { path: "a/x".to_owned(), is_file: true, data: b"1".to_vec() },
        ArchiveEntry { path: "b/y".to_owned(), is_file: false, data: Vec::new() },
    ];
    let fs = files(&[(".*tool$", "tool")]);
    match plan_extraction(&entries, &fs) {
        Err(Error::PatternMatchedNothing { listing, .. }) => {
            // Directories are skipped for matching but listed for diagnosis.
            assert_eq!(listing, vec!["a/x".to_owned(), "b/y".to_owned()]);
        },
        other => panic!("expected PatternMatchedNothing, got {other:?}"),
    }
}

#[test]
fn directories_are_not_matched() {
    let entries = vec![
        ArchiveEntry { path: "tool".to_owned(), is_file: false, data: Vec::new() },
        ArchiveEntry { path: "x/tool".to_owned(), is_file: true, data: b"real".to_vec() },
    ];
    let fs = files(&[(".*tool$", "tool")]);
    let picks = plan_extraction(&entries, &fs).unwrap();
    assert_eq!(picks, vec![1]);
}

#[test]
fn tar_reader_walks_entries() {
    let data = tar_bytes(&[("one", b"1"), ("two", b"22")]);
    let reader = TarReader::new(data);
    let mut iter = reader.iter().unwrap();
    let first = iter.next_file().unwrap();
    assert_eq!(first.path, "one");
    assert_eq!(first.data, b"1");
    let second = iter.next_file().unwrap();
    assert_eq!(second.path, "two");
    assert!(iter.next_file().is_none());
}

#[test]
fn zip_reader_walks_entries() {
    let data = zip_bytes(&[("one", b"1")]);
    let reader = ZipReader::new(data);
    let mut iter = reader.iter().unwrap();
    let first = iter.next_file().unwrap();
    assert_eq!(first.path, "one");
    assert_eq!(first.data, b"1");
    assert!(iter.next_file().is_none());
}

#[test]
fn corrupt_archive_fails_to_open() {
    let typ = AssetType::Archive {
        format: ArchiveFormat::Zip,
        files: files(&[(".*", "x")]),
    };
    assert!(matches!(
        extract_asset(&b"not a zip".to_vec(), &typ),
        Err(Error::ArchiveOpenFailed { .. })
    ));
}
