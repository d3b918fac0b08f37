//! Rewriting an in-memory archive: removal, round trips, and failure
//! behaviour.

use std::io::{Read, Write};

use ziped::cli::{GlobalOption, OutputOption};
use ziped::remove::Remove;

fn plain_options() -> zip::write::SimpleFileOptions {
    zip::write::SimpleFileOptions::default().compression_method(zip::CompressionMethod::Stored)
}

fn build_archive(entries: &[(&str, &[u8])]) -> Vec<u8> {
    let mut zip = zip::ZipWriter::new(std::io::Cursor::new(Vec::new()));
    for (name, data) in entries {
        zip.start_file(*name, plain_options()).unwrap();
        zip.write_all(data).unwrap();
    }
    zip.finish().unwrap().into_inner()
}

fn read_entries(data: Vec<u8>) -> Vec<(String, Vec<u8>)> {
    let mut archive = zip::ZipArchive::new(std::io::Cursor::new(data)).unwrap();
    let mut out = Vec::new();
    for i in 0..archive.len() {
        let mut file = archive.by_index(i).unwrap();
        let name = String::from_utf8(file.name_raw().to_vec()).unwrap();
        let mut content = Vec::new();
        file.read_to_end(&mut content).unwrap();
        out.push((name, content));
    }
    out
}

fn utf8_options() -> GlobalOption {
    GlobalOption { path_encoding: "utf-8".to_owned(), output: OutputOption::Unspecified }
}

#[test]
fn removing_every_entry_leaves_a_valid_empty_archive() {
    let data = build_archive(&[(
        "a.txt",
        b"alpha".as_slice(),
    ), ("b.txt", b"beta".as_slice()), ("c.txt", b"gamma".as_slice())]);

    let cmd = Remove { filters: vec![String::from("*.txt")] };
    let out = cmd.run(&utf8_options(), data).unwrap();

    let archive = zip::ZipArchive::new(std::io::Cursor::new(out)).unwrap();
    assert_eq!(0, archive.len());
}

#[test]
fn removing_nothing_keeps_names_count_and_content() {
    let data = build_archive(&[(
        "first.txt",
        b"first content".as_slice(),
    ), ("second.bin", b"\x00\x01\x02\x03".as_slice()), ("third/nested.txt", b"third".as_slice())]);

    let cmd = Remove { filters: Vec::new() };
    let out = cmd.run(&utf8_options(), data.clone()).unwrap();

    let before = read_entries(data);
    let after = read_entries(out);
    assert_eq!(before, after);
}

#[test]
fn non_matching_filters_keep_every_entry() {
    let data = build_archive(&[("keep.txt", b"kept".as_slice()), ("also.txt", b"kept too".as_slice())]);

    let cmd = Remove { filters: vec![String::from("*.log"), String::from("nothing-here")] };
    let out = cmd.run(&utf8_options(), data.clone()).unwrap();

    assert_eq!(read_entries(data), read_entries(out));
}

#[test]
fn any_matching_filter_drops_the_entry() {
    let data = build_archive(&[(
        "notes.txt",
        b"notes".as_slice(),
    ), ("image.png", b"png bytes".as_slice()), ("music.ogg", b"ogg bytes".as_slice())]);

    let cmd = Remove { filters: vec![String::from("*.png"), String::from("music.*")] };
    let out = cmd.run(&utf8_options(), data).unwrap();

    let names: Vec<String> = read_entries(out).into_iter().map(|e| e.0).collect();
    assert_eq!(vec![String::from("notes.txt")], names);
}

#[test]
fn question_mark_matches_exactly_one_character() {
    let data = build_archive(&[("a1.txt", b"one".as_slice()), ("a22.txt", b"two".as_slice())]);

    let cmd = Remove { filters: vec![String::from("a?.txt")] };
    let out = cmd.run(&utf8_options(), data).unwrap();

    let names: Vec<String> = read_entries(out).into_iter().map(|e| e.0).collect();
    assert_eq!(vec![String::from("a22.txt")], names);
}

#[test]
fn removal_of_unknown_encoding_fails_fast() {
    let data = build_archive(&[("a.txt", b"alpha".as_slice())]);

    let cmd = Remove { filters: vec![String::from("*")] };
    let opt = GlobalOption { path_encoding: "bogus".to_owned(), output: OutputOption::Unspecified };

    let err = cmd.run(&opt, data).unwrap_err();
    assert_eq!("Invalid path encoding 'bogus'", err.message());
}

#[test]
fn a_failed_rewrite_yields_no_output_archive() {
    // A central directory that points at a local header full of zeros:
    // opening succeeds, transplanting the entry cannot.
    let name = b"broken.txt";
    let mut bytes = vec![0u8; 64];
    let cd_offset = bytes.len() as u32;
    let mut central: Vec<u8> = Vec::new();
    central.extend_from_slice(&[0x50, 0x4b, 0x01, 0x02]);
    central.extend_from_slice(&[20, 0, 20, 0, 0, 0, 0, 0]);
    central.extend_from_slice(&[0, 0, 0x21, 0, 0, 0, 0, 0]);
    central.extend_from_slice(&[0, 0, 0, 0, 0, 0, 0, 0]);
    central.extend_from_slice(&(name.len() as u16).to_le_bytes());
    central.extend_from_slice(&[0, 0, 0, 0, 0, 0, 0, 0]);
    central.extend_from_slice(&[0, 0, 0, 0]);
    central.extend_from_slice(&8u32.to_le_bytes());
    central.extend_from_slice(name);
    let cd_size = central.len() as u32;
    bytes.extend_from_slice(&central);
    bytes.extend_from_slice(&[0x50, 0x4b, 0x05, 0x06, 0, 0, 0, 0]);
    bytes.extend_from_slice(&1u16.to_le_bytes());
    bytes.extend_from_slice(&1u16.to_le_bytes());
    bytes.extend_from_slice(&cd_size.to_le_bytes());
    bytes.extend_from_slice(&cd_offset.to_le_bytes());
    bytes.extend_from_slice(&[0, 0]);

    let cmd = Remove { filters: vec![String::from("*.log")] };
    let result = cmd.run(&utf8_options(), bytes);
    assert!(result.is_err());
}
