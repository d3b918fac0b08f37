//! Name decoding: strict UTF-8 first, the configured fallback otherwise,
//! and raw-byte preservation through a rewrite.

use ziped::cli::{GlobalOption, OutputOption};
use ziped::encoding::Codec;
use ziped::list::List;
use ziped::remove::Remove;

/// The Shift-JIS encoding of a three-ideogram file name; not valid UTF-8.
fn sjis_name() -> Vec<u8> {
    let mut name = vec![0x93u8, 0xfa, 0x96, 0x7b, 0x8c, 0xea];
    name.extend_from_slice(b".txt");
    name
}

/// Builds a stored archive whose entries have the given raw name bytes
/// and empty content, written directly in container form so that names
/// need not be valid UTF-8.
fn build_raw_archive(names: &[&[u8]]) -> Vec<u8> {
    let mut bytes: Vec<u8> = Vec::new();
    let mut centrals: Vec<Vec<u8>> = Vec::new();
    for name in names {
        let offset = bytes.len() as u32;
        bytes.extend_from_slice(&[0x50, 0x4b, 0x03, 0x04]);
        bytes.extend_from_slice(&[20, 0, 0, 0, 0, 0]);
        bytes.extend_from_slice(&[0, 0, 0x21, 0]);
        bytes.extend_from_slice(&[0, 0, 0, 0]);
        bytes.extend_from_slice(&[0, 0, 0, 0, 0, 0, 0, 0]);
        bytes.extend_from_slice(&(name.len() as u16).to_le_bytes());
        bytes.extend_from_slice(&[0, 0]);
        bytes.extend_from_slice(name);

        let mut central: Vec<u8> = Vec::new();
        central.extend_from_slice(&[0x50, 0x4b, 0x01, 0x02]);
        central.extend_from_slice(&[20, 0, 20, 0, 0, 0, 0, 0]);
        central.extend_from_slice(&[0, 0, 0x21, 0]);
        central.extend_from_slice(&[0, 0, 0, 0]);
        central.extend_from_slice(&[0, 0, 0, 0, 0, 0, 0, 0]);
        central.extend_from_slice(&(name.len() as u16).to_le_bytes());
        central.extend_from_slice(&[0, 0, 0, 0, 0, 0, 0, 0]);
        central.extend_from_slice(&[0, 0, 0, 0]);
        central.extend_from_slice(&offset.to_le_bytes());
        central.extend_from_slice(name);
        centrals.push(central);
    }
    let cd_offset = bytes.len() as u32;
    let mut cd_size: u32 = 0;
    for central in centrals {
        cd_size += central.len() as u32;
        bytes.extend_from_slice(&central);
    }
    bytes.extend_from_slice(&[0x50, 0x4b, 0x05, 0x06, 0, 0, 0, 0]);
    bytes.extend_from_slice(&(names.len() as u16).to_le_bytes());
    bytes.extend_from_slice(&(names.len() as u16).to_le_bytes());
    bytes.extend_from_slice(&cd_size.to_le_bytes());
    bytes.extend_from_slice(&cd_offset.to_le_bytes());
    bytes.extend_from_slice(&[0, 0]);
    bytes
}

fn sjis_options() -> GlobalOption {
    GlobalOption { path_encoding: "sjis".to_owned(), output: OutputOption::Unspecified }
}

#[test]
fn valid_utf8_names_never_use_the_fallback() {
    // The bytes of a UTF-8 name decode as UTF-8 even under a Shift-JIS
    // fallback, where reinterpretation would corrupt them.
    let name = "caf\u{e9}.txt";
    let data = build_raw_archive(&[name.as_bytes()]);

    let names = List { filter: String::from("*") }.run(&sjis_options(), data).unwrap();
    assert_eq!(vec![String::from(name)], names);
}

#[test]
fn invalid_utf8_names_use_the_configured_fallback() {
    let raw = sjis_name();
    let data = build_raw_archive(&[raw.as_slice()]);

    let names = List { filter: String::from("*") }.run(&sjis_options(), data).unwrap();

    let (expected, _, _) = encoding_rs::SHIFT_JIS.decode(&raw);
    assert_eq!(vec![expected.into_owned()], names);
    assert_eq!(vec![String::from("\u{65e5}\u{672c}\u{8a9e}.txt")], names);
}

#[test]
fn fallback_decoded_names_are_matchable() {
    let raw = sjis_name();
    let data = build_raw_archive(&[raw.as_slice(), b"other.log"]);

    let names = List { filter: String::from("*.txt") }.run(&sjis_options(), data).unwrap();
    assert_eq!(1, names.len());
    assert!(names[0].ends_with(".txt"));
}

#[test]
fn removing_another_entry_preserves_raw_name_bytes() {
    // The surviving entry's stored name must be its original raw bytes,
    // not a re-encoded (different-length) rendering of the decoded name.
    let raw = sjis_name();
    let data = build_raw_archive(&[b"remove-me.txt", raw.as_slice()]);

    let cmd = Remove { filters: vec![String::from("remove-me.txt")] };
    let out = cmd.run(&sjis_options(), data).unwrap();

    let mut archive = zip::ZipArchive::new(std::io::Cursor::new(out)).unwrap();
    assert_eq!(1, archive.len());
    let file = archive.by_index(0).unwrap();
    assert_eq!(raw.as_slice(), file.name_raw());
}

#[test]
fn several_raw_names_survive_one_rewrite() {
    let first = sjis_name();
    let mut second = vec![0x8au8, 0xbf];
    second.extend_from_slice(b".dat");
    let data = build_raw_archive(&[first.as_slice(), b"gone.txt", second.as_slice()]);

    let cmd = Remove { filters: vec![String::from("gone.txt")] };
    let out = cmd.run(&sjis_options(), data).unwrap();

    let mut archive = zip::ZipArchive::new(std::io::Cursor::new(out)).unwrap();
    assert_eq!(2, archive.len());
    assert_eq!(first.as_slice(), archive.by_index(0).unwrap().name_raw());
    assert_eq!(second.as_slice(), archive.by_index(1).unwrap().name_raw());
}

#[test]
fn stand_in_names_avoid_real_names() {
    // The Shift-JIS name is ten bytes long, and a real entry already
    // carries the ten-byte name a first stand-in candidate would use;
    // the rewrite must pick another stand-in and still restore the raw
    // bytes exactly.
    let raw = sjis_name();
    assert_eq!(10, raw.len());
    let decoy = b"0\x7f\x7f\x7f\x7f\x7f\x7f\x7f\x7f\x7f";
    let data = build_raw_archive(&[decoy.as_slice(), b"drop.txt", raw.as_slice()]);

    let cmd = Remove { filters: vec![String::from("drop.txt")] };
    let out = cmd.run(&sjis_options(), data).unwrap();

    let mut archive = zip::ZipArchive::new(std::io::Cursor::new(out)).unwrap();
    assert_eq!(2, archive.len());
    assert_eq!(decoy.as_slice(), archive.by_index(0).unwrap().name_raw());
    assert_eq!(raw.as_slice(), archive.by_index(1).unwrap().name_raw());
}

#[test]
fn stand_in_search_skips_every_taken_candidate() {
    // Nine one-byte digit names are taken; the tenth digit is still free,
    // so the one-byte opaque name can be carried and restored.
    let names: Vec<&[u8]> = vec![
        b"0", b"1", b"2", b"3", b"4", b"5", b"6", b"7", b"8", b"\x80",
    ];
    let data = build_raw_archive(&names);

    let cmd = Remove { filters: vec![String::from("no-such-entry")] };
    let out = cmd.run(&sjis_options(), data).unwrap();

    let mut archive = zip::ZipArchive::new(std::io::Cursor::new(out)).unwrap();
    assert_eq!(10, archive.len());
    assert_eq!(b"\x80".as_slice(), archive.by_index(9).unwrap().name_raw());
}

#[test]
fn exhausted_stand_in_candidates_are_refused() {
    // Every one-byte candidate the stand-in generator can produce is a
    // real entry name, so the opaque one-byte name cannot be carried;
    // the rewrite refuses cleanly instead of corrupting anything.
    let names: Vec<&[u8]> = vec![
        b"0", b"1", b"2", b"3", b"4", b"5", b"6", b"7", b"8", b"9", b"\x80",
    ];
    let data = build_raw_archive(&names);

    let cmd = Remove { filters: vec![String::from("no-such-entry")] };
    let err = cmd.run(&sjis_options(), data).unwrap_err();
    assert_eq!("No stand-in name is free for an entry", err.message());
}

#[test]
fn duplicate_names_collapse_to_one_entry() {
    // The codec keys its directory by raw name: a later entry under the
    // same name replaces the earlier one, at the earlier position.
    let data = build_raw_archive(&[b"twice.txt", b"other.txt", b"twice.txt"]);

    let names = List { filter: String::from("*") }.run(&sjis_options(), data).unwrap();
    assert_eq!(vec![String::from("twice.txt"), String::from("other.txt")], names);
}

#[test]
fn an_empty_archive_rewrites_to_an_empty_archive() {
    let data = build_raw_archive(&[]);

    let cmd = Remove { filters: vec![String::from("*")] };
    let out = cmd.run(&sjis_options(), data).unwrap();

    let archive = zip::ZipArchive::new(std::io::Cursor::new(out)).unwrap();
    assert_eq!(0, archive.len());
}

#[test]
fn known_labels_resolve_and_unknown_labels_fail() {
    assert!(Codec::new("utf-8").is_ok());
    assert!(Codec::new("sjis").is_ok());
    assert!(Codec::new("shift-jis").is_ok());
    assert!(Codec::new("ascii").is_ok());
    let err = match Codec::new("klingon") {
        Err(e) => e,
        Ok(_) => panic!("an unknown label resolved"),
    };
    assert_eq!("Invalid path encoding 'klingon'", err.message());
}

#[test]
fn decode_name_distinguishes_utf8_from_fallback() {
    let codec = Codec::new("sjis").unwrap();
    assert_eq!("plain.txt", codec.decode_name(b"plain.txt"));
    let raw = sjis_name();
    let (expected, _, _) = encoding_rs::SHIFT_JIS.decode(&raw);
    assert_eq!(expected.into_owned(), codec.decode_name(&raw));
}
