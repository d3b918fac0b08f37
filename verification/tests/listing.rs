//! Listing an in-memory archive.

use std::io::Write;

use ziped::cli::{GlobalOption, OutputOption};
use ziped::list::List;

fn setup_reader() -> Vec<u8> {
    let mut zip = zip::ZipWriter::new(std::io::Cursor::new(Vec::new()));

    let options =
        zip::write::SimpleFileOptions::default().compression_method(zip::CompressionMethod::Stored);
    zip.start_file("test01.txt", options).unwrap();
    zip.write(b"test file 01 text").unwrap();
    zip.start_file("test02.txt", options).unwrap();
    zip.write(b"test file 02 text").unwrap();
    zip.start_file("test03.txt", options).unwrap();
    zip.write(b"test file 03 text").unwrap();
    let cursor = zip.finish().unwrap();

    cursor.into_inner()
}

fn rendered(names: Vec<String>) -> String {
    let mut out = String::new();
    for name in names {
        out.push_str(&name);
        out.push('\n');
    }
    out
}

#[test]
fn show_all() {
    let reader = setup_reader();

    let cmd = List { filter: String::from("*") };
    let opt = GlobalOption {
        path_encoding: "sjis".to_owned(),
        output: OutputOption::Unspecified,
    };

    let names = cmd.run(&opt, reader).unwrap();

    assert_eq!("test01.txt\ntest02.txt\ntest03.txt\n", rendered(names));
}

#[test]
fn target_filter() {
    let reader = setup_reader();

    let cmd = List { filter: String::from("*2.txt") };
    let opt = GlobalOption {
        path_encoding: "sjis".to_owned(),
        output: OutputOption::Unspecified,
    };

    let names = cmd.run(&opt, reader).unwrap();

    assert_eq!("test02.txt\n", rendered(names));
}

#[test]
fn filter_picks_exactly_the_matching_name() {
    let mut zip = zip::ZipWriter::new(std::io::Cursor::new(Vec::new()));
    let options =
        zip::write::SimpleFileOptions::default().compression_method(zip::CompressionMethod::Stored);
    zip.start_file("foo1.txt", options).unwrap();
    zip.write(b"one").unwrap();
    zip.start_file("foo2.txt", options).unwrap();
    zip.write(b"two").unwrap();
    let data = zip.finish().unwrap().into_inner();

    let cmd = List { filter: String::from("*2.txt") };
    let opt = GlobalOption {
        path_encoding: "sjis".to_owned(),
        output: OutputOption::Unspecified,
    };

    let names = cmd.run(&opt, data).unwrap();

    assert_eq!(vec![String::from("foo2.txt")], names);
}

#[test]
fn listing_twice_agrees() {
    let data = setup_reader();

    let cmd = List { filter: String::from("*.txt") };
    let opt = GlobalOption {
        path_encoding: "utf-8".to_owned(),
        output: OutputOption::Unspecified,
    };

    let first = cmd.run(&opt, data.clone()).unwrap();
    let second = cmd.run(&opt, data).unwrap();

    assert_eq!(first, second);
}

#[test]
fn unknown_encoding_is_rejected_before_entries() {
    let data = setup_reader();

    let cmd = List { filter: String::from("*") };
    let opt = GlobalOption {
        path_encoding: "no-such-encoding".to_owned(),
        output: OutputOption::Unspecified,
    };

    let err = cmd.run(&opt, data).unwrap_err();
    assert_eq!("Invalid path encoding 'no-such-encoding'", err.message());
}

#[test]
fn an_empty_archive_lists_nothing() {
    let zip = zip::ZipWriter::new(std::io::Cursor::new(Vec::new()));
    let data = zip.finish().unwrap().into_inner();

    let cmd = List { filter: String::from("*") };
    let opt = GlobalOption {
        path_encoding: "utf-8".to_owned(),
        output: OutputOption::Unspecified,
    };

    let names = cmd.run(&opt, data).unwrap();
    assert!(names.is_empty());
}

#[test]
fn garbage_bytes_are_not_an_archive() {
    let cmd = List { filter: String::from("*") };
    let opt = GlobalOption {
        path_encoding: "utf-8".to_owned(),
        output: OutputOption::Unspecified,
    };

    assert!(cmd.run(&opt, b"this is not a zip archive".to_vec()).is_err());
}
