//! Tests of path recognition, URI derivation, hashing and timestamps.

use bookdb::hash::xxh3_bytes;
use bookdb::model::FileFormat;
use bookdb::scan::{file_name, format_of_path, is_epub};
use bookdb::util::{file_uri, now_iso8601};

#[test]
fn recognizes_epub_and_pdf_extensions() {
    assert!(is_epub(&String::from("/books/novel.epub")));
    assert!(is_epub(&String::from("/books/paper.pdf")));
    assert!(is_epub(&String::from("/books/NOVEL.EPUB")));
    assert!(is_epub(&String::from("/books/Paper.Pdf")));
    assert!(!is_epub(&String::from("/books/notes.txt")));
    assert!(!is_epub(&String::from("/books/noext")));
    assert!(!is_epub(&String::from("/books/archive.epub.gz")));
}

#[test]
fn hidden_files_and_odd_dots_have_no_extension() {
    // A leading dot marks a hidden file, not an extension.
    assert!(!is_epub(&String::from("/books/.epub")));
    // A dot only in a directory name is not an extension either.
    assert!(!is_epub(&String::from("/dir.epub/file")));
    // A trailing dot leaves an empty extension.
    assert!(!is_epub(&String::from("/books/file.")));
}

#[test]
fn format_is_pdf_only_for_pdf_extensions() {
    assert_eq!(format_of_path(&String::from("/b/x.pdf")), FileFormat::Pdf);
    assert_eq!(format_of_path(&String::from("/b/x.PDF")), FileFormat::Pdf);
    assert_eq!(format_of_path(&String::from("/b/x.epub")), FileFormat::Epub);
    // Anything that is not a pdf extension is indexed as EPUB.
    assert_eq!(format_of_path(&String::from("/b/x")), FileFormat::Epub);
}

#[test]
fn file_name_is_the_final_component() {
    assert_eq!(file_name(&String::from("/a/b/c.epub")), "c.epub");
    assert_eq!(file_name(&String::from("c.epub")), "c.epub");
    assert_eq!(file_name(&String::from("/a/b/")), "");
}

#[test]
fn file_uri_of_absolute_path() {
    assert_eq!(file_uri(&String::from("/books/a.epub")), "file:///books/a.epub");
}

#[test]
fn file_uri_of_relative_path_is_empty() {
    assert_eq!(file_uri(&String::from("not-absolute.epub")), "");
}

#[test]
fn xxh3_distinguishes_contents_and_is_stable() {
    let a = xxh3_bytes(b"some epub bytes");
    let b = xxh3_bytes(b"other epub bytes");
    let a_again = xxh3_bytes(b"some epub bytes");
    assert_eq!(a, a_again);
    assert_ne!(a, b);
    assert_ne!(a, 0);
    // Known one-shot XXH3-128 value of the empty input, from the xxHash
    // reference implementation.
    assert_eq!(xxh3_bytes(b""), 0x99aa06d3014798d86001c324468d497f);
}

#[test]
fn now_is_nonempty_rfc3339() {
    let t = now_iso8601();
    assert!(!t.is_empty());
    assert!(t.contains('T'));
}
