//! Tests of EPUB metadata extraction over in-memory archives.

use std::io::{Cursor, Write};

use bookdb::metadata::{extract_epub_metadata, MetaError};
use zip::write::SimpleFileOptions;
use zip::ZipWriter;

fn zip_of(files: &[(&str, &str)]) -> Vec<u8> {
    let mut w = ZipWriter::new(Cursor::new(Vec::new()));
    for (name, content) in files {
        w.start_file(*name, SimpleFileOptions::default()).unwrap();
        w.write_all(content.as_bytes()).unwrap();
    }
    w.finish().unwrap().into_inner()
}

const CONTAINER: &str = r#"<?xml version="1.0"?>
<container version="1.0" xmlns="urn:oasis:names:tc:opendocument:xmlns:container">
  <rootfiles>
    <rootfile full-path="OEBPS/content.opf" media-type="application/oebps-package+xml"/>
  </rootfiles>
</container>"#;

const OPF: &str = r#"<?xml version="1.0"?>
<package xmlns="http://www.idpf.org/2007/opf" xmlns:dc="http://purl.org/dc/elements/1.1/">
  <metadata>
    <dc:title>  A Title  </dc:title>
    <dc:creator>An Author</dc:creator>
    <dc:description>Words about it</dc:description>
    <dc:publisher>A House</dc:publisher>
    <dc:date>2001-02-03</dc:date>
    <dc:language>en</dc:language>
    <dc:identifier>urn:isbn:123</dc:identifier>
  </metadata>
</package>"#;

#[test]
fn extracts_dublin_core_fields() {
    let data = zip_of(&[("META-INF/container.xml", CONTAINER), ("OEBPS/content.opf", OPF)]);
    let m = extract_epub_metadata(&data).unwrap();
    // Text is trimmed.
    assert_eq!(m.title.as_deref(), Some("A Title"));
    assert_eq!(m.author.as_deref(), Some("An Author"));
    assert_eq!(m.description.as_deref(), Some("Words about it"));
    assert_eq!(m.publisher.as_deref(), Some("A House"));
    assert_eq!(m.publish_date.as_deref(), Some("2001-02-03"));
    assert!(m.chapters.is_empty());
    assert_eq!(
        m.other_metadata,
        vec![
            (String::from("identifier"), String::from("urn:isbn:123")),
            (String::from("language"), String::from("en")),
        ]
    );
}

#[test]
fn missing_fields_stay_absent() {
    let opf = r#"<package><metadata><title>Only This</title></metadata></package>"#;
    let data = zip_of(&[("META-INF/container.xml", CONTAINER), ("OEBPS/content.opf", opf)]);
    let m = extract_epub_metadata(&data).unwrap();
    assert_eq!(m.title.as_deref(), Some("Only This"));
    assert_eq!(m.author, None);
    assert_eq!(m.description, None);
    assert_eq!(m.publisher, None);
    assert_eq!(m.publish_date, None);
    assert!(m.other_metadata.is_empty());
}

#[test]
fn not_an_archive_is_container_missing() {
    let data = b"this is no zip at all".to_vec();
    assert!(matches!(extract_epub_metadata(&data), Err(MetaError::ContainerMissing)));
}

#[test]
fn archive_without_container_is_container_missing() {
    let data = zip_of(&[("mimetype", "application/epub+zip")]);
    assert!(matches!(extract_epub_metadata(&data), Err(MetaError::ContainerMissing)));
}

#[test]
fn malformed_container_is_container_invalid() {
    let data = zip_of(&[("META-INF/container.xml", "<container><unclosed")]);
    assert!(matches!(extract_epub_metadata(&data), Err(MetaError::ContainerInvalid)));
}

#[test]
fn container_without_rootfile_is_rootfile_missing() {
    let data = zip_of(&[("META-INF/container.xml", "<container><rootfiles/></container>")]);
    assert!(matches!(extract_epub_metadata(&data), Err(MetaError::RootfileMissing)));
}

#[test]
fn rootfile_without_full_path_is_rootfile_missing() {
    let data = zip_of(&[(
        "META-INF/container.xml",
        r#"<container><rootfiles><rootfile media-type="x"/></rootfiles></container>"#,
    )]);
    assert!(matches!(extract_epub_metadata(&data), Err(MetaError::RootfileMissing)));
}

#[test]
fn dangling_rootfile_is_opf_missing() {
    let data = zip_of(&[("META-INF/container.xml", CONTAINER)]);
    assert!(matches!(extract_epub_metadata(&data), Err(MetaError::OpfMissing)));
}

#[test]
fn malformed_opf_is_opf_invalid() {
    let data = zip_of(&[
        ("META-INF/container.xml", CONTAINER),
        ("OEBPS/content.opf", "<package><broken"),
    ]);
    assert!(matches!(extract_epub_metadata(&data), Err(MetaError::OpfInvalid)));
}
