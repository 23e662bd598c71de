use std::io::Write;

use audio_haxor::archive::{read_als_xml, read_zip_xml, viewer_text};

fn gz(text: &str) -> Vec<u8> {
    let mut enc = flate2::write::GzEncoder::new(Vec::new(), flate2::Compression::default());
    enc.write_all(text.as_bytes()).unwrap();
    enc.finish().unwrap()
}

fn zip_of(entries: &[(&str, &str)]) -> Vec<u8> {
    let mut w = zip::ZipWriter::new(std::io::Cursor::new(Vec::new()));
    let opts = zip::write::SimpleFileOptions::default().compression_method(zip::CompressionMethod::Stored);
    for (name, body) in entries {
        w.start_file(*name, opts).unwrap();
        w.write_all(body.as_bytes()).unwrap();
    }
    w.finish().unwrap().into_inner()
}

#[test]
fn ableton_sets_are_gunzipped() {
    let xml = "<Ableton><LiveSet/></Ableton>";
    assert_eq!(read_als_xml(&gz(xml)), Some(Ok(xml.to_string())));
    match read_als_xml(b"plain text") {
        Some(Err(m)) => assert!(m.starts_with("Not a valid gzip file: "), "{m}"),
        other => panic!("unexpected {other:?}"),
    }
}

#[test]
fn viewer_text_cuts_very_large_xml() {
    assert_eq!(viewer_text("<a/>"), "<a/>");
    let big = "x".repeat(20_000_001);
    let cut = viewer_text(&big);
    assert_eq!(cut.len(), 20_000_000 + "\n<!-- TRUNCATED: file too large for viewer -->".len());
    assert!(cut.ends_with("\n<!-- TRUNCATED: file too large for viewer -->"));
    let exact = "y".repeat(20_000_000);
    assert_eq!(viewer_text(&exact).len(), 20_000_000);
}

#[test]
fn zip_xml_prefers_named_members_then_first_xml() {
    let names = vec!["song.xml", "Song/song.xml", "metainfo.xml"];
    let z = zip_of(&[("other.txt", "x"), ("Song/song.xml", "<song/>"), ("metainfo.xml", "<meta/>")]);
    assert_eq!(read_zip_xml(&z, &names), Ok("<song/>".to_string()));
    let z = zip_of(&[("song.xml", ""), ("metainfo.xml", "<meta/>")]);
    assert_eq!(read_zip_xml(&z, &names), Ok("<meta/>".to_string()));
    let z = zip_of(&[("readme.txt", "hi"), ("a/first.xml", "<first/>"), ("b.xml", "<b/>")]);
    assert_eq!(read_zip_xml(&z, &names), Ok("<first/>".to_string()));
    let z = zip_of(&[("readme.txt", "hi")]);
    assert_eq!(read_zip_xml(&z, &names), Err("No XML found in archive".to_string()));
    match read_zip_xml(b"not a zip", &names) {
        Err(m) => assert!(m.starts_with("Not a valid ZIP: "), "{m}"),
        Ok(_) => panic!("expected an error"),
    }
}
