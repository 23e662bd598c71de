use audio_haxor::bundle::{architectures_of, moduleinfo_metadata, plist_metadata, plugin_candidate, plugin_record, read_plist_info};
use audio_haxor::pdf_meta::{extract_page_count, extract_pdf_meta, norm_info_date, pdf_meta_fields};
use audio_haxor::project::{binary_format_name, binary_project_summary, metadata_pairs, plugin_paths, printable_strings, project_reader, ProjectReader};

#[test]
fn test_detect_architectures_empty_dir() {
    assert!(architectures_of(&[]).is_empty());
}

#[test]
fn test_detect_architectures_macho_thin() {
    let mut header = vec![0u8; 8];
    header[0..4].copy_from_slice(&0xFEEDFACFu32.to_le_bytes());
    header[4..8].copy_from_slice(&0x0100000Cu32.to_le_bytes());
    assert_eq!(architectures_of(&header), vec!["ARM64"]);
}

#[test]
fn test_detect_architectures_macho_x86() {
    let mut header = vec![0u8; 8];
    header[0..4].copy_from_slice(&0xFEEDFACFu32.to_le_bytes());
    header[4..8].copy_from_slice(&0x01000007u32.to_le_bytes());
    assert_eq!(architectures_of(&header), vec!["x86_64"]);
}

#[test]
fn test_detect_architectures_macho_thin_i386_32bit() {
    let mut header = vec![0u8; 8];
    header[0..4].copy_from_slice(&0xFEEDFACEu32.to_le_bytes());
    header[4..8].copy_from_slice(&7u32.to_le_bytes());
    assert_eq!(architectures_of(&header), vec!["i386"]);
}

#[test]
fn test_detect_architectures_macho64_unknown_cpu_type_label() {
    let mut header = vec![0u8; 8];
    header[0..4].copy_from_slice(&0xFEEDFACFu32.to_le_bytes());
    header[4..8].copy_from_slice(&0xDEADBEEFu32.to_le_bytes());
    assert_eq!(architectures_of(&header), vec![format!("cpu:{}", 0xDEADBEEFu32)]);
}

fn pe_image(pe_off: usize, len: usize, machine: u16) -> Vec<u8> {
    let mut buf = vec![0u8; len];
    buf[0] = b'M';
    buf[1] = b'Z';
    buf[0x3C..0x40].copy_from_slice(&(pe_off as u32).to_le_bytes());
    buf[pe_off] = b'P';
    buf[pe_off + 1] = b'E';
    buf[pe_off + 4..pe_off + 6].copy_from_slice(&machine.to_le_bytes());
    buf
}

#[test]
fn test_detect_architectures_pe_unknown_machine_label() {
    assert_eq!(architectures_of(&pe_image(0x40, 0x80, 0xFFFF)), vec!["pe:65535"]);
}

#[test]
fn test_detect_architectures_fat_binary() {
    let mut header = vec![0u8; 48];
    header[0..4].copy_from_slice(&0xCAFEBABEu32.to_be_bytes());
    header[4..8].copy_from_slice(&2u32.to_be_bytes());
    header[8..12].copy_from_slice(&0x01000007u32.to_be_bytes());
    header[28..32].copy_from_slice(&0x0100000Cu32.to_be_bytes());
    let archs = architectures_of(&header);
    assert!(archs.contains(&"x86_64".to_string()));
    assert!(archs.contains(&"ARM64".to_string()));
}

#[test]
fn test_detect_architectures_fat_binary_little_endian_magic() {
    let mut header = vec![0u8; 48];
    header[0..4].copy_from_slice(&0xBEBAFECAu32.to_be_bytes());
    header[4..8].copy_from_slice(&2u32.to_le_bytes());
    header[8..12].copy_from_slice(&0x01000007u32.to_le_bytes());
    header[28..32].copy_from_slice(&0x0100000Cu32.to_le_bytes());
    let archs = architectures_of(&header);
    assert!(archs.contains(&"x86_64".to_string()));
    assert!(archs.contains(&"ARM64".to_string()));
}

#[test]
fn test_detect_architectures_pe_x64_dll_file() {
    assert_eq!(architectures_of(&pe_image(0x80, 0x100, 0x8664)), vec!["x86_64"]);
}

#[test]
fn test_detect_architectures_pe_arm64_ec_file() {
    assert_eq!(architectures_of(&pe_image(0x40, 0x80, 0xAA64)), vec!["ARM64"]);
}

#[test]
fn test_detect_architectures_pe_i386_machine() {
    assert_eq!(architectures_of(&pe_image(0x40, 0x80, 0x014c)), vec!["i386"]);
}

#[test]
fn architectures_fat_list_is_cut_at_the_bytes_read() {
    let mut header = vec![0u8; 30];
    header[0..4].copy_from_slice(&0xCAFEBABEu32.to_be_bytes());
    header[4..8].copy_from_slice(&5u32.to_be_bytes());
    header[8..12].copy_from_slice(&7u32.to_be_bytes());
    assert_eq!(architectures_of(&header), vec!["i386"]);
}

#[test]
fn architectures_fat_list_reads_at_most_ten() {
    let mut header = vec![0u8; 4096];
    header[0..4].copy_from_slice(&0xCAFEBABEu32.to_be_bytes());
    header[4..8].copy_from_slice(&40u32.to_be_bytes());
    let archs = architectures_of(&header);
    assert_eq!(archs.len(), 10);
    assert!(archs.iter().all(|a| a == "cpu:0"));
}

#[test]
fn architectures_of_short_or_unknown_headers() {
    assert!(architectures_of(&[0xCF, 0xFA, 0xED, 0xFE, 0x0C, 0x00, 0x00]).is_empty());
    assert!(architectures_of(b"#!/bin/sh\necho").is_empty());
    let mut pe = pe_image(0x40, 0x80, 0x8664);
    pe[0x41] = b'X';
    assert!(architectures_of(&pe).is_empty());
    let far = pe_image(0x40, 0x80, 0x8664);
    assert!(architectures_of(&far[..0x45]).is_empty());
}

#[test]
fn plugin_candidates_follow_extension_and_bundle_kind() {
    assert!(plugin_candidate(".vst3", true));
    assert!(plugin_candidate(".vst", true));
    assert!(plugin_candidate(".component", true));
    assert!(plugin_candidate(".dll", false));
    assert!(plugin_candidate(".clap", true));
    assert!(!plugin_candidate(".clap", false));
    assert!(!plugin_candidate(".txt", false));
    assert!(!plugin_candidate(".aaxplugin", true));
}

fn fields(pairs: &[(&str, &str)]) -> Vec<(String, String)> {
    pairs.iter().map(|(k, v)| (k.to_string(), v.to_string())).collect()
}

#[test]
fn moduleinfo_keys_are_tried_in_order() {
    let f = fields(&[("vendor", "Lower Co"), ("Vendor", "Upper Co"), ("Version", "3.1.0"), ("homepage", "https://x.io")]);
    let (v, m, u) = moduleinfo_metadata(&f).unwrap();
    assert_eq!(v.as_deref(), Some("3.1.0"));
    assert_eq!(m.as_deref(), Some("Upper Co"));
    assert_eq!(u.as_deref(), Some("https://x.io"));
}

#[test]
fn moduleinfo_without_known_keys_gives_none() {
    assert!(moduleinfo_metadata(&fields(&[("Name", "Serum"), ("Category", "Fx")])).is_none());
    let (v, m, u) = moduleinfo_metadata(&fields(&[("Company", "Xfer")])).unwrap();
    assert_eq!((v, m.as_deref(), u), (None, Some("Xfer"), None));
}

#[test]
fn plugin_record_fills_defaults() {
    let p = plugin_record(
        "FakePlugin".into(),
        "/lib/FakePlugin.vst3".into(),
        ".vst3",
        (None, None, None),
        1536,
        "2024-01-01".into(),
        vec!["ARM64".into()],
    );
    assert_eq!(p.name, "FakePlugin");
    assert_eq!(p.plugin_type, "VST3");
    assert_eq!(p.version, "Unknown");
    assert_eq!(p.manufacturer, "Unknown");
    assert_eq!(p.manufacturer_url, None);
    assert_eq!(p.size, "1.5 KB");
    assert_eq!(p.size_bytes, 1536);
    assert_eq!(p.architectures, vec!["ARM64"]);
    let q = plugin_record(
        "X".into(),
        "/x.dll".into(),
        ".dll",
        (Some("2.0".into()), Some("Co".into()), Some("https://co.com".into())),
        0,
        String::new(),
        vec![],
    );
    assert_eq!((q.plugin_type.as_str(), q.version.as_str(), q.manufacturer.as_str()), ("VST2", "2.0", "Co"));
    assert_eq!(q.manufacturer_url.as_deref(), Some("https://co.com"));
    assert_eq!(q.size, "0 B");
}

#[test]
fn plist_entries_give_version_and_manufacturer() {
    let entries = vec![
        ("CFBundleIdentifier".to_string(), Some("com.fabfilter.Pro-Q.3".to_string())),
        ("CFBundleShortVersionString".to_string(), Some("3.21".to_string())),
        ("CFBundleVersion".to_string(), None),
    ];
    let (v, m, u) = plist_metadata(&entries);
    assert_eq!(v.as_deref(), Some("3.21"));
    assert_eq!(m.as_deref(), Some("Fabfilter"));
    assert_eq!(u.as_deref(), Some("https://www.fabfilter.com"));
    let (v, m, u) = plist_metadata(&[("CFBundleIdentifier".to_string(), None)].to_vec());
    assert_eq!((v, m, u), (None, None, None));
}

#[test]
fn read_plist_info_parses_xml_property_lists() {
    let xml = br#"<?xml version="1.0" encoding="UTF-8"?>
<!DOCTYPE plist PUBLIC "-//Apple//DTD PLIST 1.0//EN" "http://www.apple.com/DTDs/PropertyList-1.0.dtd">
<plist version="1.0">
<dict>
  <key>CFBundleIdentifier</key><string>com.xferrecords.Serum</string>
  <key>CFBundleShortVersionString</key><string>1.3.5</string>
  <key>LSMinimumSystemVersion</key><integer>10</integer>
</dict>
</plist>"#;
    let (v, m, u) = read_plist_info(xml);
    assert_eq!(v.as_deref(), Some("1.3.5"));
    assert_eq!(m.as_deref(), Some("Xferrecords"));
    assert_eq!(u.as_deref(), Some("https://www.xferrecords.com"));
    assert_eq!(read_plist_info(b"not a plist"), (None, None, None));
    let apple = br#"<plist version="1.0"><dict><key>CFBundleIdentifier</key><string>com.apple.audio.AUDelay</string></dict></plist>"#;
    let (v, m, u) = read_plist_info(apple);
    assert_eq!((v, m.as_deref(), u), (None, Some("Apple"), None));
}

#[test]
fn extract_pages_not_a_pdf_returns_none() {
    assert!(extract_page_count(b"this is not a pdf").is_none());
    assert!(extract_pdf_meta(b"this is not a pdf").is_none());
}

#[test]
fn info_dates_are_trimmed_and_empty_ones_dropped() {
    assert_eq!(norm_info_date(Some("  D:20240101120000Z \n".into())).as_deref(), Some("D:20240101120000Z"));
    assert_eq!(norm_info_date(Some("   ".into())), None);
    assert_eq!(norm_info_date(None), None);
    let f = pdf_meta_fields(3, Some(" D:2024 ".into()), Some(String::new()));
    assert_eq!(f.pages, 3);
    assert_eq!(f.pdf_creation_date.as_deref(), Some("D:2024"));
    assert_eq!(f.pdf_mod_date, None);
}

#[test]
fn test_read_binary_project_inner_extracts_printable_plugin_paths() {
    let mut blob = vec![0u8, 0x01, 0x02, 0x03];
    blob.extend_from_slice(b"/Library/Audio/Plug-Ins/VST3/PluginA.vst3");
    blob.push(0);
    blob.extend_from_slice(b"C:\\VSTPlugins\\PluginB.dll");
    blob.push(0);
    let summary = binary_project_summary(&blob);
    let plugins: Vec<&str> = summary.plugins.iter().map(|s| s.as_str()).collect();
    assert!(plugins.contains(&"/Library/Audio/Plug-Ins/VST3/PluginA.vst3"), "plugins={plugins:?}");
    assert!(plugins.contains(&"C:\\VSTPlugins\\PluginB.dll"), "plugins={plugins:?}");
}

#[test]
fn test_read_binary_project_adds_format_display_name() {
    assert_eq!(binary_format_name("cpr"), "Cubase Project (.cpr)");
    match project_reader("cpr") {
        ProjectReader::Binary { format } => assert_eq!(format, "Cubase Project (.cpr)"),
        other => panic!("unexpected reader {other:?}"),
    }
}

#[test]
fn binary_project_plugins_are_sorted_and_unique() {
    let mut blob = Vec::new();
    for name in ["b/Zeta.vst3", "a/Alpha.clap", "b/Zeta.vst3", "tail.dll", "a.dll"] {
        blob.extend_from_slice(name.as_bytes());
        blob.push(0);
    }
    blob.extend_from_slice(b"trailing/Unended.vst3");
    assert_eq!(plugin_paths(&blob), vec!["a/Alpha.clap", "b/Zeta.vst3", "tail.dll"]);
}

#[test]
fn binary_project_metadata_pairs_and_banks() {
    let mut blob = Vec::new();
    for s in ["title", "My Song", "artist", "genre", "Trance", "xy", "comment", "done"] {
        blob.extend_from_slice(s.as_bytes());
        blob.push(0);
    }
    blob.extend_from_slice(b"bank.fxb\x00other.fxb\x00");
    let strings = printable_strings(&blob);
    assert_eq!(strings[..4], ["title", "My Song", "artist", "genre"]);
    let pairs = metadata_pairs(&strings);
    assert_eq!(
        pairs,
        vec![
            ("title".to_string(), "My Song".to_string()),
            ("genre".to_string(), "Trance".to_string()),
            ("comment".to_string(), "done".to_string()),
        ]
    );
    let summary = binary_project_summary(&blob);
    assert_eq!(summary.plugin_state_count, 2);
    assert_eq!(summary.metadata, pairs);
}

#[test]
fn project_readers_by_extension() {
    assert!(matches!(project_reader("als"), ProjectReader::GzipXml { format: "Ableton Live Set" }));
    match project_reader("song") {
        ProjectReader::ZipXml { format, members } => {
            assert_eq!(format, "Studio One Song");
            assert_eq!(members, vec!["song.xml", "Song/song.xml", "metainfo.xml"]);
        }
        other => panic!("unexpected reader {other:?}"),
    }
    assert!(matches!(project_reader("rpp-bak"), ProjectReader::Text { format: "REAPER Project" }));
    assert!(matches!(project_reader("xyz"), ProjectReader::Binary { format: "Binary DAW Project" }));
}

fn tiny_pdf(creation: &str) -> Vec<u8> {
    let objects = [
        "<< /Type /Catalog /Pages 2 0 R >>".to_string(),
        "<< /Type /Pages /Kids [3 0 R 4 0 R] /Count 2 >>".to_string(),
        "<< /Type /Page /Parent 2 0 R /MediaBox [0 0 200 200] >>".to_string(),
        "<< /Type /Page /Parent 2 0 R /MediaBox [0 0 200 200] >>".to_string(),
        format!("<< /CreationDate ({creation}) /ModDate (   ) >>"),
    ];
    let mut out = b"%PDF-1.4\n".to_vec();
    let mut offsets = Vec::new();
    for (i, body) in objects.iter().enumerate() {
        offsets.push(out.len());
        out.extend_from_slice(format!("{} 0 obj\n{}\nendobj\n", i + 1, body).as_bytes());
    }
    let xref = out.len();
    out.extend_from_slice(format!("xref\n0 {}\n0000000000 65535 f \n", objects.len() + 1).as_bytes());
    for off in offsets {
        out.extend_from_slice(format!("{:010} 00000 n \n", off).as_bytes());
    }
    out.extend_from_slice(
        format!("trailer\n<< /Size {} /Root 1 0 R /Info 5 0 R >>\nstartxref\n{}\n%%EOF\n", objects.len() + 1, xref)
            .as_bytes(),
    );
    out
}

#[test]
fn pdf_meta_reads_pages_and_dates() {
    let pdf = tiny_pdf(" D:20240101120000Z ");
    assert_eq!(extract_page_count(&pdf), Some(2));
    let meta = extract_pdf_meta(&pdf).unwrap();
    assert_eq!(meta.pages, 2);
    assert_eq!(meta.pdf_creation_date.as_deref(), Some("D:20240101120000Z"));
    assert_eq!(meta.pdf_mod_date, None);
}

#[test]
fn pdf_with_huge_kid_counts_reads_without_overflow() {
    let objects = [
        "<< /Type /Catalog /Pages 2 0 R >>",
        "<< /Type /Pages /Kids [3 0 R 4 0 R] >>",
        "<< /Type /Pages /Kids [] /Count 4294967295 >>",
        "<< /Type /Pages /Kids [] /Count 4294967295 >>",
    ];
    let mut out = b"%PDF-1.4\n".to_vec();
    let mut offsets = Vec::new();
    for (i, body) in objects.iter().enumerate() {
        offsets.push(out.len());
        out.extend_from_slice(format!("{} 0 obj\n{}\nendobj\n", i + 1, body).as_bytes());
    }
    let xref = out.len();
    out.extend_from_slice(format!("xref\n0 {}\n0000000000 65535 f \n", objects.len() + 1).as_bytes());
    for off in offsets {
        out.extend_from_slice(format!("{:010} 00000 n \n", off).as_bytes());
    }
    out.extend_from_slice(
        format!("trailer\n<< /Size {} /Root 1 0 R >>\nstartxref\n{}\n%%EOF\n", objects.len() + 1, xref).as_bytes(),
    );
    assert_eq!(extract_page_count(&out), Some(0));
}
