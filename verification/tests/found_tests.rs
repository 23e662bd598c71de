use audio_haxor::format::detect_separator;
use audio_haxor::found::{midi_file, pdf_file, pdfs_dsv, preset_file, presets_dsv, PresetFile};
use audio_haxor::scanner::{plugins_from_export, plugins_to_export, PluginInfo};

fn preset(name: &str, path: &str, size: u64, size_formatted: &str, modified: &str) -> PresetFile {
    PresetFile {
        name: name.into(),
        path: path.into(),
        directory: "/presets".into(),
        format: "FXP".into(),
        size,
        size_formatted: size_formatted.into(),
        modified: modified.into(),
    }
}

#[test]
fn test_export_presets_dsv_csv() {
    let presets = vec![preset("Lead", "/presets/lead.fxp", 1024, "1.0 KB", "2024-01-01")];
    let content = presets_dsv(&presets, detect_separator("upum_test_presets.csv"));
    assert!(content.contains("Lead"));
    assert!(content.contains("FXP"));
    assert!(content.contains(","));
}

#[test]
fn test_export_presets_dsv_tsv() {
    let presets = vec![preset("Bass", "/presets/bass.fxp", 2048, "2.0 KB", "2024-02-01")];
    let content = presets_dsv(&presets, detect_separator("upum_test_presets.tsv"));
    assert!(content.contains("Bass"));
    assert!(content.contains("\t"));
}

#[test]
fn preset_export_exact_text() {
    let presets = vec![preset("Lead, Bright", "/presets/lead.fxp", 1024, "1.0 KB", "2024-01-01")];
    assert_eq!(
        presets_dsv(&presets, ','),
        "Name,Format,Path,Directory,Size,Modified\n\"Lead, Bright\",FXP,/presets/lead.fxp,/presets,1.0 KB,2024-01-01\n"
    );
}

#[test]
fn pdf_export_exact_text() {
    let pdfs = vec![pdf_file("manual".into(), "/docs/manual.pdf".into(), "/docs".into(), 2048, "2024-03-01".into())];
    assert_eq!(pdfs_dsv(&pdfs, '\t'), "Name\tPath\tDirectory\tSize\tModified\nmanual\t/docs/manual.pdf\t/docs\t2.0 KB\t2024-03-01\n");
    assert_eq!(pdfs_dsv(&[], ','), "Name,Path,Directory,Size,Modified\n");
}

#[test]
fn walk_records_carry_format_and_size() {
    let m = midi_file("song".into(), "/m/song.MIDI".into(), "/m".into(), ".midi", 1536, "2024-01-01".into());
    assert_eq!(m.format, "MIDI");
    assert_eq!(m.size_formatted, "1.5 KB");
    let p = preset_file("pad".into(), "/p/pad.vstpreset".into(), "/p".into(), ".vstpreset", 0, String::new());
    assert_eq!(p.format, "VSTPRESET");
    assert_eq!(p.size_formatted, "0 B");
}

fn make_plugin(name: &str, plugin_type: &str) -> PluginInfo {
    PluginInfo {
        name: name.into(),
        path: format!("/lib/{}.vst3", name),
        plugin_type: plugin_type.into(),
        version: "1.0.0".into(),
        manufacturer: "TestCo".into(),
        manufacturer_url: Some("https://testco.com".into()),
        size: "2.5 MB".into(),
        size_bytes: 2621440,
        modified: "2025-01-01".into(),
        architectures: vec!["ARM64".into(), "x86_64".into()],
    }
}

#[test]
fn test_export_import_json_roundtrip() {
    let plugins = vec![make_plugin("PluginA", "VST3"), make_plugin("PluginB", "AU")];
    let imported = plugins_from_export(&plugins_to_export(&plugins));
    assert_eq!(imported.len(), 2);
    assert_eq!(imported[0].name, "PluginA");
    assert_eq!(imported[0].plugin_type, "VST3");
    assert_eq!(imported[1].name, "PluginB");
    assert_eq!(imported[1].plugin_type, "AU");
    assert_eq!(imported[1].manufacturer, "TestCo");
    assert_eq!(imported[1].architectures, vec!["ARM64", "x86_64"]);
    assert_eq!(imported[0].manufacturer_url.as_deref(), Some("https://testco.com"));
}
