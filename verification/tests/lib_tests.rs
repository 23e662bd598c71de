use audio_haxor::app_log::{app_log_verbose, log_verbosity_level, should_suppress_app_log_line, LogVerbosity};
use audio_haxor::format::{csv_escape, detect_separator, dsv_escape, format_size};
use audio_haxor::scanner::{plugins_dsv, plugins_to_export, PluginInfo};
use std::cell::Cell;

fn make_plugin(name: &str, plugin_type: &str) -> PluginInfo {
    PluginInfo {
        name: name.into(),
        path: format!("/lib/{}.vst3", name),
        plugin_type: plugin_type.into(),
        version: "1.0.0".into(),
        manufacturer: "TestCo".into(),
        manufacturer_url: Some("https://testco.com".into()),
        size: "2.5 MB".into(),
        size_bytes: 2621440,
        modified: "2025-01-01".into(),
        architectures: vec!["ARM64".into(), "x86_64".into()],
    }
}

#[test]
fn test_csv_escape_plain() {
    assert_eq!(csv_escape("hello"), "hello");
}

#[test]
fn test_csv_escape_comma() {
    assert_eq!(csv_escape("a,b"), "\"a,b\"");
}

#[test]
fn test_csv_escape_quotes() {
    assert_eq!(csv_escape("say \"hi\""), "\"say \"\"hi\"\"\"");
}

#[test]
fn test_csv_escape_newline() {
    assert_eq!(csv_escape("line1\nline2"), "\"line1\nline2\"");
}

#[test]
fn test_csv_escape_empty() {
    assert_eq!(csv_escape(""), "");
}

#[test]
fn test_csv_escape_comma_and_quotes() {
    assert_eq!(csv_escape("a,\"b\""), "\"a,\"\"b\"\"\"");
}

#[test]
fn test_format_size_shared_tb() {
    assert_eq!(format_size(0), "0 B");
    assert_eq!(format_size(1024_u64.pow(4)), "1.0 TB");
    assert_eq!(format_size(1024_u64.pow(5)), "1024.0 TB");
}

#[test]
fn test_format_size_fractional_kb() {
    assert_eq!(format_size(2048 + 512), "2.5 KB");
}

#[test]
fn test_format_size_single_byte_and_sub_kb() {
    assert_eq!(format_size(1), "1.0 B");
    assert_eq!(format_size(1023), "1023.0 B");
}

#[test]
fn test_format_size_mb_boundary() {
    assert_eq!(format_size(1024 * 1024), "1.0 MB");
    assert_eq!(format_size(1024 * 1024 + 512 * 1024), "1.5 MB");
}

#[test]
fn test_dsv_escape_tab_in_field() {
    assert_eq!(dsv_escape("a\tb", ','), "a\tb");
    assert_eq!(dsv_escape("a\tb", '\t'), "\"a\tb\"");
}

#[test]
fn test_dsv_escape_semicolon_field_when_sep_is_semicolon() {
    assert_eq!(dsv_escape("a;b", ';'), "\"a;b\"");
    assert_eq!(dsv_escape("plain", ';'), "plain");
}

#[test]
fn test_dsv_escape_quote_only() {
    assert_eq!(dsv_escape("\"", ','), "\"\"\"\"");
}

#[test]
fn test_dsv_escape_newline_requires_quoting() {
    assert_eq!(dsv_escape("a\nb", ','), "\"a\nb\"", "embedded newline must quote for CSV/DSV");
    assert_eq!(dsv_escape("line1\nline2", '\t'), "\"line1\nline2\"");
}

#[test]
fn test_detect_separator() {
    assert_eq!(detect_separator("x.csv"), ',');
    assert_eq!(detect_separator("/path/to/out.tsv"), '\t');
    assert_eq!(detect_separator("nested/dir/report.csv"), ',');
    assert_eq!(detect_separator("sheet.tsv"), '\t');
}

#[test]
fn test_plugins_to_export_empty() {
    let result = plugins_to_export(&[]);
    assert!(result.is_empty());
}

#[test]
fn test_plugins_to_export_preserves_fields() {
    let plugins = vec![make_plugin("Serum", "VST3")];
    let exported = plugins_to_export(&plugins);
    assert_eq!(exported.len(), 1);
    assert_eq!(exported[0].name, "Serum");
    assert_eq!(exported[0].plugin_type, "VST3");
    assert_eq!(exported[0].version, "1.0.0");
    assert_eq!(exported[0].manufacturer, "TestCo");
    assert_eq!(exported[0].manufacturer_url, Some("https://testco.com".into()));
}

#[test]
fn test_plugins_to_export_no_url() {
    let mut p = make_plugin("NoUrl", "AU");
    p.manufacturer_url = None;
    let exported = plugins_to_export(&[p]);
    assert_eq!(exported[0].manufacturer_url, None);
}

#[test]
fn test_plugins_to_export_multiple() {
    let plugins = vec![make_plugin("A", "VST2"), make_plugin("B", "VST3"), make_plugin("C", "AU")];
    let exported = plugins_to_export(&plugins);
    assert_eq!(exported.len(), 3);
    assert_eq!(exported[0].name, "A");
    assert_eq!(exported[2].plugin_type, "AU");
}

#[test]
fn bulk_format_size_non_empty() {
    for i in 0..12_000u32 {
        let b = i as u64 * 17 + (i as u64 % 1024);
        let s = format_size(b);
        assert!(!s.is_empty(), "format_size({b})");
    }
}

#[test]
fn test_format_size_one_gb() {
    assert_eq!(format_size(1024_u64.pow(3)), "1.0 GB");
}

#[test]
fn test_format_size_one_byte_below_one_gib_stays_in_mb_tier() {
    let b = 1024_u64.pow(3) - 1;
    let s = format_size(b);
    assert!(s.ends_with(" MB"), "just under 1 GiB should use MB unit, got {s}");
}

#[test]
fn test_detect_separator_unknown_extension_defaults_csv() {
    assert_eq!(detect_separator("export.data"), ',');
    assert_eq!(detect_separator("/tmp/no_extension"), ',');
}

#[test]
fn quiet_filter_is_opt_in_prefix_list() {
    let mut v = LogVerbosity::new();
    v.store(0);
    assert!(!should_suppress_app_log_line(&v, "SCAN ERROR — daw | x"));
    assert!(!should_suppress_app_log_line(&v, "SCAN TCC DENIED — unified | x"));
    v.store(1);
}

#[test]
fn app_log_verbose_skips_closure_when_not_verbose() {
    let calls = Cell::new(0usize);
    let mut v = LogVerbosity::new();
    v.store(1);
    app_log_verbose(&v, || {
        calls.set(calls.get() + 1);
        "should not run".to_string()
    });
    assert_eq!(calls.get(), 0);
    v.store(2);
    app_log_verbose(&v, || {
        calls.set(calls.get() + 1);
        "should run".to_string()
    });
    assert_eq!(calls.get(), 1);
    v.store(1);
}

#[test]
fn log_verbosity_level_tracks_atomic() {
    let mut v = LogVerbosity::new();
    v.store(2);
    assert_eq!(log_verbosity_level(&v), 2);
    v.store(1);
}

fn export_text(plugins: &[PluginInfo], file_path: &str) -> String {
    plugins_dsv(plugins, detect_separator(file_path))
}

#[test]
fn test_export_csv_format() {
    let plugins = vec![make_plugin("Serum", "VST3")];
    let content = export_text(&plugins, "upum_test_export.csv");
    let lines: Vec<&str> = content.lines().collect();
    assert_eq!(
        lines[0],
        "Name,Type,Version,Manufacturer,Manufacturer URL,Path,Size,Modified"
    );
    assert!(lines[1].starts_with("Serum,VST3,1.0.0,TestCo,"));
}

#[test]
fn test_export_csv_escapes_commas() {
    let mut p = make_plugin("Plugin, With Comma", "VST3");
    p.manufacturer = "Company, Inc.".into();
    let content = export_text(&[p], "upum_test_export_escape.csv");
    assert!(content.contains("\"Plugin, With Comma\""));
    assert!(content.contains("\"Company, Inc.\""));
}

#[test]
fn test_export_plugins_tsv_uses_tab_separator_and_header() {
    let plugins = vec![make_plugin("Serum", "VST3")];
    let content = export_text(&plugins, "upum_test_export_plugins.tsv");
    let lines: Vec<&str> = content.lines().collect();
    assert_eq!(
        lines[0],
        "Name\tType\tVersion\tManufacturer\tManufacturer URL\tPath\tSize\tModified"
    );
    assert!(
        !lines[1].contains(','),
        "TSV data row should use tabs, not commas: {}",
        lines[1]
    );
    assert!(lines[1].contains('\t'));
}

#[test]
fn test_export_csv_empty_plugins() {
    let content = export_text(&[], "upum_test_export_empty.csv");
    let lines: Vec<&str> = content.lines().collect();
    assert_eq!(lines.len(), 1);
    assert!(lines[0].starts_with("Name,"));
}

#[test]
fn plugins_dsv_full_row_exact() {
    let mut p = make_plugin("Say \"Hi\"", "VST3");
    p.manufacturer_url = None;
    let content = plugins_dsv(&[p], ',');
    assert_eq!(
        content,
        "Name,Type,Version,Manufacturer,Manufacturer URL,Path,Size,Modified\n\
         \"Say \"\"Hi\"\"\",VST3,1.0.0,TestCo,,\"/lib/Say \"\"Hi\"\".vst3\",2.5 MB,2025-01-01\n"
    );
}
