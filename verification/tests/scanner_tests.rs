use audio_haxor::scanner::{format_size, get_plugin_type, is_skip_dir, scanner_skip_dirs, PluginInfo};
use audio_haxor::updates::{cached_update, sibling_update, update_groups, update_key, KvrCacheEntry};

#[test]
fn test_get_plugin_type() {
    assert_eq!(get_plugin_type(".vst"), "VST2");
    assert_eq!(get_plugin_type(".vst3"), "VST3");
    assert_eq!(get_plugin_type(".component"), "AU");
    assert_eq!(get_plugin_type(".dll"), "VST2");
    assert_eq!(get_plugin_type(".exe"), "Unknown");
    assert_eq!(get_plugin_type(".clap"), "CLAP");
    assert_eq!(get_plugin_type(".aaxplugin"), "Unknown");
}

#[test]
fn test_format_size() {
    assert_eq!(format_size(0), "0 B");
    assert_eq!(format_size(512), "512.0 B");
    assert_eq!(format_size(1024), "1.0 KB");
    assert_eq!(format_size(1536), "1.5 KB");
    assert_eq!(format_size(1048576), "1.0 MB");
    assert_eq!(format_size(1073741824), "1.0 GB");
}

#[test]
fn test_format_size_edge_cases() {
    assert_eq!(format_size(1), "1.0 B");
    assert_eq!(format_size(1023), "1023.0 B");
    assert_eq!(format_size(1024), "1.0 KB");
    assert_eq!(format_size(5 * 1024 * 1024 * 1024), "5.0 GB");
}

#[test]
fn test_format_size_exact_boundaries() {
    assert_eq!(format_size(0), "0 B");
    assert_eq!(format_size(1), "1.0 B");
    assert_eq!(format_size(1024), "1.0 KB");
    assert_eq!(format_size(1048576), "1.0 MB");
    assert_eq!(format_size(1073741824), "1.0 GB");
}

#[test]
fn test_get_plugin_type_unknown_ext() {
    assert_eq!(get_plugin_type(".xyz"), "Unknown");
    assert_eq!(get_plugin_type(""), "Unknown");
    assert_eq!(get_plugin_type(".so"), "Unknown");
    assert_eq!(get_plugin_type(".app"), "Unknown");
}

#[test]
fn test_format_size_1_byte_1023_bytes_1_gb() {
    assert_eq!(format_size(1), "1.0 B");
    assert_eq!(format_size(1023), "1023.0 B");
    assert_eq!(format_size(1_073_741_824), "1.0 GB");
}

#[test]
fn skip_dirs_contains_core_junk_and_build_artifacts() {
    let dirs = scanner_skip_dirs();
    for d in [
        "node_modules",
        "bower_components",
        ".git",
        "Caches",
        "DerivedData",
        "target",
        "Pods",
        "vendor",
        "lost+found",
        "__pypackages__",
        "#snapshot",
    ] {
        assert!(dirs.contains(&d), "SCANNER_SKIP_DIRS should contain {:?}", d);
        assert!(is_skip_dir(d));
    }
}

#[test]
fn skip_dirs_has_no_duplicates() {
    let mut seen = std::collections::HashSet::new();
    for &d in scanner_skip_dirs().iter() {
        assert!(seen.insert(d), "duplicate skip dir entry: {:?}", d);
    }
}

fn plugin_named(name: &str, manufacturer: &str, version: &str, path: &str) -> PluginInfo {
    PluginInfo {
        name: name.into(),
        path: path.into(),
        plugin_type: "VST3".into(),
        version: version.into(),
        manufacturer: manufacturer.into(),
        manufacturer_url: None,
        size: "1 KB".into(),
        size_bytes: 1024,
        modified: "2024-01-01".into(),
        architectures: vec![],
    }
}

#[test]
fn update_groups_follow_manufacturer_and_name() {
    let plugins = vec![
        plugin_named("Serum", "Xfer", "1.0", "/a"),
        plugin_named("Pro-Q", "FabFilter", "3.0", "/b"),
        plugin_named("SERUM", "xfer", "1.2", "/c"),
        plugin_named("Serum", "Xfer", "1.1", "/d"),
    ];
    assert_eq!(update_key(&plugins[0]), "xfer|||serum");
    assert_eq!(update_groups(&plugins), vec![(0, vec![0, 2, 3]), (1, vec![1])]);
}

#[test]
fn cached_update_and_sibling_verdicts() {
    let cached = KvrCacheEntry {
        latest_version: None,
        has_update: false,
        update_url: Some("https://x/dl".into()),
        kvr_url: None,
        source: "kvr".into(),
    };
    let r = cached_update(&cached, "2.0");
    assert_eq!(r.latest_version, "2.0");
    assert!(r.has_platform_download);
    let v = sibling_update(plugin_named("A", "B", "1.0", "/a"), &Some(r.clone()), true);
    assert!(v.has_update);
    assert_eq!(v.latest_version, "2.0");
    let u = sibling_update(plugin_named("A", "B", "Unknown", "/a"), &Some(r), true);
    assert!(!u.has_update);
    let n = sibling_update(plugin_named("A", "B", "1.0", "/a"), &None, true);
    assert!(!n.has_update);
    assert_eq!(n.latest_version, "1.0");
    assert_eq!(n.source, "not-found");
    assert_eq!(n.plugin.path, "/a");
}
