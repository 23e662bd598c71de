use audio_haxor::walk::enters_dir;
use audio_haxor::open_with::Platform;
use audio_haxor::roots::{midi_root_candidates, pdf_root_candidates, preset_root_candidates, vst_directory_candidates};
use audio_haxor::walk::{
    extension_key, keeps_file, midi_extensions, note_active_dir, preset_extensions, skips_entry, strip_data_volume,
    WalkKind, PDF_EXTENSION,
};

#[test]
fn test_midi_extensions_complete() {
    let exts = midi_extensions();
    assert!(exts.contains(&".mid"));
    assert!(exts.contains(&".midi"));
}

#[test]
fn test_preset_extensions_complete() {
    let exts = preset_extensions();
    for ext in &[".fxp", ".fxb", ".vstpreset", ".aupreset"] {
        assert!(exts.contains(ext), "PRESET_EXTENSIONS should contain {}", ext);
    }
}

#[test]
fn test_preset_extensions_includes_common() {
    let exts = preset_extensions();
    for ext in &[".fxp", ".fxb", ".vstpreset"] {
        assert!(exts.contains(ext), "PRESET_EXTENSIONS must contain {}", ext);
    }
}

#[test]
fn test_pdf_extension_constant() {
    assert_eq!(PDF_EXTENSION, ".pdf");
}

#[test]
fn extension_keys_follow_path_rules() {
    assert_eq!(extension_key("Serum.VST3"), ".vst3");
    assert_eq!(extension_key("song.mid"), ".mid");
    assert_eq!(extension_key("another.MIDI"), ".midi");
    assert_eq!(extension_key("archive.tar.GZ"), ".gz");
    assert_eq!(extension_key(".hidden"), "");
    assert_eq!(extension_key(".hidden.mid"), ".mid");
    assert_eq!(extension_key("noext"), "");
    assert_eq!(extension_key("trailing."), ".");
    assert_eq!(extension_key(".."), "");
    assert_eq!(extension_key(""), "");
}

#[test]
fn walkers_skip_hidden_junk_and_excluded_entries() {
    let exclude = vec!["skipme".to_string()];
    assert!(skips_entry(WalkKind::Midi, ".hidden", &exclude));
    assert!(skips_entry(WalkKind::Midi, "@eaDir", &exclude));
    assert!(skips_entry(WalkKind::Midi, "node_modules", &exclude));
    assert!(skips_entry(WalkKind::Midi, "DerivedData", &exclude));
    assert!(skips_entry(WalkKind::Midi, "skipme", &exclude));
    assert!(!skips_entry(WalkKind::Midi, "songs", &exclude));
    assert!(!skips_entry(WalkKind::Pdf, "@eaDir", &exclude));
    assert!(skips_entry(WalkKind::Pdf, "#recycle", &exclude));
    assert!(skips_entry(WalkKind::Pdf, "skipme", &exclude));
    assert!(!skips_entry(WalkKind::Pdf, "DerivedData", &exclude));
    assert!(!skips_entry(WalkKind::Preset, "skipme", &exclude));
    assert!(skips_entry(WalkKind::Preset, "__pycache__", &exclude));
    assert!(!skips_entry(WalkKind::Preset, "#recycle", &exclude));
    assert!(!skips_entry(WalkKind::Preset, "", &exclude));
}

#[test]
fn walkers_keep_their_kind_of_file() {
    let exclude = vec!["/x/drop.mid".to_string()];
    assert!(keeps_file(WalkKind::Midi, ".mid", "/x/keep.mid", &exclude));
    assert!(keeps_file(WalkKind::Midi, ".midi", "/x/another.MIDI", &exclude));
    assert!(!keeps_file(WalkKind::Midi, ".mid", "/x/drop.mid", &exclude));
    assert!(!keeps_file(WalkKind::Midi, ".fxp", "/x/preset.fxp", &exclude));
    assert!(keeps_file(WalkKind::Preset, ".fxp", "/x/preset.fxp", &exclude));
    assert!(keeps_file(WalkKind::Preset, ".pjunoxl", "/x/a.pjunoxl", &exclude));
    assert!(keeps_file(WalkKind::Pdf, ".pdf", "/x/book.PDF", &exclude));
    assert!(!keeps_file(WalkKind::Pdf, ".txt", "/x/notes.txt", &exclude));
}

#[test]
fn data_volume_prefix_is_dropped() {
    assert_eq!(strip_data_volume("/System/Volumes/Data/Users/me"), "/Users/me");
    assert_eq!(strip_data_volume("/System/Volumes/Data/"), "/");
    assert_eq!(strip_data_volume("/System/Volumes/Data"), "/System/Volumes/Data");
    assert_eq!(strip_data_volume("/Users/me"), "/Users/me");
}

#[test]
fn active_dirs_keep_the_newest() {
    let mut dirs: Vec<String> = Vec::new();
    for i in 0..35 {
        note_active_dir(WalkKind::Preset, &mut dirs, format!("d{i}"));
    }
    assert_eq!(dirs.len(), 30);
    assert_eq!(dirs[0], "d5");
    assert_eq!(dirs[29], "d34");
    let mut midi: Vec<String> = Vec::new();
    for i in 0..205 {
        note_active_dir(WalkKind::Midi, &mut midi, format!("m{i}"));
    }
    assert_eq!(midi.len(), 200);
    assert_eq!(midi[0], "m5");
}

#[test]
fn plugin_folders_by_platform() {
    let mac = vst_directory_candidates(Platform::MacOs, "/Users/me", None, None);
    assert_eq!(mac.len(), 8);
    assert_eq!(mac[0], "/Library/Audio/Plug-Ins/VST");
    assert_eq!(mac[5], "/Users/me/Library/Audio/Plug-Ins/VST3");
    let win = vst_directory_candidates(Platform::Windows, "C:\\Users\\me", None, Some("D:\\PF86\\"));
    assert_eq!(win[0], "C:\\Program Files\\Common Files\\VST3");
    assert_eq!(win[3], "C:\\Program Files\\Steinberg\\VSTPlugins");
    assert_eq!(win[6], "D:\\PF86\\VSTPlugins");
    let linux = vst_directory_candidates(Platform::Linux, "", None, None);
    assert_eq!(linux.len(), 9);
    assert_eq!(linux[6], ".vst");
}

#[test]
fn walk_roots_by_platform() {
    let presets = preset_root_candidates(Platform::Windows, "C:\\Users\\me", Some("C:\\PF"), None, Some("C:\\Local"));
    assert_eq!(presets, vec!["C:\\Users\\me\\Documents", "C:\\PF\\Common Files\\VST3 Presets", "C:\\Local"]);
    let linux = preset_root_candidates(Platform::Linux, "/home/me/", None, None, None);
    assert_eq!(linux, vec!["/home/me/.vst3/presets", "/home/me/.local/share", "/home/me/Documents"]);
    assert!(preset_root_candidates(Platform::Other, "/home/me", None, None, None).is_empty());
    assert_eq!(pdf_root_candidates(Platform::MacOs, "/Users/me"), vec![
        "/Users/me/Documents",
        "/Users/me/Desktop",
        "/Users/me/Downloads"
    ]);
    assert_eq!(midi_root_candidates(Platform::MacOs, ""), vec!["/Library/Audio/Presets"]);
    assert_eq!(midi_root_candidates(Platform::Linux, "/home/me"), vec!["/home/me"]);
}

use audio_haxor::listing::listing_order;

fn entries(v: &[(bool, &str)]) -> Vec<(bool, String)> {
    v.iter().map(|(d, n)| (*d, n.to_string())).collect()
}

#[test]
fn listings_put_folders_first_then_names_ignoring_case() {
    let e = entries(&[(false, "b.txt"), (true, "Zeta"), (false, "A.wav"), (true, "alpha"), (false, "a.wav")]);
    let order = listing_order(&e, true);
    let names: Vec<&str> = order.iter().map(|&i| e[i].1.as_str()).collect();
    assert_eq!(names, vec!["alpha", "Zeta", "A.wav", "a.wav", "b.txt"]);
}

#[test]
fn listings_by_plain_name_keep_ties_in_order() {
    let e = entries(&[(false, "b"), (false, "B"), (false, "a"), (false, "b")]);
    assert_eq!(listing_order(&e, false), vec![1, 2, 0, 3]);
    assert!(listing_order(&Vec::new(), true).is_empty());
}

use audio_haxor::walk::unique_scan_paths;

#[test]
fn scan_paths_drop_excluded_and_repeated() {
    let paths: Vec<String> = ["/a.vst3", "/b.vst3", "/a.vst3", "/c.clap", "/b.vst3", "/d.dll"].iter().map(|s| s.to_string()).collect();
    let exclude = vec!["/c.clap".to_string()];
    assert_eq!(unique_scan_paths(&paths, &exclude), vec!["/a.vst3", "/b.vst3", "/d.dll"]);
    assert!(unique_scan_paths(&Vec::new(), &exclude).is_empty());
}

#[test]
fn walker_depth_limit_and_single_visit() {
    assert!(enters_dir(0, false));
    assert!(enters_dir(30, false));
    assert!(!enters_dir(31, false));
    assert!(!enters_dir(3, true));
}
