use audio_haxor::app_log::{
    incremental_scan_enabled, log_line, needs_rotation, resolve_ui_locale, shutdown_message, snapshot_loaded,
    snapshot_step, verbosity_from_pref, write_app_log, write_app_log_verbose, LogVerbosity, SnapshotStep,
};
use audio_haxor::midi::parse_midi_bytes;
use audio_haxor::open_with::{
    linux_lookup, open_with_application, resolve_executable, windows_lookup, Lookup, OpenAction, Platform, Probe,
};
use audio_haxor::scanner::bundle_manufacturer;

#[test]
fn verbosity_preferences() {
    assert_eq!(verbosity_from_pref(Some("quiet")), 0);
    assert_eq!(verbosity_from_pref(Some("verbose")), 2);
    assert_eq!(verbosity_from_pref(Some("normal")), 1);
    assert_eq!(verbosity_from_pref(None), 1);
}

#[test]
fn log_lines_by_level() {
    let mut v = LogVerbosity::new();
    assert_eq!(write_app_log(&v, "hello".into()), Some("hello".into()));
    assert_eq!(write_app_log_verbose(&v, "detail".into()), None);
    v.store(2);
    assert_eq!(write_app_log_verbose(&v, "detail".into()), Some("detail".into()));
    v.store(0);
    assert_eq!(write_app_log(&v, "quiet still logs".into()), Some("quiet still logs".into()));
}

#[test]
fn log_format_and_rotation() {
    assert_eq!(log_line("2026-01-01 10:00:00", "started"), "[2026-01-01 10:00:00] started\n");
    assert!(!needs_rotation(5 * 1024 * 1024));
    assert!(needs_rotation(5 * 1024 * 1024 + 1));
    assert_eq!(shutdown_message(125), "APP SHUTDOWN — uptime 2m 5s");
    assert_eq!(shutdown_message(0), "APP SHUTDOWN — uptime 0m 0s");
}

#[test]
fn preferences_with_defaults() {
    assert!(incremental_scan_enabled(None));
    assert!(incremental_scan_enabled(Some("on")));
    assert!(!incremental_scan_enabled(Some("off")));
    assert_eq!(resolve_ui_locale(Some("de".into()), Some("fr".into())), "de");
    assert_eq!(resolve_ui_locale(None, Some("fr".into())), "fr");
    assert_eq!(resolve_ui_locale(None, None), "en");
}

#[test]
fn incremental_snapshot_decisions() {
    assert!(matches!(snapshot_step(Ok(true)), SnapshotStep::LoadSnapshot));
    match snapshot_step(Err("db locked".into())) {
        SnapshotStep::FullWalk(line) => {
            assert_eq!(line, "SCAN INCREMENTAL — could not read unified scan outcome (db locked); full walk")
        },
        SnapshotStep::LoadSnapshot => panic!("an unknown outcome must not trust the snapshot"),
    }
    assert_eq!(snapshot_loaded(Ok(12)), (true, "SCAN VERBOSE — incremental snapshot loaded: 12 directory keys".into()));
    assert_eq!(snapshot_loaded(Err("io".into())).0, false);
}

#[test]
fn open_actions() {
    assert!(matches!(open_with_application("/f.wav", true, "  ", Platform::Linux), OpenAction::Fail(m) if m == "application name is empty"));
    assert!(matches!(open_with_application("/f.wav", false, "vlc", Platform::Linux), OpenAction::Fail(m) if m == "File not found: /f.wav"));
    assert!(matches!(open_with_application("/f.wav", true, " Audacity ", Platform::MacOs), OpenAction::OpenWithMac(a) if a == "Audacity"));
    assert!(matches!(open_with_application("/f.wav", true, "Logic Pro", Platform::Windows), OpenAction::Fail(m) if m == "Logic Pro is only available on macOS"));
    assert!(matches!(open_with_application("/f.wav", true, "Preview", Platform::Linux), OpenAction::OpenDefault));
    assert!(matches!(open_with_application("/f.wav", true, "Music", Platform::Linux), OpenAction::Launch(a) if a == "Music"));
    assert!(matches!(open_with_application("/f.wav", true, "Music", Platform::Other), OpenAction::Fail(_)));
}

#[test]
fn linux_lookups() {
    match linux_lookup("Music") {
        Lookup::Search { probes, missing } => {
            let names: Vec<String> = probes.iter().map(|p| match p {
                Probe::Which(n) => n.clone(),
                _ => panic!("Linux searches with which"),
            }).collect();
            assert_eq!(names, vec!["vlc", "mpv", "audacious", "rhythmbox"]);
            assert_eq!(missing, "No music player found in PATH (install vlc or mpv)");
        },
        Lookup::Path { .. } => panic!("Music is no path"),
    }
    assert!(matches!(linux_lookup("/opt/app"), Lookup::Path { missing } if missing == "application path not found: /opt/app"));
    match linux_lookup("my app") {
        Lookup::Search { missing, .. } => {
            assert_eq!(missing, "Could not resolve application \"my app\" in PATH. Pass a full path to the binary.")
        },
        Lookup::Path { .. } => panic!("no slash"),
    }
}

#[test]
fn windows_lookups() {
    match windows_lookup("QuickTime Player") {
        Lookup::Search { probes, .. } => {
            assert_eq!(probes.len(), 3);
            assert!(matches!(&probes[0], Probe::Where(n) if n == "vlc.exe"));
        },
        Lookup::Path { .. } => panic!("no path"),
    }
    assert!(matches!(windows_lookup("C:\\Tools\\x.exe"), Lookup::Path { .. }));
    match windows_lookup("Foo") {
        Lookup::Search { probes, missing } => {
            assert!(matches!(&probes[1], Probe::Where(n) if n == "Foo.exe"));
            assert!(missing.starts_with("Could not resolve application \"Foo\"."));
        },
        Lookup::Path { .. } => panic!("no path"),
    }
}

#[test]
fn executable_resolution() {
    let l = linux_lookup("Audacity");
    assert_eq!(resolve_executable("Audacity", true, &l, false, None), Ok("Audacity".into()));
    assert_eq!(resolve_executable("Audacity", false, &l, false, Some("/usr/bin/audacity".into())), Ok("/usr/bin/audacity".into()));
    assert_eq!(
        resolve_executable("Audacity", false, &l, false, None),
        Err("Audacity not found in PATH (install Audacity or pass the full path)".into())
    );
    let p = linux_lookup("/x/y");
    assert_eq!(resolve_executable("/x/y", false, &p, true, None), Ok("/x/y".into()));
    assert_eq!(resolve_executable("/x/y", false, &p, false, None), Err("application path not found: /x/y".into()));
}

#[test]
fn bundle_identifiers() {
    assert_eq!(
        bundle_manufacturer("com.fabfilter.Pro-Q.3"),
        (Some("Fabfilter".into()), Some("https://www.fabfilter.com".into()))
    );
    assert_eq!(bundle_manufacturer("com.apple.audio"), (Some("Apple".into()), None));
    assert_eq!(bundle_manufacturer("plain"), (None, None));
    assert_eq!(bundle_manufacturer("com.x"), (Some("X".into()), None));
    assert_eq!(bundle_manufacturer("com.U-He.Diva"), (Some("U-He".into()), Some("https://www.u-he.com".into())));
}

#[test]
fn midi_faults_and_short_files() {
    assert!(matches!(parse_midi_bytes(&[0u8; 4]), Ok(None)));
    let mut bad = b"MThd".to_vec();
    bad.extend_from_slice(&[0, 0, 0, 6, 0, 0, 0, 1, 0, 96]);
    assert!(matches!(parse_midi_bytes(&bad), Ok(Some(_))));
}

use audio_haxor::open_with::{
    default_opener, file_open_failure, project_open_failure, project_spawn_failure, reveal_in_folder, Reveal,
};

#[test]
fn default_openers_by_platform() {
    let (p, args) = default_opener(Platform::Windows, "C:\\a b.als").unwrap();
    assert_eq!(p, "cmd");
    assert_eq!(args, vec!["/C", "start", "", "C:\\a b.als"]);
    assert_eq!(default_opener(Platform::MacOs, "/x.als").unwrap(), ("open", vec!["/x.als".to_string()]));
    assert_eq!(default_opener(Platform::Linux, "/x.als").unwrap().0, "xdg-open");
    assert!(default_opener(Platform::Other, "/x.als").is_none());
}

#[test]
fn open_failures_explain_themselves() {
    assert_eq!(
        project_open_failure(Platform::MacOs, "LSOpenURLsWithRole() failed: No application can open it\n"),
        "No application installed to open this project file"
    );
    assert_eq!(project_open_failure(Platform::MacOs, "  permission denied \n"), "Failed to open project: permission denied");
    assert_eq!(project_open_failure(Platform::Linux, "whatever"), "No application installed to open this project file");
    assert_eq!(file_open_failure(Platform::MacOs, " busy\n"), "open failed: busy");
    assert_eq!(file_open_failure(Platform::Windows, "x"), "start failed");
    assert_eq!(file_open_failure(Platform::Linux, "x"), "xdg-open failed");
}

#[test]
fn reveal_commands_by_platform() {
    match reveal_in_folder(Platform::Windows, "C:\\VST\\A.dll") {
        Reveal::Run { program, args } => {
            assert_eq!(program, "explorer");
            assert_eq!(args, vec!["/select,C:\\VST\\A.dll"]);
        }
        _ => panic!("expected a command"),
    }
    match reveal_in_folder(Platform::MacOs, "/L/A.vst3") {
        Reveal::Run { program, args } => assert_eq!((program, args), ("open", vec!["-R".to_string(), "/L/A.vst3".to_string()])),
        _ => panic!("expected a command"),
    }
    assert!(matches!(reveal_in_folder(Platform::Linux, "/x"), Reveal::OpenParent));
    assert!(matches!(reveal_in_folder(Platform::Other, "/x"), Reveal::Unsupported));
}

use audio_haxor::prefs::{parse_u64_text, pref_count, PrefValue};

#[test]
fn count_preferences_parse_default_and_clamp() {
    assert_eq!(pref_count(None, 100, 10, 200), 100);
    assert_eq!(pref_count(Some(PrefValue::Text("50".into())), 100, 10, 200), 50);
    assert_eq!(pref_count(Some(PrefValue::Text("+5".into())), 100, 10, 200), 10);
    assert_eq!(pref_count(Some(PrefValue::Text("abc".into())), 100, 10, 200), 100);
    assert_eq!(pref_count(Some(PrefValue::Text(" 50".into())), 100, 10, 200), 100);
    assert_eq!(pref_count(Some(PrefValue::Number(100000)), 256, 64, 512), 512);
    assert_eq!(pref_count(Some(PrefValue::Other), 10240, 256, 65536), 10240);
    assert_eq!(pref_count(Some(PrefValue::Text("99999999999999999999".into())), 8, 1, 16), 8);
    assert_eq!(pref_count(Some(PrefValue::Text("18446744073709551615".into())), 8, 1, 16), 16);
}

#[test]
fn u64_text_parsing_matches_std() {
    for s in ["0", "+0", "42", "007", "18446744073709551615", "18446744073709551616", "", "+", "-1", "1_000", "١"] {
        assert_eq!(parse_u64_text(s), s.parse::<u64>().ok(), "{s:?}");
    }
}

#[test]
fn project_spawn_failures() {
    assert_eq!(
        project_spawn_failure(Platform::Linux, "No such file or directory (os error 2)"),
        "No application installed to open this project file: No such file or directory (os error 2)"
    );
    assert_eq!(project_spawn_failure(Platform::MacOs, "denied"), "denied");
}
