use audio_haxor::generators::{fits_generation, generate, generate_batch, generate_events};
use audio_haxor::kits::{fits_kit, generate_kit, kit_file_name, kit_layers, kit_name, kit_seed, pack_name, validate_kit, KitGenConfig};
use audio_haxor::midi::{parse_midi_bytes, MidiSummary};
use audio_haxor::midi_gen::{
    build_filename, build_track_name, key_sig_sf, parse_chord_name, resolve_chords, resolve_config, write_vlq, LeadType,
    MidiGenConfig, PPQN,
};

fn cfg(lead_type: LeadType) -> MidiGenConfig {
    MidiGenConfig {
        key_root: 9,
        minor: true,
        lead_type,
        chords: vec![0, 5, 7, 3],
        progression: vec![],
        bpm: 120,
        bars_per_chord: 2,
        length_bars: None,
        chromaticism: 15,
        seed: 42,
        name: Some("Test".into()),
        variations: None,
    }
}

fn summary(bytes: &[u8]) -> MidiSummary {
    match parse_midi_bytes(bytes) {
        Ok(Some(s)) => s,
        _ => panic!("generated file does not parse"),
    }
}

fn roundtrip(lead_type: LeadType) -> MidiSummary {
    summary(&generate(&cfg(lead_type)).unwrap())
}

fn tempo_bpm(s: &MidiSummary) -> f64 {
    60_000_000.0 / s.shown_tempo_us as f64
}

const ALL_LEAD_TYPES: [LeadType; 16] = [
    LeadType::TwoLayer,
    LeadType::Zigzag,
    LeadType::Bounce,
    LeadType::Cell,
    LeadType::Shuffle,
    LeadType::ChordArp,
    LeadType::GatedStab,
    LeadType::PadChord,
    LeadType::DeepBass,
    LeadType::SubBass,
    LeadType::Progressive,
    LeadType::Trill,
    LeadType::SlowMelody,
    LeadType::ChordPluck,
    LeadType::PianoChord,
    LeadType::Unison,
];

#[test]
fn test_deterministic_same_seed() {
    let a = generate(&cfg(LeadType::TwoLayer)).unwrap();
    let b = generate(&cfg(LeadType::TwoLayer)).unwrap();
    assert_eq!(a, b, "same seed must produce identical output");
}

#[test]
fn test_different_seeds_differ() {
    let mut c1 = cfg(LeadType::TwoLayer);
    let mut c2 = cfg(LeadType::TwoLayer);
    c1.seed = 1;
    c2.seed = 2;
    assert_ne!(generate(&c1).unwrap(), generate(&c2).unwrap());
}

#[test]
fn test_batch_produces_variations() {
    let mut c = cfg(LeadType::TwoLayer);
    c.variations = Some(5);
    let batch = generate_batch(&c).unwrap();
    assert_eq!(batch.len(), 5);
    for i in 1..batch.len() {
        assert_ne!(batch[0], batch[i], "variation {i} should differ from 0");
    }
}

#[test]
fn test_validation_bad_key_root() {
    let mut c = cfg(LeadType::TwoLayer);
    c.key_root = 12;
    assert!(generate(&c).is_err());
}

#[test]
fn test_validation_empty_chords() {
    let mut c = cfg(LeadType::TwoLayer);
    c.chords = vec![];
    assert!(generate(&c).is_err());
}

#[test]
fn test_validation_zero_bpm() {
    let mut c = cfg(LeadType::TwoLayer);
    c.bpm = 0;
    assert!(generate(&c).is_err());
}

#[test]
fn test_vlq_encoding() {
    let cases: [(u32, &[u8]); 5] = [
        (0, &[0x00]),
        (0x7F, &[0x7F]),
        (0x80, &[0x81, 0x00]),
        (480, &[0x83, 0x60]),
        (268_435_455, &[0xFF, 0xFF, 0xFF, 0x7F]),
    ];
    for (val, expected) in &cases {
        let mut buf = Vec::new();
        write_vlq(&mut buf, *val);
        assert_eq!(&buf, expected, "VLQ for {val}");
    }
}

#[test]
fn test_key_sig_sf_values() {
    assert_eq!(key_sig_sf(0, false), 0);
    assert_eq!(key_sig_sf(9, true), 0);
    assert_eq!(key_sig_sf(7, false), 1);
    assert_eq!(key_sig_sf(3, false), -3);
    assert_eq!(key_sig_sf(4, true), 1);
}

#[test]
fn test_all_12_keys_generate() {
    for root in 0..12u8 {
        for minor in [true, false] {
            let c = MidiGenConfig {
                key_root: root,
                minor,
                lead_type: LeadType::TwoLayer,
                chords: vec![0, 5, 7],
                progression: vec![],
                bpm: 120,
                bars_per_chord: 1,
                length_bars: None,
                chromaticism: 15,
                seed: 99,
                name: None,
                variations: None,
            };
            let bytes = generate(&c).unwrap();
            assert!(bytes.len() > 14, "key {root} minor={minor} produced too few bytes");
        }
    }
}

#[test]
fn test_parse_chord_names() {
    assert_eq!(parse_chord_name("Am"), Some(9));
    assert_eq!(parse_chord_name("C"), Some(0));
    assert_eq!(parse_chord_name("F#m"), Some(6));
    assert_eq!(parse_chord_name("Bbm"), Some(10));
    assert_eq!(parse_chord_name("Dm"), Some(2));
    assert_eq!(parse_chord_name("G"), Some(7));
    assert_eq!(parse_chord_name("Eb"), Some(3));
    assert_eq!(parse_chord_name("Dbm"), Some(1));
    assert_eq!(parse_chord_name(""), None);
}

#[test]
fn test_progression_names_resolve() {
    let mut c = cfg(LeadType::TwoLayer);
    c.chords = vec![];
    c.progression = vec!["Am".into(), "Dm".into(), "Em".into(), "C".into()];
    let resolved = resolve_chords(&c);
    assert_eq!(resolved, vec![0, 5, 7, 3]);
}

#[test]
fn test_progression_takes_precedence() {
    let mut c = cfg(LeadType::TwoLayer);
    c.chords = vec![0, 0, 0, 0];
    c.progression = vec!["Am".into(), "F".into(), "G".into()];
    let resolved = resolve_chords(&c);
    assert_eq!(resolved, vec![0, 8, 10]);
}

#[test]
fn test_length_bars_repeats_progression() {
    let mut c = cfg(LeadType::TwoLayer);
    c.progression = vec!["Am".into(), "Dm".into()];
    c.bars_per_chord = 2;
    c.length_bars = Some(16);
    let resolved = resolve_config(&c);
    assert_eq!(resolved.chords.len(), 8);
    assert_eq!(resolved.chords[0], resolved.chords[2]);
    assert_eq!(resolved.chords[1], resolved.chords[3]);
}

#[test]
fn every_lead_type_reads_back_with_key_and_tempo() {
    for lt in ALL_LEAD_TYPES {
        let s = roundtrip(lt);
        assert_eq!(s.format, 0);
        assert_eq!(s.track_count, 1);
        assert_eq!(s.ppqn, PPQN as u16);
        assert!((tempo_bpm(&s) - 120.0).abs() < 0.5);
        assert_eq!(s.key_signature, "A minor");
        assert_eq!(s.time_signature, "4/4");
        assert!(s.note_count > 0, "{lt:?} produced no notes");
    }
}

#[test]
fn generated_note_counts_match_the_patterns() {
    assert!(roundtrip(LeadType::TwoLayer).note_count > 100);
    assert!(roundtrip(LeadType::Zigzag).note_count > 100);
    assert!(roundtrip(LeadType::Bounce).note_count > 50);
    assert!(roundtrip(LeadType::Cell).note_count > 50);
    assert!(roundtrip(LeadType::Shuffle).note_count > 100);
    assert!(roundtrip(LeadType::ChordArp).note_count > 100);
    assert!(roundtrip(LeadType::GatedStab).note_count > 50);
    assert!(roundtrip(LeadType::PadChord).note_count > 15);
    assert!(roundtrip(LeadType::DeepBass).note_count >= 4);
    assert!(roundtrip(LeadType::SubBass).note_count > 50);
    assert!(roundtrip(LeadType::Progressive).note_count > 100);
    assert!(roundtrip(LeadType::Trill).note_count > 50);
    assert!(roundtrip(LeadType::SlowMelody).note_count >= 8);
    assert!(roundtrip(LeadType::ChordPluck).note_count > 100);
    assert!(roundtrip(LeadType::PianoChord).note_count > 20);
    assert!(roundtrip(LeadType::Unison).note_count > 100);
}

#[test]
fn generated_notes_end_within_the_piece() {
    for lt in ALL_LEAD_TYPES {
        for bpc in [1u8, 2, 4, 8] {
            let mut c = cfg(lt);
            c.bars_per_chord = bpc;
            let events = generate_events(&c).unwrap();
            let span = 4 * bpc as u32 * 384 + 384;
            for e in &events {
                assert!(e.dur > 0, "{lt:?}: note without length");
                assert!(e.tick + e.dur <= span, "{lt:?}: note past the piece");
            }
            let s = summary(&generate(&c).unwrap());
            assert!(s.total_ticks <= span);
        }
    }
}

#[test]
fn major_key_is_written() {
    let mut c = cfg(LeadType::TwoLayer);
    c.minor = false;
    c.key_root = 0;
    assert_eq!(roundtrip_cfg(&c).key_signature, "C major");
}

fn roundtrip_cfg(c: &MidiGenConfig) -> MidiSummary {
    summary(&generate(c).unwrap())
}

#[test]
fn more_bars_per_chord_give_more_notes() {
    let mut c = cfg(LeadType::TwoLayer);
    c.bars_per_chord = 1;
    let one = roundtrip_cfg(&c).note_count;
    c.bars_per_chord = 4;
    let four = roundtrip_cfg(&c).note_count;
    assert!(four > one);
}

#[test]
fn length_bars_sets_the_duration() {
    let mut c = cfg(LeadType::Zigzag);
    c.progression = vec!["Am".into(), "Dm".into()];
    c.bars_per_chord = 2;
    c.length_bars = Some(8);
    let s = roundtrip_cfg(&c);
    let seconds = s.total_ticks as f64 / s.ppqn as f64 * (s.tempo_us as f64 / 1_000_000.0);
    assert!(seconds > 10.0 && seconds < 20.0, "expected about 16 s, got {seconds}");
}

#[test]
fn track_name_is_key_and_pattern() {
    let mut u = cfg(LeadType::Unison);
    u.name = None;
    assert_eq!(roundtrip_cfg(&u).track_names, vec!["Am Unison".to_string()]);
    let c = cfg(LeadType::TwoLayer);
    assert_eq!(build_track_name(&c, 2, 5), "Am TwoLayer 03");
    assert_eq!(build_filename(&c, 0, 1), "Am_TwoLayer_4chords_8bars_120bpm_seed42.mid");
}

#[test]
fn configured_name_is_the_track_name() {
    let c = cfg(LeadType::TwoLayer);
    let bytes = generate(&c).unwrap();
    assert!(bytes.windows(7).any(|w| w == [0xFF, 0x03, 4, b'T', b'e', b's', b't']));
    assert_eq!(summary(&bytes).track_names, vec!["Test".to_string()]);
    let mut b = cfg(LeadType::Zigzag);
    b.variations = Some(2);
    for f in generate_batch(&b).unwrap() {
        assert_eq!(summary(&f).track_names, vec!["Test".to_string()]);
    }
}

#[test]
fn base_name_counts_chords_and_bars() {
    let mut c = cfg(LeadType::TwoLayer);
    c.bpm = 140;
    c.name = None;
    assert_eq!(build_filename(&c, 0, 1), "Am_TwoLayer_4chords_8bars_140bpm_seed42.mid");
    assert_eq!(build_filename(&c, 1, 3), "Am_TwoLayer_4chords_8bars_140bpm_seed42_02.mid");
    c.length_bars = Some(12);
    assert_eq!(build_filename(&c, 0, 1), "Am_TwoLayer_4chords_12bars_140bpm_seed42.mid");
}

#[test]
fn batch_variation_names_are_numbered() {
    let mut c = cfg(LeadType::SubBass);
    c.name = None;
    c.variations = Some(3);
    let batch = generate_batch(&c).unwrap();
    assert_eq!(summary(&batch[1]).track_names, vec!["Am SubBass 02".to_string()]);
    c.variations = Some(0);
    assert_eq!(generate_batch(&c).unwrap().len(), 1);
}

#[test]
fn validation_messages() {
    let mut c = cfg(LeadType::TwoLayer);
    c.bpm = 301;
    assert_eq!(generate(&c).unwrap_err(), "bpm must be 1–300");
    let mut c = cfg(LeadType::TwoLayer);
    c.bars_per_chord = 0;
    assert_eq!(generate_events(&c).unwrap_err(), "bars_per_chord must be >= 1");
    let mut c = cfg(LeadType::TwoLayer);
    c.key_root = 12;
    assert_eq!(generate_batch(&c).unwrap_err(), "key_root must be 0–11");
}

fn kit_cfg(layers: Vec<LeadType>) -> KitGenConfig {
    KitGenConfig {
        key_root: 9,
        minor: true,
        progression: vec!["Am".into(), "Dm".into(), "Em".into(), "C".into()],
        chords: vec![],
        bpm: 140,
        bars_per_chord: 2,
        length_bars: None,
        chromaticism: 15,
        seed: 42,
        num_kits: 3,
        layers,
    }
}

#[test]
fn kit_names_and_layers() {
    let c = kit_cfg(vec![]);
    assert!(validate_kit(&c).is_ok());
    assert_eq!(kit_name(&c, 0), "Kit 1 (Am) (140 BPM)");
    assert_eq!(pack_name(&c, "2026-04-17_120000"), "Trance MIDI Pack Am 140BPM 2026-04-17_120000");
    assert_eq!(kit_seed(42, 2), 44);
    assert_eq!(kit_seed(u64::MAX, 1), 0);
    let layers = kit_layers(&c);
    assert_eq!(layers.len(), 12);
    assert_eq!(layers[0].1, "Lead TwoLayer");
    assert_eq!(layers[11].1, "Sub Bass");
    let custom = kit_layers(&kit_cfg(vec![LeadType::TwoLayer, LeadType::PadChord, LeadType::Zigzag]));
    let names: Vec<&str> = custom.iter().map(|l| l.1).collect();
    assert_eq!(names, vec!["Lead TwoLayer", "Pad", "Zigzag"]);
}

#[test]
fn kit_files_are_layer_files() {
    let c = kit_cfg(vec![LeadType::TwoLayer, LeadType::PadChord, LeadType::DeepBass]);
    let files = generate_kit(&c, 0).unwrap();
    assert_eq!(files.len(), 3);
    assert_eq!(files[1].0, "Pad");
    for (_, bytes) in &files {
        assert!(bytes.len() > 14);
        assert_eq!(summary(bytes).key_signature, "A minor");
    }
}

#[test]
fn kit_validation_messages() {
    let mut c = kit_cfg(vec![]);
    c.num_kits = 0;
    assert_eq!(validate_kit(&c).unwrap_err(), "num_kits must be >= 1");
    c.key_root = 13;
    assert_eq!(validate_kit(&c).unwrap_err(), "key_root must be 0–11");
}

#[test]
fn fits_generation_accepts_ordinary_settings() {
    assert!(fits_generation(&cfg(LeadType::TwoLayer)));
    let mut c = cfg(LeadType::DeepBass);
    c.chromaticism = 150;
    assert!(fits_generation(&c));
}

#[test]
fn fits_generation_refuses_chromaticism_over_100_for_melodies() {
    for lt in [LeadType::TwoLayer, LeadType::Unison, LeadType::ChordArp, LeadType::SlowMelody] {
        let mut c = cfg(lt);
        c.chromaticism = 101;
        assert!(!fits_generation(&c));
    }
    let mut c = cfg(LeadType::TwoLayer);
    c.chromaticism = 100;
    assert!(fits_generation(&c));
}

#[test]
fn fits_generation_refuses_pieces_too_long_for_midi() {
    let mut c = cfg(LeadType::Zigzag);
    c.length_bars = Some(u32::MAX);
    assert!(!fits_generation(&c));
    c.length_bars = Some(1_000_000);
    assert!(!fits_generation(&c));
    c.length_bars = Some(64);
    assert!(fits_generation(&c));
}

#[test]
fn fits_generation_holds_for_settings_generate_refuses() {
    let mut c = cfg(LeadType::TwoLayer);
    c.key_root = 12;
    c.chromaticism = 200;
    assert!(fits_generation(&c));
    assert_eq!(generate(&c).unwrap_err(), "key_root must be 0–11");
}

#[test]
fn fits_kit_follows_the_kit_settings() {
    assert!(fits_kit(&kit_cfg(vec![])));
    let mut k = kit_cfg(vec![LeadType::DeepBass]);
    k.chromaticism = 120;
    assert!(fits_kit(&k));
    let mut k = kit_cfg(vec![LeadType::DeepBass, LeadType::SlowMelody]);
    k.chromaticism = 120;
    assert!(!fits_kit(&k));
    let mut k = kit_cfg(vec![]);
    k.chromaticism = 101;
    assert!(!fits_kit(&k));
    let mut k = kit_cfg(vec![]);
    k.length_bars = Some(2_000_000);
    assert!(!fits_kit(&k));
}

#[test]
fn lead_types_keep_their_density_and_velocity() {
    for lt in ALL_LEAD_TYPES {
        for bpc in [1u8, 2, 3] {
            for seed in [1u64, 42, 7777] {
                let mut c = cfg(lt);
                c.bars_per_chord = bpc;
                c.seed = seed;
                let events = generate_events(&c).unwrap();
                let b = 4 * bpc as usize;
                let n = events.len();
                let all = |v: u8| events.iter().all(|e| e.vel == v);
                let within = |lo: u8, hi: u8| events.iter().all(|e| lo <= e.vel && e.vel <= hi);
                let lasting = |d: u32| events.iter().all(|e| e.dur == d);
                let register = |lo: u8, hi: u8| events.iter().all(|e| lo <= e.pitch && e.pitch <= hi);
                let ok = match lt {
                    LeadType::TwoLayer => register(36, 88) && all(104) && n == 24 * b,
                    LeadType::Zigzag => register(36, 89) && all(122) && lasting(24) && n == 16 * b,
                    LeadType::Bounce => register(36, 89) && all(122) && n == 12 * b,
                    LeadType::Cell => register(36, 85) && all(122) && n == 16 * b,
                    LeadType::Shuffle => register(36, 80) && all(122) && n == 21 * b,
                    LeadType::ChordArp => register(36, 81) && all(100) && n == 16 * b,
                    LeadType::GatedStab => register(36, 81) && all(120) && n >= 12 * b,
                    LeadType::PadChord => register(36, 79) && all(100) && 2 * b <= n && n <= 7 * b,
                    LeadType::DeepBass => register(36, 55) && within(90, 100) && 4 <= n && n <= 2 * b,
                    LeadType::SubBass => register(36, 60) && all(110) && lasting(24) && (n == 16 * b || n == 12 * b),
                    LeadType::Progressive => register(36, 79) && all(105) && lasting(48) && 16 * b <= n && n <= 56 * b,
                    LeadType::Trill => register(60, 84) && all(110) && lasting(12) && n == 32 * b,
                    LeadType::SlowMelody => register(59, 82) && all(100) && b <= n && n <= 4 * b,
                    LeadType::ChordPluck => register(36, 79) && all(108) && lasting(24) && n >= 32 * b,
                    LeadType::PianoChord => register(36, 84) && within(85, 100) && n >= 3 * b,
                    LeadType::Unison => register(36, 104) && within(95, 105) && 24 * b <= n && n <= 40 * b,
                };
                assert!(ok, "{lt:?} bpc {bpc} seed {seed}: {n} notes");
            }
        }
    }
}

#[test]
fn kit_layer_is_generated_with_kit_seed() {
    let mut c = kit_cfg(vec![LeadType::PadChord]);
    c.num_kits = 2;
    for i in 0..2u16 {
        let files = generate_kit(&c, i).unwrap();
        let m = MidiGenConfig {
            key_root: 9,
            minor: true,
            lead_type: LeadType::PadChord,
            chords: vec![],
            progression: vec!["Am".into(), "Dm".into(), "Em".into(), "C".into()],
            bpm: 140,
            bars_per_chord: 2,
            length_bars: None,
            chromaticism: 15,
            seed: 42 + i as u64,
            name: Some("Pad".into()),
            variations: Some(1),
        };
        assert_eq!(files[0].1, generate(&m).unwrap());
        assert_eq!(summary(&files[0].1).track_names, vec!["Pad".to_string()]);
    }
}

#[test]
fn kit_layer_file_names() {
    assert_eq!(kit_file_name("Sub Bass"), "Sub Bass.mid");
}

#[test]
fn every_lead_type_is_deterministic() {
    for lt in ALL_LEAD_TYPES {
        let c = cfg(lt);
        assert_eq!(generate(&c).unwrap(), generate(&c).unwrap(), "{lt:?} file differs between runs");
        let a = format!("{:?}", generate_events(&c).unwrap());
        let b = format!("{:?}", generate_events(&c).unwrap());
        assert_eq!(a, b, "{lt:?} notes differ between runs");
    }
}

#[test]
fn one_file_batch_is_generate() {
    for lt in [LeadType::TwoLayer, LeadType::Unison, LeadType::SlowMelody, LeadType::Trill] {
        let mut c = cfg(lt);
        c.name = None;
        c.variations = Some(1);
        let batch = generate_batch(&c).unwrap();
        assert_eq!(batch.len(), 1);
        assert_eq!(batch[0], generate(&c).unwrap());
    }
}

#[test]
fn seed_changes_every_melodic_lead() {
    for lt in [LeadType::TwoLayer, LeadType::Unison, LeadType::SlowMelody] {
        let mut c1 = cfg(lt);
        let mut c2 = cfg(lt);
        c1.seed = 7;
        c2.seed = 8;
        let a = format!("{:?}", generate_events(&c1).unwrap());
        let b = format!("{:?}", generate_events(&c2).unwrap());
        assert_ne!(a, b, "{lt:?}");
    }
}
