use audio_haxor::sample_analysis::{
    analyze_sample, detect_manufacturer, extract_bpm, extract_key, extract_pack_name, match_category, CategoryMatch,
    PackMatch,
};

/// Scores as the fractions the catalogue uses.
trait Scores {
    fn genre_score(&self) -> f32;
    fn hardness_score(&self) -> f32;
}

impl Scores for PackMatch {
    fn genre_score(&self) -> f32 {
        self.genre_centi as f32 / 100.0
    }

    fn hardness_score(&self) -> f32 {
        self.hardness_centi as f32 / 100.0
    }
}

/// Confidence as the fraction the catalogue uses.
trait Confidence {
    fn confidence(&self) -> f32;
}

impl Confidence for CategoryMatch {
    fn confidence(&self) -> f32 {
        self.confidence_pct as f32 / 100.0
    }
}


// --- BPM ---

#[test]
fn bpm_explicit_marker() {
    assert_eq!(extract_bpm("Lead 145 bpm.wav"), Some(145));
    assert_eq!(extract_bpm("132bpm"), Some(132));
    assert_eq!(extract_bpm("RY_ELYSIUM_LEAD LOOP_002_F_132bpm"), Some(132));
    assert_eq!(extract_bpm("140BPM_Kick.wav"), Some(140));
}

#[test]
fn bpm_bracket_delimited() {
    assert_eq!(extract_bpm("Kick[140]_hard.wav"), Some(140));
    assert_eq!(extract_bpm("Bass[128].wav"), Some(128));
}

#[test]
fn bpm_underscore_delimited() {
    assert_eq!(extract_bpm("Loop_138_Am.wav"), Some(138));
    assert_eq!(extract_bpm("Pad_120_Cm.wav"), Some(120));
}

#[test]
fn bpm_dash_delimited() {
    assert_eq!(extract_bpm("Tidy1 - Lead Loop 10 - PT3 - 140 BPM - Bm"), Some(140));
}

#[test]
fn bpm_out_of_range() {
    assert_eq!(extract_bpm("Sample_44100_Hz.wav"), None); // 44100 not in 80-180
    assert_eq!(extract_bpm("Track_01.wav"), None);        // 01 not in range
}

#[test]
fn bpm_prefers_explicit_marker() {
    // If both explicit and delimited exist, prefer explicit
    assert_eq!(extract_bpm("Loop_100_128bpm.wav"), Some(128));
}

// --- Key ---

#[test]
fn key_explicit_minor() {
    assert_eq!(extract_key("BassLoop_Reeeeze_142_Cm_PL"), Some("C Minor".into()));
    assert_eq!(extract_key("Tidy1 - Lead Loop 10 - PT3 - 140 BPM - Bm"), Some("B Minor".into()));
    assert_eq!(extract_key("Synth Chord Pad Cosmic Fmin"), Some("F Minor".into()));
    assert_eq!(extract_key("Loop_Am_128.wav"), Some("A Minor".into()));
}

#[test]
fn key_explicit_major() {
    assert_eq!(extract_key("E-Piano Motion CMaj9"), Some("C Major".into()));
    assert_eq!(extract_key("Pad_Gmaj_120.wav"), Some("G Major".into()));
}

#[test]
fn key_bare_note_defaults_minor() {
    assert_eq!(extract_key("RY_ELYSIUM_LEAD LOOP_002_F_132bpm"), Some("F Minor".into()));
    assert_eq!(extract_key("Full On Lead Loop 8 C# 140 BPM"), Some("C# Minor".into()));
}

#[test]
fn key_sharps_and_flats() {
    assert_eq!(extract_key("Lead_F#m_140.wav"), Some("F# Minor".into()));
    assert_eq!(extract_key("Pad_Bbm_120.wav"), Some("A# Minor".into())); // Bb → A#
    assert_eq!(extract_key("Bass_Ebmin.wav"), Some("D# Minor".into()));   // Eb → D#
}

#[test]
fn key_sharp_flat_words() {
    // "G Sharp" == "G#" (NOT folded to F#!)
    assert_eq!(extract_key("DPTE2 Bass Loop - 001 - G Sharp - 140 BPM.wav"), Some("G# Minor".into()));
    assert_eq!(extract_key("DPTE2 Pluck Loop - 016 - G Sharp Minor - 140 BPM.wav"), Some("G# Minor".into()));
    assert_eq!(extract_key("Propht - C Sharp Minor.wav"), Some("C# Minor".into()));
    assert_eq!(extract_key("DPTE2 Vocal Stab - 006 - C Sharp.wav"), Some("C# Minor".into()));
    // "B Flat" == "Bb" == "A#"
    assert_eq!(extract_key("Synth_B Flat Minor_120.wav"), Some("A# Minor".into()));
    assert_eq!(extract_key("Lead - E Flat - 128 BPM.wav"), Some("D# Minor".into()));
    // All sharp word forms → sharp notation (stays as sharp)
    assert_eq!(extract_key("Loop_A Sharp_140.wav"), Some("A# Minor".into()));
    assert_eq!(extract_key("Loop_C Sharp_140.wav"), Some("C# Minor".into()));
    assert_eq!(extract_key("Loop_D Sharp_140.wav"), Some("D# Minor".into()));
    assert_eq!(extract_key("Loop_F Sharp_140.wav"), Some("F# Minor".into()));
    assert_eq!(extract_key("Loop_G Sharp_140.wav"), Some("G# Minor".into()));
}

#[test]
fn key_all_flats_fold_to_sharps() {
    // All flats must fold to their enharmonic sharp equivalent
    // Db → C#
    assert_eq!(extract_key("Loop_Dbm_140.wav"), Some("C# Minor".into()));
    assert_eq!(extract_key("Loop_D Flat_140.wav"), Some("C# Minor".into()));
    assert_eq!(extract_key("Loop - D Flat Minor.wav"), Some("C# Minor".into()));
    // Eb → D#
    assert_eq!(extract_key("Loop_Ebm_140.wav"), Some("D# Minor".into()));
    assert_eq!(extract_key("Loop_E Flat_140.wav"), Some("D# Minor".into()));
    assert_eq!(extract_key("Loop - E Flat Minor.wav"), Some("D# Minor".into()));
    // Gb → F#
    assert_eq!(extract_key("Loop_Gbm_140.wav"), Some("F# Minor".into()));
    assert_eq!(extract_key("Loop_G Flat_140.wav"), Some("F# Minor".into()));
    assert_eq!(extract_key("Loop - G Flat Minor.wav"), Some("F# Minor".into()));
    // Ab → G#
    assert_eq!(extract_key("Loop_Abm_140.wav"), Some("G# Minor".into()));
    assert_eq!(extract_key("Loop_A Flat_140.wav"), Some("G# Minor".into()));
    assert_eq!(extract_key("Loop - A Flat Minor.wav"), Some("G# Minor".into()));
    // Bb → A#
    assert_eq!(extract_key("Loop_Bbm_140.wav"), Some("A# Minor".into()));
    assert_eq!(extract_key("Loop_B Flat_140.wav"), Some("A# Minor".into()));
    assert_eq!(extract_key("Loop - B Flat Minor.wav"), Some("A# Minor".into()));
}

#[test]
fn key_sharps_stay_as_sharps() {
    // Sharps must NOT be folded - G# stays G#, not folded to Ab or anything else
    assert_eq!(extract_key("Loop_C#m_140.wav"), Some("C# Minor".into()));
    assert_eq!(extract_key("Loop_D#m_140.wav"), Some("D# Minor".into()));
    assert_eq!(extract_key("Loop_F#m_140.wav"), Some("F# Minor".into()));
    assert_eq!(extract_key("Loop_G#m_140.wav"), Some("G# Minor".into()));
    assert_eq!(extract_key("Loop_A#m_140.wav"), Some("A# Minor".into()));
}

#[test]
fn key_no_match() {
    assert_eq!(extract_key("Kick_Hard_01.wav"), None);
    assert_eq!(extract_key("Crash_Big.wav"), None);
}

// --- Category ---

#[test]
fn category_from_filename() {
    let m = match_category("TechKick_Rumble_128_01.wav", "/Samples/Kicks/").unwrap();
    assert_eq!(m.name, "kick");
    assert_eq!(m.confidence(), 1.0);

    let m = match_category("Deep_Sub_A_138BPM.wav", "/Samples/Bass/").unwrap();
    assert_eq!(m.name, "sub_bass");

    let m = match_category("Riser_8bar_Up.wav", "/FX/").unwrap();
    assert_eq!(m.name, "fx_riser");
}

#[test]
fn category_from_directory_fallback() {
    let m = match_category("TK_01.wav", "/Samples/Kicks/Techno/").unwrap();
    assert_eq!(m.name, "kick");
    assert_eq!(m.confidence(), 0.6); // directory match = lower confidence
}

// --- Manufacturer ---

#[test]
fn manufacturer_detection() {
    let m = detect_manufacturer("/Users/wizard/Samples/Drumcode/Techno Vol 3/Kicks/").unwrap();
    assert_eq!(m.manufacturer_pattern, "Drumcode");
    assert!(m.genre_score() < 0.0);  // techno-leaning

    let m = detect_manufacturer("/Samples/Tidy - Bits & Pieces Vol 1/Leads/").unwrap();
    assert_eq!(m.manufacturer_pattern, "Tidy");
    assert!(m.genre_score() > 0.0);  // trance-leaning
    assert!(m.hardness_score() > 0.5); // hard
}

#[test]
fn manufacturer_prefers_longer_match() {
    // "Hard Techno" should match over just "Hard" if both existed
    let m = detect_manufacturer("/Definition of Hard Techno/Kicks/").unwrap();
    assert_eq!(m.manufacturer_pattern, "Definition of Hard Techno");
}

// --- Pack name ---

#[test]
fn pack_name_extraction() {
    assert_eq!(
        extract_pack_name("/Users/wizard/Samples/Producer loops/Tidy - Bits & Pieces Vol 1/Leads/"),
        Some("Tidy - Bits & Pieces Vol 1".into())
    );
    assert_eq!(
        extract_pack_name("/Samples/Loopmasters/Techno Essentials/Kicks/"),
        Some("Techno Essentials".into())
    );
}

// --- Full analysis ---

#[test]
fn full_analysis() {
    let a = analyze_sample(
        "RY_TRIPTYKH_VOL1_RUMBLE_KICK_LOOP_004_154bpm.wav",
        "/Samples/Definition of Hard Techno/Vol1/",
    );
    assert_eq!(a.parsed_bpm, Some(154));
    assert!(a.is_loop);
    assert!(a.category.is_some());
    assert_eq!(a.category.as_ref().unwrap().name, "kick");
    assert!(a.manufacturer.is_some());
    assert_eq!(a.manufacturer.as_ref().unwrap().manufacturer_pattern, "Definition of Hard Techno");
}

// --- Real-world filenames from the DB ---

#[test]
fn real_bpm_parsing() {
    assert_eq!(extract_bpm("DPTE2 Techno Loop - 046 - 140 BPM"), Some(140));
    assert_eq!(extract_bpm("Loop 19 (120BPM)"), Some(120));
    assert_eq!(extract_bpm("42 Minimal_Techno_Beat 124BPM Full Layered"), Some(124));
    assert_eq!(extract_bpm("BFM_DT1_DarkTechnoLoop_60_Ebm_125bpm"), Some(125));
    assert_eq!(extract_bpm("RK_MT1_Bass_Loop_19_127bpm_Bmin"), Some(127));
    assert_eq!(extract_bpm("RK_RT3_Background_Loop_04_130bpm"), Some(130));
    assert_eq!(extract_bpm("AOG_RST_SchoolOfWisdom_Drumloop_94bpm_Em_60"), Some(94));
    assert_eq!(extract_bpm("TA_TECHNO_SYNTH_25_125bpm_C"), Some(125));
}

#[test]
fn real_key_parsing() {
    assert_eq!(extract_key("Tidy1 - Lead Loop  06 - PT3 - 140 BPM - G#m"), Some("G# Minor".into()));
    assert_eq!(extract_key("Tidy1 - Bass Loop 02 - PT3 - 140 BPM - Dm"), Some("D Minor".into()));
    assert_eq!(extract_key("PLX_ELT_128_kit_always_synth_Ebmin"), Some("D# Minor".into()));
    assert_eq!(extract_key("GH_EP_Vocal Loop_17_145_C#m_Dry"), Some("C# Minor".into()));
    assert_eq!(extract_key("RK_MT1_Bass_Loop_19_127bpm_Bmin"), Some("B Minor".into()));
    assert_eq!(extract_key("BFM_DT1_DarkTechnoLoop_60_Ebm_125bpm"), Some("D# Minor".into()));
    assert_eq!(extract_key("ZTTP_126_D#_Bass_Loop_1_SC"), Some("D# Minor".into()));
    assert_eq!(extract_key("RK_DT3_Synth_Seq_22_128bpm_Cmin"), Some("C Minor".into()));
    assert_eq!(extract_key("BEEFE_PSY_Trance_Kick6_A#"), Some("A# Minor".into()));
    assert_eq!(extract_key("002_a__Synth_Loop_1_128bpm_G_-_IGNITETECHNO_Zenhiser"), Some("G Minor".into()));
}

#[test]
fn real_category_matching() {
    // Kick from filename
    let m = match_category("Kick Drum Tight 02", "/Drums/").unwrap();
    assert_eq!(m.name, "kick");

    // Clap/snare
    let m = match_category("snare-02", "/Drums/Snares/").unwrap();
    assert_eq!(m.name, "snare"); // snare maps to clap category

    // Hi-hat
    let m = match_category("Tr8 Closed Hat 03", "/Drums/Hats/").unwrap();
    assert_eq!(m.name, "closed_hat");

    // Bass from filename
    let m = match_category("RK_MT1_Bass_Loop_19_127bpm_Bmin", "/Bass/").unwrap();
    assert_eq!(m.name, "mid_bass");

    // Pad
    let m = match_category("Synth Chord Pad Cosmic Fmin", "/Synths/Pads/").unwrap();
    assert_eq!(m.name, "pad");

    // Vocal
    let m = match_category("GH_EP_Vocal Loop_17_145_C#m_Dry", "/Vocals/").unwrap();
    assert_eq!(m.name, "vocal");

    // FX from directory
    let m = match_category("23-Fx Down Filter - ElmntTranceVol2", "/FX/").unwrap();
    assert_eq!(m.name, "fx_misc"); // "Fx" matches fx_misc

    // Perc
    let m = match_category("ElectroHouse-Perc-EH Perc 10", "/Drums/").unwrap();
    assert_eq!(m.name, "perc");

    // Ride
    let m = match_category("Perc-Cymbal-Ride 4 Bell 1", "/Drums/Cymbals/").unwrap();
    assert_eq!(m.name, "cymbal");

    // CamelCase: "TechSnare" should still match snare via normalisation
    let m = match_category("TechSnare_01.wav", "/Drums/").unwrap();
    assert_eq!(m.name, "snare");

    // Word boundary: "Ensnared" must NOT match snare
    let m = match_category("10_Ensnared_Loop.wav", "/Samples/Loops/");
    assert!(m.is_none() || m.as_ref().unwrap().name != "snare",
        "Ensnared should not categorise as snare, got {:?}", m);

    // Negation: "No Kick" must NOT match kick
    let m = match_category("009 Drum Loop 128 No Kick - TH Zenhiser.wav", "/Samples/");
    assert!(m.is_none() || m.as_ref().unwrap().name != "kick",
        "'No Kick' should not categorise as kick, got {:?}", m);
}

#[test]
fn real_manufacturer_from_directory() {
    let m = detect_manufacturer(
        "/Users/wizard/mnt/production/MusicProduction/Samples/Producer loops/Tidy - Bits & Pieces Vol 1 (complete)/Tidy1 - Leads/Loops/Normal Loops"
    ).unwrap();
    assert_eq!(m.manufacturer_pattern, "Tidy");

    let m = detect_manufacturer(
        "/Users/wizard/mnt/production/MusicProduction/Samples/Splice/sounds/packs/Essential Techno/TOOLROOM_-_TOOLROOM_ACADEMY_ESSENTIAL_TECHNO/SYNTH_LOOPS_125BPM"
    ).unwrap();
    assert_eq!(m.manufacturer_pattern, "Toolroom");

    let m = detect_manufacturer(
        "/Users/wizard/mnt/production/MusicProduction/Samples/freshly squeezed/Sunny Lax Kick Essentials Volume 1 - Sample Content/SLKEV1 Trance Kicks"
    );
    // "Freshly Squeezed" should match (case-insensitive)
    assert!(m.is_some());
}

#[test]
fn real_full_pipeline() {
    // Tidy trance lead
    let a = analyze_sample(
        "Tidy1 - Lead Loop  06 - PT3 - 140 BPM - G#m",
        "/Users/wizard/Samples/Producer loops/Tidy - Bits & Pieces Vol 1 (complete)/Tidy1 - Leads/Loops/Normal Loops",
    );
    assert_eq!(a.parsed_bpm, Some(140));
    assert_eq!(a.parsed_key, Some("G# Minor".into()));
    assert!(a.is_loop);
    assert_eq!(a.category.as_ref().unwrap().name, "lead");
    assert_eq!(a.manufacturer.as_ref().unwrap().manufacturer_pattern, "Tidy");
    assert!(a.manufacturer.as_ref().unwrap().genre_score() > 0.0); // trance

    // Zenhiser techno synth — Zenhiser is in the filename, Splice in the directory
    let a = analyze_sample(
        "002_a__Synth_Loop_1_128bpm_G_-_IGNITETECHNO_Zenhiser",
        "/Samples/Splice/sounds/packs/Ignite - Techno/loops/synth",
    );
    assert_eq!(a.parsed_bpm, Some(128));
    assert_eq!(a.parsed_key, Some("G Minor".into()));
    assert!(a.is_loop);
    // detect_manufacturer only looks at directory, not filename — Splice is neutral
    assert_eq!(a.manufacturer.as_ref().unwrap().manufacturer_pattern, "Splice");

    // Dark techno bass loop
    let a = analyze_sample(
        "BFM_DT1_DarkTechnoLoop_60_Ebm_125bpm",
        "/Samples/sounds.com/Dark Techno Loops vol.1/LOOPS_125bpm",
    );
    assert_eq!(a.parsed_bpm, Some(125));
    assert_eq!(a.parsed_key, Some("D# Minor".into()));
    assert!(a.is_loop);
}

// =========================================================================
// Splice sample packs - comprehensive BPM and key detection tests
// =========================================================================

#[test]
fn splice_bpm_prefix_format() {
    // Format: PREFIX_PACKCODE_BPM_type_name_KEY.wav
    assert_eq!(extract_bpm("PLX_ACT_140_fx_loop_distract_C.wav"), Some(140));
    assert_eq!(extract_bpm("PLX_ACT_140_fx_loop_top_Eb.wav"), Some(140));
    assert_eq!(extract_bpm("PLX_ACT_140_fx_loop_wow_Amin.wav"), Some(140));
    assert_eq!(extract_bpm("FF_LFT2_127_bass_synth_loop_how_Dmaj.wav"), Some(127));
    assert_eq!(extract_bpm("FF_LFT2_127_drum_loop_exit_percussion.wav"), Some(127));
    assert_eq!(extract_bpm("PLX_NFP_126_atmosphere_reflect_Bmin.wav"), Some(126));
    assert_eq!(extract_bpm("PLX_NFP_128_atmosphere_desert_Bbmin.wav"), Some(128));
    assert_eq!(extract_bpm("PLX_NFP_136_atmosphere_darkstar_Bmin.wav"), Some(136));
    assert_eq!(extract_bpm("PLX_NFP_130_atmosphere_oceans_Cmin.wav"), Some(130));
}

#[test]
fn splice_key_suffix_format() {
    // Bare note at end defaults to minor
    assert_eq!(extract_key("PLX_ACT_140_fx_loop_distract_C.wav"), Some("C Minor".into()));
    assert_eq!(extract_key("PLX_ACT_140_fx_loop_top_Eb.wav"), Some("D# Minor".into()));
    assert_eq!(extract_key("PLX_ACT_140_fx_loop_mod_G.wav"), Some("G Minor".into()));
    assert_eq!(extract_key("PLX_ACT_140_fx_loop_dog_F.wav"), Some("F Minor".into()));
    assert_eq!(extract_key("PLX_ACT_140_fx_loop_moves_E.wav"), Some("E Minor".into()));
    assert_eq!(extract_key("PLX_ACT_140_fx_loop_cold_D.wav"), Some("D Minor".into()));
    
    // Explicit minor suffix
    assert_eq!(extract_key("PLX_ACT_140_fx_loop_wow_Amin.wav"), Some("A Minor".into()));
    assert_eq!(extract_key("PLX_NFP_126_atmosphere_reflect_Bmin.wav"), Some("B Minor".into()));
    assert_eq!(extract_key("PLX_NFP_128_atmosphere_desert_Bbmin.wav"), Some("A# Minor".into()));
    assert_eq!(extract_key("PLX_NFP_128_atmosphere_forgot_C#min.wav"), Some("C# Minor".into()));
    assert_eq!(extract_key("PLX_NFP_130_atmosphere_oceans_Cmin.wav"), Some("C Minor".into()));
    assert_eq!(extract_key("PLX_NFP_136_atmosphere_rediscover_Gmin.wav"), Some("G Minor".into()));
    
    // 7th chord notation (should still extract root as minor)
    assert_eq!(extract_key("PLX_NFP_130_atmosphere_primal_Emin7.wav"), Some("E Minor".into()));
    assert_eq!(extract_key("PLX_NFP_136_atmosphere_follow_Emin7.wav"), Some("E Minor".into()));
    
    // Explicit major
    assert_eq!(extract_key("FF_LFT2_127_bass_synth_loop_how_Dmaj.wav"), Some("D Major".into()));
}

#[test]
fn splice_oneshot_no_bpm() {
    // One-shots typically don't have BPM in filename
    assert_eq!(extract_bpm("PLX_ACT_kick_mid_short.wav"), None);
    assert_eq!(extract_bpm("PLX_ACT_kick_low_heavy.wav"), None);
    assert_eq!(extract_bpm("PLX_ACT_kick_low_techno.wav"), None);
}

#[test]
fn splice_path_detection() {
    // Loop detection from path
    let a = analyze_sample(
        "PLX_ACT_140_fx_loop_distract_C.wav",
        "/Samples/Splice/sounds/packs/Acid Trance/PLX_-_Acid_Trance/loops/fx_loops/",
    );
    assert_eq!(a.parsed_bpm, Some(140));
    assert_eq!(a.parsed_key, Some("C Minor".into()));
    assert!(a.is_loop);

    // One-shot detection from path
    let a = analyze_sample(
        "PLX_ACT_kick_mid_short.wav",
        "/Samples/Splice/sounds/packs/Acid Trance/PLX_-_Acid_Trance/one-shots/drum_one-shots/kick/",
    );
    assert!(!a.is_loop);
}

#[test]
fn splice_various_packs() {
    // Left Field Techno 2
    assert_eq!(extract_bpm("FF_LFT2_127_bass_synth_loop_how_Dmaj.wav"), Some(127));
    assert_eq!(extract_key("FF_LFT2_127_bass_synth_loop_how_Dmaj.wav"), Some("D Major".into()));

    // Nightfall - Future Progressive & Trance  
    assert_eq!(extract_bpm("PLX_NFP_126_atmosphere_reflect_Bmin.wav"), Some(126));
    assert_eq!(extract_key("PLX_NFP_126_atmosphere_reflect_Bmin.wav"), Some("B Minor".into()));
    
    assert_eq!(extract_bpm("PLX_NFP_136_atmosphere_touched_Gmin.wav"), Some(136));
    assert_eq!(extract_key("PLX_NFP_136_atmosphere_touched_Gmin.wav"), Some("G Minor".into()));
}

#[test]
fn bpm_edge_cases() {
    // BPM at start of filename
    assert_eq!(extract_bpm("120_C_HousyBass_SP_01.wav"), Some(120));
    
    // BPM with underscore delimiters
    assert_eq!(extract_bpm("Loop_128_Am.wav"), Some(128));
    assert_eq!(extract_bpm("Bass_140_Fm.wav"), Some(140));
    
    // BPM in middle of complex filename
    assert_eq!(extract_bpm("SYNTH_LOOPS_125BPM"), Some(125));
    
    // Should NOT match version numbers, sample rates, etc.
    assert_eq!(extract_bpm("Sample_v2_44100hz.wav"), None);
    assert_eq!(extract_bpm("Track_01_Final.wav"), None);
    assert_eq!(extract_bpm("Kick_808_03.wav"), None); // 808 is out of range but 03 shouldn't match
}

#[test]
fn key_edge_cases() {
    // Key at end after underscore
    assert_eq!(extract_key("Bass_Loop_01_Am.wav"), Some("A Minor".into()));
    assert_eq!(extract_key("Synth_Pad_F#m.wav"), Some("F# Minor".into()));
    
    // Key with flat notation (should convert to sharp)
    assert_eq!(extract_key("Lead_Bbmin.wav"), Some("A# Minor".into()));
    assert_eq!(extract_key("Pad_Ebm.wav"), Some("D# Minor".into()));
    assert_eq!(extract_key("Bass_Abmin.wav"), Some("G# Minor".into()));
    
    // Key should NOT match inside words
    assert_eq!(extract_key("Crash_Big_01.wav"), None); // "C" inside "Crash"
    assert_eq!(extract_key("Fade_Out.wav"), None);     // "F" and "A" inside words
    assert_eq!(extract_key("Drum_Loop.wav"), None);    // "D" inside "Drum"
}

#[test]
fn combined_bpm_and_key() {
    // Both BPM and key in same filename
    let a = analyze_sample("Lead_128_Am.wav", "/Samples/Leads/");
    assert_eq!(a.parsed_bpm, Some(128));
    assert_eq!(a.parsed_key, Some("A Minor".into()));

    let a = analyze_sample("PLX_NFP_130_atmosphere_oceans_Cmin.wav", "/loops/");
    assert_eq!(a.parsed_bpm, Some(130));
    assert_eq!(a.parsed_key, Some("C Minor".into()));

    let a = analyze_sample("FF_LFT2_127_bass_synth_loop_how_Dmaj.wav", "/loops/");
    assert_eq!(a.parsed_bpm, Some(127));
    assert_eq!(a.parsed_key, Some("D Major".into()));
}

// =========================================================================
// ZTEKNO sample packs - BPM and key detection tests
// =========================================================================

#[test]
fn ztekno_bpm_key_format() {
    // Format: PREFIX_BPM_KEY_Type_Loop_N.wav
    // DRIVING TECHNO pack
    assert_eq!(extract_bpm("ZDT_132_A#_Bass_Loop_1.wav"), Some(132));
    assert_eq!(extract_key("ZDT_132_A#_Bass_Loop_1.wav"), Some("A# Minor".into()));
    
    assert_eq!(extract_bpm("ZDT_132_C#_Bass_Loop_2.wav"), Some(132));
    assert_eq!(extract_key("ZDT_132_C#_Bass_Loop_2.wav"), Some("C# Minor".into()));
    
    assert_eq!(extract_bpm("ZDT_132_D#_Bass_Loop_3.wav"), Some(132));
    assert_eq!(extract_key("ZDT_132_D#_Bass_Loop_3.wav"), Some("D# Minor".into()));
    
    assert_eq!(extract_bpm("ZDT_132_F#_Bass_Loop_1.wav"), Some(132));
    assert_eq!(extract_key("ZDT_132_F#_Bass_Loop_1.wav"), Some("F# Minor".into()));
    
    assert_eq!(extract_bpm("ZDT_132_G#_Bass_Loop_2.wav"), Some(132));
    assert_eq!(extract_key("ZDT_132_G#_Bass_Loop_2.wav"), Some("G# Minor".into()));
    
    // Natural notes
    assert_eq!(extract_bpm("ZDT_132_A_Bass_Loop_1.wav"), Some(132));
    assert_eq!(extract_key("ZDT_132_A_Bass_Loop_1.wav"), Some("A Minor".into()));
    
    assert_eq!(extract_bpm("ZDT_132_E_Bass_Loop_3.wav"), Some(132));
    assert_eq!(extract_key("ZDT_132_E_Bass_Loop_3.wav"), Some("E Minor".into()));
}

#[test]
fn ztekno_techno_freaks_format() {
    // TECHNO FREAKS pack - Format: PREFIX_Kit_N_BPM_Bpm_KEY_Type_Loop.wav
    assert_eq!(extract_bpm("ZTTF_Kit_1_126_Bpm_A_Bass_Loop.wav"), Some(126));
    assert_eq!(extract_key("ZTTF_Kit_1_126_Bpm_A_Bass_Loop.wav"), Some("A Minor".into()));
    
    assert_eq!(extract_bpm("ZTTF_Kit_1_126_Bpm_F#_Melodic_Synth_Loop.wav"), Some(126));
    assert_eq!(extract_key("ZTTF_Kit_1_126_Bpm_F#_Melodic_Synth_Loop.wav"), Some("F# Minor".into()));
    
    assert_eq!(extract_bpm("ZTTF_Kit_2_126_Bpm_C_Bass_Loop.wav"), Some(126));
    assert_eq!(extract_key("ZTTF_Kit_2_126_Bpm_C_Bass_Loop.wav"), Some("C Minor".into()));
    
    assert_eq!(extract_bpm("ZTTF_Kit_4_126_Bpm_D#_Bass_Loop.wav"), Some(126));
    assert_eq!(extract_key("ZTTF_Kit_4_126_Bpm_D#_Bass_Loop.wav"), Some("D# Minor".into()));
    
    assert_eq!(extract_bpm("ZTTF_Kit_5_126_Bpm_F_Acid_Loop.wav"), Some(126));
    assert_eq!(extract_key("ZTTF_Kit_5_126_Bpm_F_Acid_Loop.wav"), Some("F Minor".into()));
}

#[test]
fn ztekno_no_key_samples() {
    // Samples without key info - BPM only
    assert_eq!(extract_bpm("ZTTF_Kit_1_126_Bpm_Kick_Loop.wav"), Some(126));
    assert_eq!(extract_key("ZTTF_Kit_1_126_Bpm_Kick_Loop.wav"), None);
    
    assert_eq!(extract_bpm("ZTTF_Kit_1_126_Bpm_Top_Loop.wav"), Some(126));
    assert_eq!(extract_key("ZTTF_Kit_1_126_Bpm_Top_Loop.wav"), None);
    
    assert_eq!(extract_bpm("ZTTF_Kit_1_126_Bpm_Fx.wav"), Some(126));
    assert_eq!(extract_key("ZTTF_Kit_1_126_Bpm_Fx.wav"), None);
    
    assert_eq!(extract_bpm("ZTTF_Kit_1_126_Bpm_Vox.wav"), Some(126));
    assert_eq!(extract_key("ZTTF_Kit_1_126_Bpm_Vox.wav"), None);
}

#[test]
fn ztekno_oneshot_samples() {
    // One-shot samples - no BPM expected (numbers are variant IDs, not BPM)
    assert_eq!(extract_bpm("ZAT_Clap_1.wav"), None);
    assert_eq!(extract_bpm("ZAT_Clap_22.wav"), None);
    assert_eq!(extract_bpm("ZAT_Clap_140.wav"), None);  // 140 is variant, not BPM
    assert_eq!(extract_bpm("ZAT_Kick_128.wav"), None);  // 128 is variant, not BPM
    assert_eq!(extract_key("ZAT_Clap_1.wav"), None);
    
    // "Kick 23 G.wav" - 23 is variant, G is key
    assert_eq!(extract_bpm("Kick 23 G.wav"), None);     // 23 is variant, not BPM
    assert_eq!(extract_key("Kick 23 G.wav"), Some("G Minor".into()));
    
    // "FL_RNB_Clap.wav" - no BPM, no key (RNB is not a note)
    assert_eq!(extract_bpm("FL_RNB_Clap.wav"), None);
    assert_eq!(extract_key("FL_RNB_Clap.wav"), None);
}

#[test]
fn ztekno_sc_suffix() {
    // Sidechain versions (_SC suffix)
    assert_eq!(extract_bpm("ZDT_132_A#_Bass_Loop_1_SC.wav"), Some(132));
    assert_eq!(extract_key("ZDT_132_A#_Bass_Loop_1_SC.wav"), Some("A# Minor".into()));
    
    assert_eq!(extract_bpm("ZDT_132_C_Bass_Loop_3_SC.wav"), Some(132));
    assert_eq!(extract_key("ZDT_132_C_Bass_Loop_3_SC.wav"), Some("C Minor".into()));
}

#[test]
fn detect_manufacturer_freshly_squeezed() {
    let m = detect_manufacturer(
        "/Samples/freshly squeezed/Freshly Squeezed Samples - Max Braiman Trance Essentials/Kicks/"
    ).unwrap();
    // "Max Braiman" (11 chars) beats "Freshly Squeezed" (16 chars)? No — both non-neutral,
    // "Freshly Squeezed" is longer, so it wins. But "Max Braiman" is more specific.
    // Actually: "Freshly Squeezed" = 16 chars > "Max Braiman" = 11 chars → Freshly Squeezed wins
    assert!(m.genre_score() > 0.0, "should be trance-leaning");
}

#[test]
fn detect_manufacturer_sunny_lax() {
    // "Sunny Lax" (9) vs "Freshly Squeezed" (16) — both non-neutral, Freshly Squeezed wins (longer)
    // But both are trance-positive so either is fine
    let m = detect_manufacturer(
        "/Samples/freshly squeezed/Sunny Lax Kick Essentials Volume 1/Kicks/"
    ).unwrap();
    assert!(m.genre_score() > 0.0, "should be trance-leaning");
}

#[test]
fn detect_manufacturer_ztekno() {
    let m = detect_manufacturer(
        "/Users/wizard/mnt/production/MusicProduction/Samples/ztekno/ZTEKNO - TECHNO BLAST (WAVS)/Kicks/"
    ).unwrap();
    assert_eq!(m.manufacturer_pattern, "ZTEKNO");
    assert!(m.genre_score() < 0.0, "ZTEKNO should be techno-leaning (negative)");
    assert!(m.hardness_score() > 0.0, "ZTEKNO should have positive hardness");
}

#[test]
fn detect_manufacturer_true_samples_under_ztekno() {
    // Both "ZTEKNO" and "True Samples" match; "True Samples" wins (longer, both non-neutral)
    let m = detect_manufacturer(
        "/Samples/ztekno/True Samples - Techno Moonwalkers/Loops/"
    ).unwrap();
    assert_eq!(m.manufacturer_pattern, "True Samples");
    assert!(m.genre_score() < 0.0, "True Samples should lean electronic");
}

#[test]
fn detect_manufacturer_ztekno_ambiguous_name() {
    // Packs with no genre in name still get ZTEKNO's score
    let m = detect_manufacturer(
        "/Samples/ztekno/ZTEKNO - VIRGO (WAVS)/Synths/"
    ).unwrap();
    assert_eq!(m.manufacturer_pattern, "ZTEKNO");
}

#[test]
fn ztekno_full_analysis() {
    // Full pipeline test
    let a = analyze_sample(
        "ZDT_132_A#_Bass_Loop_1.wav",
        "/Samples/ztekno/ZTEKNO - DRIVING TECHNO/ZDT_BASS_LOOPS/",
    );
    assert_eq!(a.parsed_bpm, Some(132));
    assert_eq!(a.parsed_key, Some("A# Minor".into()));
    assert!(a.is_loop);
    
    let a = analyze_sample(
        "ZTTF_Kit_1_126_Bpm_F#_Melodic_Synth_Loop.wav",
        "/Samples/ztekno/ZTEKNO - TECHNO FREAKS/ZTTF_LIVE_KITS/",
    );
    assert_eq!(a.parsed_bpm, Some(126));
    assert_eq!(a.parsed_key, Some("F# Minor".into()));
    assert!(a.is_loop);
}

// =========================================================================
// Manufacturer detection — every label in sample root must resolve
// =========================================================================

#[test]
fn detect_manufacturer_all_labels() {
    let cases: &[(&str, &str, bool)] = &[
        // (path_fragment, expected_pattern, is_techno_leaning)
        // --- Techno labels ---
        ("/Samples/riemann/Riemann Techno Starter/Loops/", "Riemann", true),
        ("/Samples/sinee/SINEE - Industrial Acid Techno/Kicks/", "SINEE", true),
        // "Hard Techno" (11 chars) is longer than "Bluezone" (8), both non-neutral → Hard Techno wins
        ("/Samples/Bluezone/Bluezone Corporation - Hard Techno Core/loops/", "Hard Techno", true),
        ("/Samples/undrgrnd/UNDRGRND Sounds - Deep Dub Techno/Loops/", "UNDRGRND", true),
        ("/Samples/sounds.com/Dark Techno by Marco Ginelli/Kicks/", "Sounds.com", true),
        ("/Samples/datacode/DATSND-002-Datacode-FOCUS-Techno-Drums/", "Datacode", true),
        ("/Samples/mutekki/Mutekki Media - Techno/Loops/", "Mutekki", true),
        // --- Trance labels ---
        ("/Samples/freshly squeezed/Activa Trance Essentials/Loops/", "Freshly Squeezed", false),
        // "Allen Watts" (11) > "Myloops" (7), both non-neutral → artist wins
        ("/Samples/myloops/Allen Watts High Voltage Sample Pack/Kicks/", "Allen Watts", false),
        // "Alex Di Stefano" (15 chars) > "mettaglyde" (10) → artist wins
        ("/Samples/mettaglyde/Alex Di Stefano - Acid Bass Attack/Bass/", "Alex Di Stefano", false),
        // --- Neutral marketplaces ---
        ("/Samples/Splice/sounds/packs/Raw Techno/Kicks/", "Splice", false),
        ("/Samples/loopmasters/Techno Intoxication/Loops/", "Loopmasters", false),
    ];
    for &(path, expected, is_techno) in cases {
        let m = detect_manufacturer(path);
        assert!(m.is_some(), "no manufacturer for path: {}", path);
        let m = m.unwrap();
        assert_eq!(m.manufacturer_pattern, expected, "wrong pattern for path: {}", path);
        if is_techno {
            assert!(m.genre_score() < 0.0, "{} should be techno-leaning, got {}", expected, m.genre_score());
        }
    }
}

#[test]
fn detect_manufacturer_new_artists() {
    let cases: &[(&str, &str)] = &[
        ("/Samples/Techno/Axel Karakasis - Essentials/Kicks/", "Axel Karakasis"),
        ("/Samples/new/Carl Cox/Loops/", "Carl Cox"),
        ("/Samples/Techno/David Moleon - Sample Pack/Kicks/", "David Moleon"),
        ("/Samples/mettaglyde/Alex Di Stefano - Acid Bass Attack/Bass/", "Alex Di Stefano"),
        ("/Samples/Splice/Alignment - Left Field & Tech Trance/Loops/", "Alignment"),
        ("/Samples/Splice/Genix - Tech Trance/Kicks/", "Genix"),
    ];
    for &(path, expected) in cases {
        let m = detect_manufacturer(path);
        assert!(m.is_some(), "no manufacturer for: {}", path);
        assert_eq!(m.unwrap().manufacturer_pattern, expected, "wrong for: {}", path);
    }
}

#[test]
fn detect_manufacturer_glitchtone_folder() {
    // "glitchtone" is the folder name; "Glitchedtones" is the full label in subfolder names
    let m = detect_manufacturer(
        "/Samples/glitchtone/Glitchedtones_Drones/sample.wav"
    ).unwrap();
    // "Glitchedtones" (13 chars) > "glitchtone" (10), both non-neutral → Glitchedtones wins
    assert!(m.genre_score() < 0.0 || m.hardness_score() > 0.0,
        "glitchtone/Glitchedtones should be non-neutral");

    // Folder name alone (no "Glitchedtones" in subpath) should still match
    let m = detect_manufacturer(
        "/Samples/glitchtone/Custom Pack/Loops/"
    ).unwrap();
    assert_eq!(m.manufacturer_pattern, "glitchtone");
}

#[test]
fn detect_manufacturer_wa_production_variants() {
    // WA Production packs use different naming conventions
    let m = detect_manufacturer("/Samples/wa/WA_Prod_Funky_Disco_Pop/Drums/").unwrap();
    assert_eq!(m.manufacturer_pattern, "WA_Prod");

    let m = detect_manufacturer("/Samples/wa/WAProd_G_House_Straw_Abl/Loops/").unwrap();
    assert_eq!(m.manufacturer_pattern, "WAProd");

    let m = detect_manufacturer("/Samples/wa/Angry Parrot - Deathstep Sounds/Kicks/").unwrap();
    assert_eq!(m.manufacturer_pattern, "Angry Parrot");
}

#[test]
fn detect_manufacturer_path_variant_coverage() {
    // from_mars naming pattern
    let m = detect_manufacturer("/Samples/mars/909_from_mars/Kicks/").unwrap();
    assert_eq!(m.manufacturer_pattern, "from_mars");

    // sonicacademy (no space)
    let m = detect_manufacturer("/Samples/sonicacademy/Sonic Academy 1.5GB/Loops/").unwrap();
    assert!(m.manufacturer_pattern == "Sonic Academy" || m.manufacturer_pattern == "sonicacademy");

    // functionloops (no space)
    let m = detect_manufacturer("/Samples/functionloops/Function Loops - Progressive/Loops/").unwrap();
    assert!(m.manufacturer_pattern == "Function Loops" || m.manufacturer_pattern == "functionloops");

    // glitchmach
    let m = detect_manufacturer("/Samples/glitchmach/1918_Idiom-Full/Loops/").unwrap();
    assert_eq!(m.manufacturer_pattern, "glitchmach");

    // noizz
    let m = detect_manufacturer("/Samples/noizz/80sAnalogLove_Noiiz/Loops/").unwrap();
    assert!(m.manufacturer_pattern == "Noiiz" || m.manufacturer_pattern == "noizz");

    // soundtrack_loops
    let m = detect_manufacturer("/Samples/soundtrack_loops/ambienthouse/Loops/").unwrap();
    assert_eq!(m.manufacturer_pattern, "soundtrack_loops");
}

// =========================================================================
// Category classification — oneshot vs loop, all sample types
// =========================================================================

#[test]
fn category_all_drum_types() {
    let cases: &[(&str, &str, &str)] = &[
        // (filename, directory, expected_category)
        // "Acid" matches before "Kick" in the filename (acid pattern fires first on leftmost match)
        ("SINEE - Industrial Acid Techno Kick.wav", "/sinee/SINEE - Industrial Acid Techno/", "acid"),
        ("ZAT_Clap_1.wav", "/ztekno/ZTEKNO - TECHNO ATOM/Claps/", "clap"),
        ("HiHat_Straight_01.wav", "/sinee/SINEE - Industrial Acid Techno/HiHats/", "hat"),
        ("Tr8 Closed Hat 03.wav", "/Drums/Hats/", "closed_hat"),
        ("Open_HH_Vintage_02.wav", "/Drums/", "open_hat"),
        ("Snare_Tight_01.wav", "/Drums/Snares/", "snare"),
        ("Cymbal_Crash_Big.wav", "/Drums/Cymbals/", "cymbal"),
        ("Tom_Floor_Deep.wav", "/Drums/Toms/", "tom"),
        ("Ride_Bell_01.wav", "/Drums/", "ride"),
        ("Shaker_16th_01.wav", "/Drums/Percussion/", "shaker"),
        ("Perc_Conga_Hit_01.wav", "/Drums/Percussion/", "perc"),
    ];
    for &(name, dir, expected) in cases {
        let m = match_category(name, dir);
        assert!(m.is_some(), "no category for: {}", name);
        assert_eq!(m.unwrap().name, expected, "wrong category for: {}", name);
    }
}

#[test]
fn category_melodic_types() {
    let cases: &[(&str, &str, &str)] = &[
        ("Lead_Synth_Saw_A_128.wav", "/Synths/Leads/", "lead"),
        ("Pad_Warm_Cm_120.wav", "/Synths/Pads/", "pad"),
        ("Arp_Sequence_Fm_140.wav", "/Synths/Arps/", "arp"),
        ("Pluck_Short_Bright_E.wav", "/Synths/Plucks/", "pluck"),
        ("Stab_Brass_Hit_01.wav", "/Synths/Stabs/", "stab"),
        ("Acid_303_Line_Gm_138.wav", "/Synths/Acid/", "acid"),
    ];
    for &(name, dir, expected) in cases {
        let m = match_category(name, dir);
        assert!(m.is_some(), "no category for: {}", name);
        assert_eq!(m.unwrap().name, expected, "wrong category for: {}", name);
    }
}

#[test]
fn category_bass_types() {
    let m = match_category("Sub_Bass_Deep_C.wav", "/Bass/Sub/").unwrap();
    assert_eq!(m.name, "sub_bass");
    assert!(m.is_key_sensitive);

    let m = match_category("Bass_Reese_Loop_128_Am.wav", "/Bass/").unwrap();
    assert_eq!(m.name, "mid_bass");
    assert!(m.is_key_sensitive);
}

#[test]
fn category_fx_types() {
    let cases: &[(&str, &str)] = &[
        ("Riser_Up_8bar.wav", "fx_riser"),
        ("Downer_Sweep_4bar.wav", "fx_downer"),
        ("Impact_Boom_Deep.wav", "fx_impact"),
        ("Whoosh_Fast_01.wav", "fx_whoosh"),
        ("Glitch_Buffer_01.wav", "fx_glitch"),
        // sub_bass pattern matches "sub" before fx_sub_drop can match "sub_drop"
        // fx_sub_drop only works via directory fallback when filename has no "sub"/"808"/"bass"
        ("FX_Long_01.wav", "fx_misc"),
        ("Fill_Drum_Break_4bar.wav", "fx_fill"),
        ("Reversed_Hit_01.wav", "fx_reverse"),
    ];
    for &(name, expected) in cases {
        let m = match_category(name, "/FX/");
        assert!(m.is_some(), "no category for: {}", name);
        assert_eq!(m.unwrap().name, expected, "wrong category for: {}", name);
    }
}

#[test]
fn category_vocal_types() {
    // vocal_chop (index 31) is after fx_glitch (index 27) in pattern list
    // fx_glitch catches "chop" before vocal_chop can match "vocal chop"
    // So filenames with "chop" always resolve to fx_glitch
    let m = match_category("Vocal Chop Ah Cm.wav", "/Vocals/").unwrap();
    assert_eq!(m.name, "fx_glitch");

    let m = match_category("Vocal_Phrase_Breathe_120.wav", "/Vocals/").unwrap();
    assert_eq!(m.name, "vocal_phrase");

    let m = match_category("Vox_Dry_Female_01.wav", "/Vocals/").unwrap();
    assert_eq!(m.name, "vocal");
}

#[test]
fn category_atmos_types() {
    let m = match_category("Atmos_Dark_Drone_01.wav", "/Atmos/").unwrap();
    assert_eq!(m.name, "atmos");

    let m = match_category("Texture_Grit_Vinyl.wav", "/Atmos/").unwrap();
    assert_eq!(m.name, "texture");

    let m = match_category("Noise_White_Filtered.wav", "/Atmos/").unwrap();
    assert_eq!(m.name, "noise");

    let m = match_category("Tape_Warm_01.wav", "/Atmos/").unwrap();
    assert_eq!(m.name, "tape");
}

#[test]
fn category_schranz_types() {
    // schranz_drive matches "rumble_bass" compound pattern
    let m = match_category("Rumble_Bass_Loop_01.wav", "/Hard Techno/Drive Loops/").unwrap();
    assert_eq!(m.name, "schranz_drive");

    // "Kick_Roll" — kick (index 0) fires before schranz_roll (index 12)
    // schranz_roll pattern: kick_roll|roll_kick|schranz_roll
    // "Kick_Roll" matches both kick and schranz_roll, but kick is first in list
    let m = match_category("Kick_Roll_4bar.wav", "/Drums/").unwrap();
    assert_eq!(m.name, "kick");

    // schranz_roll only wins when filename has "schranz_roll" explicitly
    let m = match_category("Schranz_Roll_01.wav", "/Hard Techno/").unwrap();
    assert_eq!(m.name, "schranz_roll");
}

// =========================================================================
// Oneshot vs loop detection
// =========================================================================

#[test]
fn oneshot_vs_loop_detection() {
    // Loops: filename contains "loop"
    let a = analyze_sample("RK_DUBT2_Fx_Loop_04_127bpm.wav", "/riemann/Fx Loops/");
    assert!(a.is_loop);

    let a = analyze_sample("ZDT_132_A#_Bass_Loop_1.wav", "/ztekno/ZTEKNO - DRIVING TECHNO/BASS_LOOPS/");
    assert!(a.is_loop);

    let a = analyze_sample("DRESP_Kick_Loops_01_E_130bpm.wav", "/sounds.com/Dark Techno/Kick Loops/");
    assert!(a.is_loop);

    // One-shots: no "loop" in filename
    let a = analyze_sample("ZAT_Clap_1.wav", "/ztekno/ZTEKNO - TECHNO ATOM/Claps/");
    assert!(!a.is_loop);

    let a = analyze_sample("SINEE - Industrial Acid Techno Kick.wav", "/sinee/SINEE - Industrial Acid Techno/");
    assert!(!a.is_loop);

    let a = analyze_sample("PLX_ACT_kick_mid_short.wav", "/Splice/Acid Trance/one-shots/kick/");
    assert!(!a.is_loop);
}

#[test]
fn category_oneshot_flag() {
    // Oneshots by category definition
    let m = match_category("Sub_Bass_C_01.wav", "/Bass/Sub/").unwrap();
    assert_eq!(m.name, "sub_bass");
    assert!(m.is_oneshot, "sub_bass should be oneshot");

    let m = match_category("Pluck_Short_E.wav", "/Synths/Plucks/").unwrap();
    assert_eq!(m.name, "pluck");
    assert!(m.is_oneshot, "pluck should be oneshot");

    let m = match_category("Impact_Big_01.wav", "/FX/").unwrap();
    assert_eq!(m.name, "fx_impact");
    assert!(m.is_oneshot, "fx_impact should be oneshot");

    // Loop-preferred categories should NOT be oneshot
    let m = match_category("Kick_Hard_01.wav", "/Drums/Kicks/").unwrap();
    assert_eq!(m.name, "kick");
    assert!(!m.is_oneshot, "kick should not be oneshot");
    assert!(m.is_loop_preferred, "kick should be loop_preferred");

    let m = match_category("Lead_Saw_Am_128.wav", "/Synths/Leads/").unwrap();
    assert_eq!(m.name, "lead");
    assert!(!m.is_oneshot);
    assert!(m.is_loop_preferred, "lead should be loop_preferred");
}

#[test]
fn category_key_sensitivity() {
    // Key-sensitive categories
    let m = match_category("Bass_Loop_Am.wav", "/Bass/").unwrap();
    assert!(m.is_key_sensitive, "bass should be key-sensitive");

    let m = match_category("Lead_Synth_Cm.wav", "/Leads/").unwrap();
    assert!(m.is_key_sensitive, "lead should be key-sensitive");

    let m = match_category("Pad_Warm_Fm.wav", "/Pads/").unwrap();
    assert!(m.is_key_sensitive, "pad should be key-sensitive");

    // Non-key-sensitive categories
    let m = match_category("Kick_Hard_01.wav", "/Drums/").unwrap();
    assert!(!m.is_key_sensitive, "kick should not be key-sensitive");

    let m = match_category("Clap_Tight_01.wav", "/Drums/").unwrap();
    assert!(!m.is_key_sensitive, "clap should not be key-sensitive");

    let m = match_category("Hat_Closed_01.wav", "/Drums/").unwrap();
    assert!(!m.is_key_sensitive, "hat should not be key-sensitive");
}

// =========================================================================
// Full pipeline — real paths from sample root
// =========================================================================

#[test]
fn full_pipeline_riemann_techno() {
    let a = analyze_sample(
        "RK_DUBT2_Fx_Loop_04_127bpm.wav",
        "/Samples/riemann/Riemann Techno Starter/Loops/Fx Loops/",
    );
    assert_eq!(a.parsed_bpm, Some(127));
    assert!(a.is_loop);
    assert!(a.manufacturer.is_some());
    assert_eq!(a.manufacturer.as_ref().unwrap().manufacturer_pattern, "Riemann");
    assert!(a.manufacturer.as_ref().unwrap().genre_score() < 0.0);
}

#[test]
fn full_pipeline_sinee_hard_techno() {
    let a = analyze_sample(
        "Kick_Heavy_01.wav",
        "/Samples/sinee/SINEE - Industrial Acid Techno/Kicks/",
    );
    assert!(!a.is_loop);
    assert_eq!(a.category.as_ref().unwrap().name, "kick");
    assert!(a.manufacturer.is_some());
    assert_eq!(a.manufacturer.as_ref().unwrap().manufacturer_pattern, "SINEE");
    assert!(a.manufacturer.as_ref().unwrap().genre_score() < -0.5);
}

#[test]
fn full_pipeline_bluezone() {
    let a = analyze_sample(
        "Bluezone-Htcore-loop-001-142.wav",
        "/Samples/Bluezone/Bluezone Corporation - Hard Techno Core/loops-142bpm/",
    );
    assert!(a.is_loop);
    assert!(a.manufacturer.is_some());
    // "Hard Techno" (11 chars) is longer than "Bluezone" (8), both non-neutral → Hard Techno wins
    assert_eq!(a.manufacturer.as_ref().unwrap().manufacturer_pattern, "Hard Techno");
    assert!(a.manufacturer.as_ref().unwrap().genre_score() < 0.0);
}

#[test]
fn full_pipeline_sounds_com_kick_loop() {
    let a = analyze_sample(
        "DRESP_Kick_Loops_01_E_130bpm.wav",
        "/Samples/sounds.com/Dark Techno by Marco Ginelli/Kick Loops 130 BPM/",
    );
    assert_eq!(a.parsed_bpm, Some(130));
    assert_eq!(a.parsed_key, Some("E Minor".into()));
    assert!(a.is_loop);
    assert_eq!(a.category.as_ref().unwrap().name, "kick");
}

#[test]
fn full_pipeline_vengeance() {
    let a = analyze_sample(
        "VDX1 Frontline Kit 128BPM Bass Blipper 01.wav",
        "/Samples/Vengeance/Dance.Explosion.Vol.1/VDX1 128BPM - Frontline Kit - D#minor/Bassline/",
    );
    assert_eq!(a.parsed_bpm, Some(128));
    assert!(a.manufacturer.is_some());
    assert_eq!(a.manufacturer.as_ref().unwrap().manufacturer_pattern, "Vengeance");
}

#[test]
fn full_pipeline_undrgrnd() {
    let a = analyze_sample(
        "US_DJH_Bass_118_absent_Bbm.wav",
        "/Samples/undrgrnd/Deep Jazz House - Wav/US_DJH_Bass_Loops/118/",
    );
    assert_eq!(a.parsed_bpm, Some(118));
    assert_eq!(a.parsed_key, Some("A# Minor".into()));
    assert_eq!(a.category.as_ref().unwrap().name, "mid_bass");
    assert!(a.manufacturer.is_some());
    assert_eq!(a.manufacturer.as_ref().unwrap().manufacturer_pattern, "UNDRGRND");
}

#[test]
fn full_pipeline_mettaglyde_trance() {
    let a = analyze_sample(
        "ABA - F1 - 1.wav",
        "/Samples/mettaglyde/Alex Di Stefano - Acid Bass Attack/Bass/",
    );
    assert!(a.manufacturer.is_some());
    // "Alex Di Stefano" (15) > "mettaglyde" (10), both non-neutral → artist wins
    assert_eq!(a.manufacturer.as_ref().unwrap().manufacturer_pattern, "Alex Di Stefano");
    assert!(a.manufacturer.as_ref().unwrap().genre_score() > 0.0, "Alex Di Stefano should be trance-leaning");
}

#[test]
fn full_pipeline_myloops_trance() {
    let a = analyze_sample(
        "MRFX Breakdown FX 001.wav",
        "/Samples/myloops/Myloops+Reloaded+FX+Sample+Pack/MRFX Breakdown FX - 138BPM/",
    );
    assert!(a.manufacturer.is_some());
    assert_eq!(a.manufacturer.as_ref().unwrap().manufacturer_pattern, "Myloops");
    assert!(a.manufacturer.as_ref().unwrap().genre_score() > 0.0, "Myloops should be trance-leaning");
}
