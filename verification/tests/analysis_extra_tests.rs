use audio_haxor::sample_analysis::{
    contains_loop, extract_bpm, extract_key, is_negated, normalize_for_matching, normalize_note,
    normalize_sharp_flat_words, parse_u32_text, short_key_to_db, strip_key_from_path,
};

#[test]
fn strip_key_examples_from_the_docs() {
    assert_eq!(strip_key_from_path("/samples/Lead_Am_120.wav"), "/samples/Lead__120.wav");
    assert_eq!(strip_key_from_path("/samples/Bass_C#_Hard.wav"), "/samples/Bass__Hard.wav");
    assert_eq!(strip_key_from_path("/samples/Pad - F# Minor - Soft.wav"), "/samples/Pad -  - Soft.wav");
    assert_eq!(strip_key_from_path("/samples/AtmosLoop_C-02.wav"), "/samples/AtmosLoop_-02.wav");
    assert_eq!(strip_key_from_path("/samples/Loop-121-C.wav"), "/samples/Loop-121-.wav");
}

#[test]
fn strip_key_leaves_keyless_paths() {
    assert_eq!(strip_key_from_path("/samples/Kick_Hard_01.wav"), "/samples/Kick_Hard_01.wav");
}

#[test]
fn short_key_conversions() {
    assert_eq!(short_key_to_db("Bm"), "B Minor");
    assert_eq!(short_key_to_db("C#m"), "C# Minor");
    assert_eq!(short_key_to_db("C#"), "C# Minor");
    assert_eq!(short_key_to_db(" D "), "D Minor");
    assert_eq!(short_key_to_db(""), " Minor");
}

#[test]
fn note_normalisation() {
    assert_eq!(normalize_note("f#"), Some("F#"));
    assert_eq!(normalize_note("bb"), Some("A#"));
    assert_eq!(normalize_note("Db"), Some("C#"));
    assert_eq!(normalize_note("a"), Some("A"));
    assert_eq!(normalize_note("H"), None);
    assert_eq!(normalize_note(""), None);
}

#[test]
fn word_accidentals() {
    assert_eq!(normalize_sharp_flat_words("G Sharp Minor"), "G# Minor");
    assert_eq!(normalize_sharp_flat_words("B flat"), "Bb");
    assert_eq!(normalize_sharp_flat_words("C_sharp and E-flat"), "C# and Eb");
    assert_eq!(normalize_sharp_flat_words("no accidentals"), "no accidentals");
}

#[test]
fn camel_case_split() {
    assert_eq!(normalize_for_matching("TechKick"), "Tech_Kick");
    assert_eq!(normalize_for_matching("ABC"), "ABC");
    assert_eq!(normalize_for_matching("aB"), "a_B");
    assert_eq!(normalize_for_matching(""), "");
}

#[test]
fn negation_words() {
    assert!(is_negated("No Kick", 3));
    assert!(is_negated("non_kick", 4));
    assert!(is_negated("Without - kick", 10));
    assert!(!is_negated("Big Kick", 4));
    assert!(!is_negated("kick", 0));
}

#[test]
fn number_parsing_like_std() {
    assert_eq!(parse_u32_text("140"), Some(140));
    assert_eq!(parse_u32_text("+7"), Some(7));
    assert_eq!(parse_u32_text("+"), None);
    assert_eq!(parse_u32_text(""), None);
    assert_eq!(parse_u32_text("-1"), None);
    assert_eq!(parse_u32_text("4294967295"), Some(u32::MAX));
    assert_eq!(parse_u32_text("4294967296"), None);
    assert_eq!(parse_u32_text("0000000000140"), Some(140));
    assert_eq!(parse_u32_text("1a"), None);
}

#[test]
fn loop_mentions() {
    assert!(contains_loop("Bass LOOP 1"));
    assert!(contains_loop("xLoOpx"));
    assert!(!contains_loop("lop"));
}

#[test]
fn tempo_edges() {
    assert_eq!(extract_bpm("Loop_80_x"), Some(80));
    assert_eq!(extract_bpm("Loop_180_x"), Some(180));
    assert_eq!(extract_bpm("Loop_79_x"), None);
    assert_eq!(extract_bpm("Loop_181_x"), None);
    assert_eq!(extract_bpm(""), None);
}

#[test]
fn key_variant_marker_is_not_a_key() {
    assert_eq!(extract_key("Vol3_A_1x"), Some("A Minor".into()));
    assert_eq!(extract_key(""), None);
}

#[test]
fn category_table_is_ordered_most_specific_first() {
    let table = audio_haxor::sample_analysis::category_patterns();
    assert_eq!(table.len(), 45);
    assert_eq!(table[0].name, "kick");
    assert_eq!(table[0].parent, Some("drums"));
    assert!(table[0].is_loop_preferred);
    let closed = table.iter().position(|c| c.name == "closed_hat").unwrap();
    let hat = table.iter().position(|c| c.name == "hat").unwrap();
    assert!(closed < hat);
    for c in &table {
        assert!(regex::Regex::new(c.pattern).is_ok(), "{}", c.name);
    }
}
