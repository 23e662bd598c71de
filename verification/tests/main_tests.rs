use audio_haxor::format::format_size;

#[test]
fn test_main_compiles() {
    assert!(!format_size(0).is_empty());
}
