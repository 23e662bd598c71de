use audio_haxor::midi::read_var_len;

#[test]
fn test_read_var_len_single_byte() {
    let data = [0x40u8];
    assert_eq!(read_var_len(&data, 0), (0x40, 1));
}

#[test]
fn test_read_var_len_empty_slice() {
    let data: [u8; 0] = [];
    assert_eq!(read_var_len(&data, 0), (0, 0));
}

#[test]
fn test_read_var_len_pos_past_end_returns_zero_bytes_consumed() {
    let data = [0x40u8];
    assert_eq!(read_var_len(&data, 1), (0, 0));
}

#[test]
fn test_read_var_len_128_two_bytes() {
    let data = [0x81u8, 0x00];
    assert_eq!(read_var_len(&data, 0), (128, 2));
}

#[test]
fn test_read_var_len_offset() {
    let data = [0x00u8, 0x81, 0x00];
    assert_eq!(read_var_len(&data, 1), (128, 2));
}

#[test]
fn test_read_var_len_incomplete_uses_partial() {
    let data = [0x81u8];
    let (v, n) = read_var_len(&data, 0);
    assert_eq!(n, 1);
    assert_eq!(v, 1);
}

#[test]
fn test_read_var_len_large_value() {
    let data = [0xC0u8, 0x00];
    assert_eq!(read_var_len(&data, 0), (0x2000, 2));
}

#[test]
fn test_read_var_len_fifth_byte_triggers_safety_break() {
    let data = [0xFFu8, 0xFF, 0xFF, 0xFF, 0x7F];
    let (v, n) = read_var_len(&data, 0);
    assert_eq!(n, 5);
    assert!(v > 0);
}

#[test]
fn test_var_len() {
    assert_eq!(read_var_len(&[0x00], 0), (0, 1));
    assert_eq!(read_var_len(&[0x7F], 0), (127, 1));
    assert_eq!(read_var_len(&[0x81, 0x00], 0), (128, 2));
    assert_eq!(read_var_len(&[0x83, 0x60], 0), (480, 2));
}
