use touche::hex::to_hex_str;
use touche::parser::parse;

#[test]
fn hex_pads_small_values_to_two_digits() {
    assert_eq!(to_hex_str(0), "00");
    assert_eq!(to_hex_str(5), "05");
    assert_eq!(to_hex_str(0x0f), "0f");
}

#[test]
fn hex_renders_larger_values_without_padding() {
    assert_eq!(to_hex_str(0x12), "12");
    assert_eq!(to_hex_str(0x123), "123");
    assert_eq!(to_hex_str(0x1234), "1234");
    assert_eq!(to_hex_str(0x2d01), "2d01");
    assert_eq!(to_hex_str(0xffff), "ffff");
}

#[test]
fn parse_splits_rows_and_fields() {
    let rows = parse(&b"X\t1920\t1080\nF\t1\t2".to_vec());
    assert_eq!(
        rows,
        vec![
            vec!["X".to_string(), "1920".to_string(), "1080".to_string()],
            vec!["F".to_string(), "1".to_string(), "2".to_string()],
        ]
    );
}

#[test]
fn parse_keeps_empty_fields_and_rows() {
    let rows = parse(&b"\n\ta".to_vec());
    assert_eq!(
        rows,
        vec![
            vec!["".to_string()],
            vec!["".to_string(), "a".to_string()],
        ]
    );
    assert_eq!(parse(&b"".to_vec()), vec![vec!["".to_string()]]);
}

#[test]
fn parse_decodes_multibyte_characters() {
    // "ü" is 0xC3 0xBC on the wire; the field must come back as the
    // decoded character, not as two bytes
    let rows = parse(&vec![0x41, 0x09, 0xC3, 0xBC]);
    assert_eq!(rows, vec![vec!["A".to_string(), "\u{fc}".to_string()]]);
}
