use touche::data::ToucheData;
use touche::decode::{parse_touche_data, DecodeError};
use touche::encode::encode_touche_data;

fn decode(bytes: &[u8]) -> Vec<ToucheData> {
    parse_touche_data(&bytes.to_vec()).expect("frame should decode")
}

#[test]
fn invalid_utf8_fails_with_decode_error() {
    let r = parse_touche_data(&vec![0xFF, 0xFE]);
    assert_eq!(r, Err(DecodeError::InvalidUtf8));
}

#[test]
fn empty_frame_decodes_to_no_events() {
    assert_eq!(decode(b""), vec![]);
}

#[test]
fn screen_size_row() {
    assert_eq!(
        decode(b"X\t1920\t1080"),
        vec![ToucheData::ScreenSize { width: 1920, height: 1080 }]
    );
}

#[test]
fn screen_size_missing_field_is_skipped() {
    assert_eq!(decode(b"X\t1920"), vec![]);
    assert_eq!(decode(b"X"), vec![]);
}

#[test]
fn screen_size_overflow_is_skipped() {
    // integer fields parse exactly; out of i32 range means the row is dropped
    assert_eq!(decode(b"X\t99999999999\t1080"), vec![]);
}

#[test]
fn stylus_row_with_pressure() {
    // coordinates truncate toward zero; pressure 0.5 is 2048/4096
    assert_eq!(
        decode(b"S\t10.7\t-3.2\t1\t0.5"),
        vec![ToucheData::StylusFrame { x: 10, y: -3, pressed: true, pressure: Some(2048) }]
    );
}

#[test]
fn stylus_row_released_has_no_pressure() {
    assert_eq!(
        decode(b"S\t10\t20\t0"),
        vec![ToucheData::StylusFrame { x: 10, y: 20, pressed: false, pressure: None }]
    );
    // a pressure field on a released pen is not even read
    assert_eq!(
        decode(b"S\t10\t20\t0\t0.5"),
        vec![ToucheData::StylusFrame { x: 10, y: 20, pressed: false, pressure: None }]
    );
}

#[test]
fn stylus_row_pressed_without_pressure() {
    assert_eq!(
        decode(b"S\t10\t20\t1"),
        vec![ToucheData::StylusFrame { x: 10, y: 20, pressed: true, pressure: None }]
    );
}

#[test]
fn stylus_unparseable_pressure_defaults_to_absent() {
    assert_eq!(
        decode(b"S\t10\t20\t1\tabc"),
        vec![ToucheData::StylusFrame { x: 10, y: 20, pressed: true, pressure: None }]
    );
}

#[test]
fn touch_row() {
    assert_eq!(
        decode(b"F\t100\t200\t1\t23"),
        vec![ToucheData::TouchFrame { x: 100, y: 200, touch_id: 23, pressed: true }]
    );
}

#[test]
fn touch_coordinates_saturate() {
    assert_eq!(
        decode(b"F\t99999999999\t-99999999999\t1\t1"),
        vec![ToucheData::TouchFrame { x: i32::MAX, y: i32::MIN, touch_id: 1, pressed: true }]
    );
}

#[test]
fn coordinates_accept_bare_dot_forms() {
    // a fraction-only or trailing-dot coordinate still truncates toward zero
    assert_eq!(
        decode(b"F\t.5\t5.\t1\t7"),
        vec![ToucheData::TouchFrame { x: 0, y: 5, touch_id: 7, pressed: true }]
    );
    // a lone dot carries no digits and drops the row
    assert_eq!(decode(b"F\t.\t0\t1\t1"), vec![]);
}

#[test]
fn integer_fields_accept_a_plus_sign() {
    assert_eq!(
        decode(b"X\t+640\t+480"),
        vec![ToucheData::ScreenSize { width: 640, height: 480 }]
    );
}

#[test]
fn button_row() {
    assert_eq!(
        decode(b"B\t3\t1"),
        vec![ToucheData::ButtonFrame { button_id: 3, pressed: true }]
    );
    assert_eq!(
        decode(b"B\t9\t0"),
        vec![ToucheData::ButtonFrame { button_id: 9, pressed: false }]
    );
}

#[test]
fn unknown_tag_is_skipped() {
    assert_eq!(decode(b"Q\t1\t2"), vec![]);
}

#[test]
fn one_malformed_row_among_well_formed_rows_is_skipped() {
    let events = decode(b"F\t100\t200\t1\t3\nJUNK\tx\nF\t300\t400\t1\t4");
    assert_eq!(
        events,
        vec![
            ToucheData::TouchFrame { x: 100, y: 200, touch_id: 3, pressed: true },
            ToucheData::TouchFrame { x: 300, y: 400, touch_id: 4, pressed: true },
        ]
    );
}

#[test]
fn frame_with_only_malformed_rows_is_valid_and_empty() {
    assert_eq!(decode(b"S\tbad\t2\t1\nX\t\t"), vec![]);
}

#[test]
fn encode_then_decode_round_trips() {
    let events = vec![
        ToucheData::ScreenSize { width: 1920, height: 1080 },
        ToucheData::StylusFrame { x: -5, y: 17, pressed: true, pressure: Some(2048) },
        ToucheData::StylusFrame { x: 0, y: 0, pressed: false, pressure: None },
        ToucheData::StylusFrame { x: 3, y: 4, pressed: true, pressure: None },
        ToucheData::TouchFrame { x: 100, y: 200, touch_id: 23, pressed: true },
        ToucheData::TouchFrame { x: 1, y: 2, touch_id: 3, pressed: false },
        ToucheData::ButtonFrame { button_id: 9, pressed: true },
    ];
    let bytes = encode_touche_data(&events);
    assert_eq!(parse_touche_data(&bytes), Ok(events));
}

#[test]
fn encode_then_decode_round_trips_pressure_extremes() {
    let events = vec![
        ToucheData::StylusFrame { x: 1, y: 1, pressed: true, pressure: Some(0) },
        ToucheData::StylusFrame { x: 1, y: 1, pressed: true, pressure: Some(1) },
        ToucheData::StylusFrame { x: 1, y: 1, pressed: true, pressure: Some(4095) },
        ToucheData::StylusFrame { x: 1, y: 1, pressed: true, pressure: Some(4096) },
    ];
    let bytes = encode_touche_data(&events);
    assert_eq!(parse_touche_data(&bytes), Ok(events));
}

#[test]
fn encode_of_empty_batch_round_trips() {
    let events: Vec<ToucheData> = vec![];
    let bytes = encode_touche_data(&events);
    assert_eq!(bytes, Vec::<u8>::new());
    assert_eq!(parse_touche_data(&bytes), Ok(vec![]));
}

#[test]
fn extreme_coordinates_round_trip() {
    let events = vec![ToucheData::TouchFrame {
        x: i32::MAX,
        y: i32::MIN,
        touch_id: i32::MIN,
        pressed: true,
    }];
    let bytes = encode_touche_data(&events);
    assert_eq!(parse_touche_data(&bytes), Ok(events));
}
