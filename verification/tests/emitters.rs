use touche::data::ToucheData;
use touche::hid::{AbsAxis, HidKey, HidReport};
use touche::tablet::tablet_reports;
use touche::touchpad::TouchpadEmitter;

fn key(key: HidKey, value: i32) -> HidReport {
    HidReport::Key { key, value }
}

fn abs(axis: AbsAxis, value: i32) -> HidReport {
    HidReport::Abs { axis, value }
}

fn pressed_touch(id: i32) -> ToucheData {
    ToucheData::TouchFrame { x: 10, y: 20, touch_id: id, pressed: true }
}

fn gesture_tail(fc: i32) -> Vec<HidReport> {
    vec![
        key(HidKey::BtnTouch, if (1..=5).contains(&fc) { 1 } else { 0 }),
        key(HidKey::BtnToolFinger, if fc == 1 { 1 } else { 0 }),
        key(HidKey::BtnToolDoubletap, if fc == 2 { 1 } else { 0 }),
        key(HidKey::BtnToolTripletap, if fc == 3 { 1 } else { 0 }),
        key(HidKey::BtnToolQuadtap, if fc == 4 { 1 } else { 0 }),
        key(HidKey::BtnToolQuinttap, if fc == 5 { 1 } else { 0 }),
    ]
}

#[test]
fn tablet_reports_stylus_frames_in_order() {
    let events = vec![
        ToucheData::ScreenSize { width: 100, height: 100 },
        ToucheData::StylusFrame { x: 7, y: 8, pressed: true, pressure: Some(1000) },
        ToucheData::TouchFrame { x: 1, y: 2, touch_id: 0, pressed: true },
        ToucheData::StylusFrame { x: 9, y: 10, pressed: false, pressure: None },
    ];
    assert_eq!(
        tablet_reports(&events),
        vec![
            key(HidKey::BtnToolPen, 1),
            abs(AbsAxis::X, 7),
            abs(AbsAxis::Y, 8),
            key(HidKey::BtnTouch, 1),
            abs(AbsAxis::Pressure, 1000),
            key(HidKey::BtnToolPen, 1),
            abs(AbsAxis::X, 9),
            abs(AbsAxis::Y, 10),
            key(HidKey::BtnTouch, 0),
            abs(AbsAxis::Pressure, 0),
        ]
    );
}

#[test]
fn tablet_pressed_without_pressure_reports_full_scale() {
    let events = vec![ToucheData::StylusFrame { x: 0, y: 0, pressed: true, pressure: None }];
    assert_eq!(tablet_reports(&events)[4], abs(AbsAxis::Pressure, 4096));
}

#[test]
fn tablet_ignores_non_stylus_events() {
    let events = vec![
        ToucheData::ScreenSize { width: 1, height: 1 },
        ToucheData::TouchFrame { x: 1, y: 2, touch_id: 3, pressed: true },
        ToucheData::ButtonFrame { button_id: 1, pressed: true },
    ];
    assert_eq!(tablet_reports(&events), vec![]);
}

#[test]
fn touchpad_emits_nothing_without_touch_frames() {
    let mut pad = TouchpadEmitter::new();
    let events = vec![
        ToucheData::ScreenSize { width: 1, height: 1 },
        ToucheData::StylusFrame { x: 1, y: 2, pressed: true, pressure: None },
    ];
    assert_eq!(pad.emit(&events), vec![]);
}

#[test]
fn touchpad_reports_one_contact() {
    let mut pad = TouchpadEmitter::new();
    let events = vec![ToucheData::TouchFrame { x: 5, y: 6, touch_id: 23, pressed: true }];
    let mut expected = vec![
        abs(AbsAxis::MtSlot, 3),
        abs(AbsAxis::MtTrackingId, 23),
        abs(AbsAxis::MtPositionX, 5),
        abs(AbsAxis::MtPositionY, 6),
    ];
    expected.extend(gesture_tail(1));
    assert_eq!(pad.emit(&events), expected);
}

#[test]
fn touch_id_23_always_maps_to_slot_3() {
    let mut pad = TouchpadEmitter::new();
    for _ in 0..3 {
        let batch = pad.emit(&vec![pressed_touch(23)]);
        assert_eq!(batch[0], abs(AbsAxis::MtSlot, 3));
    }
}

#[test]
fn colliding_ids_share_a_slot_and_the_later_overwrites() {
    let mut pad = TouchpadEmitter::new();
    let batch = pad.emit(&vec![pressed_touch(3), pressed_touch(13)]);
    // both contacts land in slot 3
    assert_eq!(batch[0], abs(AbsAxis::MtSlot, 3));
    assert_eq!(batch[4], abs(AbsAxis::MtSlot, 3));
    // the later contact owns the table entry
    assert_eq!(pad.slot_owner(3), Some(13));
}

#[test]
fn released_contact_frees_its_slot() {
    let mut pad = TouchpadEmitter::new();
    pad.emit(&vec![pressed_touch(7)]);
    assert_eq!(pad.slot_owner(7), Some(7));
    pad.emit(&vec![ToucheData::TouchFrame { x: 0, y: 0, touch_id: 7, pressed: false }]);
    assert_eq!(pad.slot_owner(7), None);
}

#[test]
fn released_contact_reports_tracking_id_minus_one() {
    let mut pad = TouchpadEmitter::new();
    let batch = pad.emit(&vec![ToucheData::TouchFrame {
        x: 0,
        y: 0,
        touch_id: 7,
        pressed: false,
    }]);
    assert_eq!(batch[1], abs(AbsAxis::MtTrackingId, -1));
}

#[test]
fn gesture_keys_follow_the_finger_count_table() {
    for fc in 0..=6 {
        let mut pad = TouchpadEmitter::new();
        let mut events: Vec<ToucheData> = (0..fc).map(pressed_touch).collect();
        if fc == 0 {
            // at least one touch frame is needed for any emission at all
            events.push(ToucheData::TouchFrame { x: 0, y: 0, touch_id: 0, pressed: false });
        }
        let batch = pad.emit(&events);
        let tail = &batch[batch.len() - 6..];
        assert_eq!(tail, gesture_tail(fc), "finger count {}", fc);
    }
}
