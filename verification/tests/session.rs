use touche::hid::{tablet_config, touchpad_config, AbsAxis, AbsSetup, HidKey, HidReport};
use touche::session::{failure_policy, resolve_endpoints, EndpointDesc, FailureResponse, LoopOp,
    SessionCore, SessionError, MAX_FRAME_LEN, OPCODE_INITIAL_FRAME, OPCODE_NEXT_FRAME};

fn key(key: HidKey, value: i32) -> HidReport {
    HidReport::Key { key, value }
}

fn abs(axis: AbsAxis, value: i32) -> HidReport {
    HidReport::Abs { axis, value }
}

#[test]
fn session_start_accepts_screen_size_and_configures_axes() {
    let core = SessionCore::start_session(&b"X\t1920\t1080".to_vec()).expect("session starts");
    assert_eq!(core.width, 1920);
    assert_eq!(core.height, 1080);
    let tab = tablet_config(core.width, core.height);
    assert_eq!(tab.axes[0], AbsSetup { axis: AbsAxis::X, min: 0, max: 1920 });
    assert_eq!(tab.axes[1], AbsSetup { axis: AbsAxis::Y, min: 0, max: 1080 });
    let pad = touchpad_config(core.width, core.height);
    assert_eq!(pad.axes[2], AbsSetup { axis: AbsAxis::MtPositionX, min: 0, max: 1920 });
    assert_eq!(pad.axes[3], AbsSetup { axis: AbsAxis::MtPositionY, min: 0, max: 1080 });
}

#[test]
fn end_to_end_two_finger_frame() {
    let mut core = SessionCore::start_session(&b"X\t1920\t1080".to_vec()).expect("session starts");
    let out = core
        .process_frame(&b"F\t100\t200\t1\t3\nF\t300\t400\t1\t4".to_vec())
        .expect("frame processes");
    assert_eq!(
        out.touchpad,
        vec![
            abs(AbsAxis::MtSlot, 3),
            abs(AbsAxis::MtTrackingId, 3),
            abs(AbsAxis::MtPositionX, 100),
            abs(AbsAxis::MtPositionY, 200),
            abs(AbsAxis::MtSlot, 4),
            abs(AbsAxis::MtTrackingId, 4),
            abs(AbsAxis::MtPositionX, 300),
            abs(AbsAxis::MtPositionY, 400),
            key(HidKey::BtnTouch, 1),
            key(HidKey::BtnToolFinger, 0),
            key(HidKey::BtnToolDoubletap, 1),
            key(HidKey::BtnToolTripletap, 0),
            key(HidKey::BtnToolQuadtap, 0),
            key(HidKey::BtnToolQuinttap, 0),
        ]
    );
    assert_eq!(out.tablet, vec![]);
}

#[test]
fn session_start_rejects_invalid_utf8() {
    assert_eq!(
        SessionCore::start_session(&vec![0xFF, 0xFE]),
        Err(SessionError::DecodeFailure)
    );
}

#[test]
fn session_start_rejects_missing_screen_size() {
    assert_eq!(
        SessionCore::start_session(&b"F\t1\t2\t1\t3".to_vec()),
        Err(SessionError::MissingScreenSize)
    );
    assert_eq!(
        SessionCore::start_session(&b"".to_vec()),
        Err(SessionError::MissingScreenSize)
    );
}

#[test]
fn process_frame_rejects_invalid_utf8() {
    let mut core = SessionCore::start_session(&b"X\t10\t10".to_vec()).expect("session starts");
    assert_eq!(core.process_frame(&vec![0x80]), Err(SessionError::DecodeFailure));
}

#[test]
fn resolve_endpoints_takes_first_bulk_of_each_direction() {
    let eps = vec![
        EndpointDesc { address: 0x01, is_in: false, is_bulk: false },
        EndpointDesc { address: 0x81, is_in: true, is_bulk: true },
        EndpointDesc { address: 0x82, is_in: true, is_bulk: true },
        EndpointDesc { address: 0x02, is_in: false, is_bulk: true },
    ];
    assert_eq!(resolve_endpoints(&eps), Ok((0x81, 0x02)));
}

#[test]
fn resolve_endpoints_reports_missing_directions() {
    let only_out = vec![EndpointDesc { address: 0x02, is_in: false, is_bulk: true }];
    assert_eq!(resolve_endpoints(&only_out), Err(SessionError::MissingInEndpoint));
    let only_in = vec![EndpointDesc { address: 0x81, is_in: true, is_bulk: true }];
    assert_eq!(resolve_endpoints(&only_in), Err(SessionError::MissingOutEndpoint));
}

#[test]
fn loop_failure_policy() {
    assert_eq!(failure_policy(LoopOp::OpcodeWrite), FailureResponse::FatalError);
    assert_eq!(failure_policy(LoopOp::FrameRead), FailureResponse::CleanDisconnect);
    assert_eq!(failure_policy(LoopOp::TouchpadFlush), FailureResponse::FatalError);
    assert_eq!(failure_policy(LoopOp::TabletFlush), FailureResponse::Ignore);
}

#[test]
fn protocol_constants() {
    assert_eq!(OPCODE_INITIAL_FRAME, 2);
    assert_eq!(OPCODE_NEXT_FRAME, 1);
    assert_eq!(MAX_FRAME_LEN, 16384);
}
