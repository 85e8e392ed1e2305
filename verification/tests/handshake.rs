use touche::handshake::{default_identity, handshake_begin, handshake_step, introduction_strings,
    is_aoa, version_supported, HandshakeAction, HandshakeEvent, HandshakeState,
    REQUEST_GET_PROTOCOL, REQUEST_SEND_STRING, REQUEST_START_ACCESSORY, VERSION_REPLY_LEN};

fn version_reply(byte: u8) -> HandshakeEvent {
    let mut data = vec![byte];
    data.resize(16, 0);
    HandshakeEvent::VersionReply { data }
}

#[test]
fn version_0_aborts_with_no_further_actions() {
    let (state, action) = handshake_begin();
    assert_eq!(action, HandshakeAction::QueryVersion);
    let (state, action) = handshake_step(state, &version_reply(0));
    assert_eq!(state, HandshakeState::Terminal { success: false });
    assert_eq!(action, HandshakeAction::Stop);
    // a terminal state never asks for anything again
    let (state, action) = handshake_step(state, &HandshakeEvent::IdentityDelivered);
    assert_eq!(state, HandshakeState::Terminal { success: false });
    assert_eq!(action, HandshakeAction::Stop);
}

#[test]
fn version_3_aborts_with_no_further_actions() {
    let (state, _) = handshake_begin();
    let (state, action) = handshake_step(state, &version_reply(3));
    assert_eq!(state, HandshakeState::Terminal { success: false });
    assert_eq!(action, HandshakeAction::Stop);
}

#[test]
fn failed_version_read_aborts() {
    let (state, _) = handshake_begin();
    let (state, action) = handshake_step(state, &HandshakeEvent::VersionReply { data: vec![] });
    assert_eq!(state, HandshakeState::Terminal { success: false });
    assert_eq!(action, HandshakeAction::Stop);
}

#[test]
fn version_1_walks_through_the_whole_handshake() {
    let (state, _) = handshake_begin();
    let (state, action) = handshake_step(state, &version_reply(1));
    assert_eq!(state, HandshakeState::VersionChecked);
    assert_eq!(action, HandshakeAction::SendIdentityStrings);
    let (state, action) = handshake_step(state, &HandshakeEvent::IdentityDelivered);
    assert_eq!(state, HandshakeState::HostIntroduced);
    assert_eq!(action, HandshakeAction::RequestModeSwitch);
    let (state, action) = handshake_step(state, &HandshakeEvent::ModeSwitchDelivered);
    assert_eq!(state, HandshakeState::ModeSwitchRequested);
    assert_eq!(action, HandshakeAction::ResetDevice);
    let (state, action) = handshake_step(state, &HandshakeEvent::ResetDone);
    assert_eq!(state, HandshakeState::Terminal { success: true });
    assert_eq!(action, HandshakeAction::Stop);
}

#[test]
fn version_2_is_accepted_too() {
    let (state, _) = handshake_begin();
    let (state, action) = handshake_step(state, &version_reply(2));
    assert_eq!(state, HandshakeState::VersionChecked);
    assert_eq!(action, HandshakeAction::SendIdentityStrings);
}

#[test]
fn version_supported_reads_the_first_byte() {
    assert!(!version_supported(&vec![]));
    assert!(!version_supported(&vec![0]));
    assert!(version_supported(&vec![1]));
    assert!(version_supported(&vec![2, 0, 0]));
    assert!(!version_supported(&vec![3]));
}

#[test]
fn accessory_product_id_range() {
    assert!(!is_aoa(0x2cff));
    assert!(is_aoa(0x2d00));
    assert!(is_aoa(0x2d03));
    assert!(is_aoa(0x2d05));
    assert!(!is_aoa(0x2d06));
}

#[test]
fn introduction_sends_six_strings_in_slot_order() {
    let cfg = default_identity();
    let strings = introduction_strings(&cfg);
    assert_eq!(strings.len(), 6);
    for (i, s) in strings.iter().enumerate() {
        assert_eq!(s.index, i as u16);
    }
    assert_eq!(strings[0].payload, "bpavuk");
    assert_eq!(strings[1].payload, "touche");
    assert_eq!(
        strings[2].payload,
        "making your phone a touchepad and graphics tablet"
    );
    assert_eq!(strings[3].payload, "v0");
    assert_eq!(strings[4].payload, "what://");
    assert_eq!(strings[5].payload, "528491");
}

#[test]
fn control_request_codes() {
    assert_eq!(REQUEST_GET_PROTOCOL, 51);
    assert_eq!(REQUEST_SEND_STRING, 52);
    assert_eq!(REQUEST_START_ACCESSORY, 53);
    assert_eq!(VERSION_REPLY_LEN, 16);
}
