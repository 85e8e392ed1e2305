//! The accessory-mode handshake: a strictly linear state machine.
//!
//! A device that is not yet in accessory mode is asked for its protocol
//! version; only versions one and two proceed, anything else — including a
//! failed read — aborts the attempt with no further transfers. Then the
//! host introduces itself with six identification strings, best-effort,
//! requests the mode switch, and resets the handle. The device disconnects
//! and re-enumerates as an accessory, recognized by its product id, and is
//! routed straight to the transfer session.
//!
//! The unverified shell performs the control transfers; this module owns
//! every decision and hands the shell one action at a time.

use vstd::prelude::*;

verus! {

/// Vendor control-in request: get the protocol version, 16-byte answer.
pub const REQUEST_GET_PROTOCOL: u8 = 51;

/// Vendor control-out request: send one identification string.
pub const REQUEST_SEND_STRING: u8 = 52;

/// Vendor control-out request: start accessory mode, empty payload.
pub const REQUEST_START_ACCESSORY: u8 = 53;

/// How many bytes the version query asks for.
pub const VERSION_REPLY_LEN: u16 = 16;

/// True when a product id lies in the range accessory-mode devices
/// re-enumerate with.
pub fn is_aoa(product_id: u16) -> (r: bool)
    ensures
        r == (0x2d00 <= product_id <= 0x2d05),
{
    0x2d00 <= product_id && product_id <= 0x2d05
}

/// True when a version reply admits the device: its first byte must be
/// protocol version one or two. A failed read arrives as an empty reply
/// and is refused.
pub fn version_supported(reply: &Vec<u8>) -> (r: bool)
    ensures
        r == (reply@.len() > 0 && 1 <= reply@[0] <= 2),
{
    reply.len() > 0 && 1 <= reply[0] && reply[0] <= 2
}

/// The six identification strings the host introduces itself with.
pub struct HandshakeConfig {
    pub manufacturer: String,
    pub model: String,
    pub description: String,
    pub version: String,
    pub uri: String,
    pub serial_number: String,
}

/// One identification string with the slot index it is sent under.
pub struct IdentityString {
    pub index: u16,
    pub payload: String,
}

/// The identity this driver announces.
pub fn default_identity() -> (r: HandshakeConfig)
    ensures
        r.manufacturer@ == "bpavuk"@,
        r.model@ == "touche"@,
        r.description@ == "making your phone a touchepad and graphics tablet"@,
        r.version@ == "v0"@,
        r.uri@ == "what://"@,
        r.serial_number@ == "528491"@,
{
    HandshakeConfig {
        manufacturer: String::from_str("bpavuk"),
        model: String::from_str("touche"),
        description: String::from_str("making your phone a touchepad and graphics tablet"),
        version: String::from_str("v0"),
        uri: String::from_str("what://"),
        serial_number: String::from_str("528491"),
    }
}

/// The six control-out payloads of the introduction, in send order: the
/// string slots zero to five carry manufacturer, model, description,
/// version, URI and serial number.
pub fn introduction_strings(cfg: &HandshakeConfig) -> (r: Vec<IdentityString>)
    ensures
        r@.len() == 6,
        forall|i: int| 0 <= i < 6 ==> (#[trigger] r@[i]).index == i,
        r@[0].payload@ == cfg.manufacturer@,
        r@[1].payload@ == cfg.model@,
        r@[2].payload@ == cfg.description@,
        r@[3].payload@ == cfg.version@,
        r@[4].payload@ == cfg.uri@,
        r@[5].payload@ == cfg.serial_number@,
{
    let mut r: Vec<IdentityString> = Vec::new();
    r.push(IdentityString { index: 0, payload: cfg.manufacturer.clone() });
    r.push(IdentityString { index: 1, payload: cfg.model.clone() });
    r.push(IdentityString { index: 2, payload: cfg.description.clone() });
    r.push(IdentityString { index: 3, payload: cfg.version.clone() });
    r.push(IdentityString { index: 4, payload: cfg.uri.clone() });
    r.push(IdentityString { index: 5, payload: cfg.serial_number.clone() });
    r
}

/// The handshake's states, in the order they are passed through. The
/// machine is strictly linear: there are no backward transitions, and a
/// terminal state is never left.
#[derive(Clone, Copy, Debug, PartialEq, Eq, Structural)]
pub enum HandshakeState {
    /// Nothing is known of the device yet.
    Unknown,
    /// The version reply admitted the device.
    VersionChecked,
    /// The identification strings were offered, best-effort.
    HostIntroduced,
    /// The mode switch was requested, best-effort.
    ModeSwitchRequested,
    /// The attempt is over, successfully or not.
    Terminal { success: bool },
}

/// What the shell must do next.
#[derive(Clone, Copy, Debug, PartialEq, Eq, Structural)]
pub enum HandshakeAction {
    /// Issue the version query and report its reply.
    QueryVersion,
    /// Send the six identification strings, swallowing individual
    /// failures, then report.
    SendIdentityStrings,
    /// Issue the empty mode-switch request, swallowing failure, then
    /// report.
    RequestModeSwitch,
    /// Reset the device handle, then report.
    ResetDevice,
    /// Nothing: the attempt is over.
    Stop,
}

/// What the shell reports back.
pub enum HandshakeEvent {
    /// The version reply, as read; a failed transfer reports an empty
    /// reply.
    VersionReply { data: Vec<u8> },
    /// All six string sends were attempted; their individual outcomes do
    /// not matter.
    IdentityDelivered,
    /// The mode-switch request was attempted; its outcome does not
    /// matter.
    ModeSwitchDelivered,
    /// The handle was reset.
    ResetDone,
}

/// Where every handshake starts: nothing known, version query first.
pub fn handshake_begin() -> (r: (HandshakeState, HandshakeAction))
    ensures
        r.0 == HandshakeState::Unknown,
        r.1 == HandshakeAction::QueryVersion,
{
    (HandshakeState::Unknown, HandshakeAction::QueryVersion)
}

/// The state an event leads to.
pub open spec fn handshake_next_spec(state: HandshakeState, event: &HandshakeEvent)
    -> HandshakeState {
    match (state, event) {
        (HandshakeState::Unknown, HandshakeEvent::VersionReply { data }) => {
            if data@.len() > 0 && 1 <= data@[0] <= 2 {
                HandshakeState::VersionChecked
            } else {
                HandshakeState::Terminal { success: false }
            }
        },
        (HandshakeState::VersionChecked, HandshakeEvent::IdentityDelivered) =>
            HandshakeState::HostIntroduced,
        (HandshakeState::HostIntroduced, HandshakeEvent::ModeSwitchDelivered) =>
            HandshakeState::ModeSwitchRequested,
        (HandshakeState::ModeSwitchRequested, HandshakeEvent::ResetDone) =>
            HandshakeState::Terminal { success: true },
        _ => HandshakeState::Terminal { success: false },
    }
}

/// The action each state asks for.
pub open spec fn action_of_spec(state: HandshakeState) -> HandshakeAction {
    match state {
        HandshakeState::Unknown => HandshakeAction::QueryVersion,
        HandshakeState::VersionChecked => HandshakeAction::SendIdentityStrings,
        HandshakeState::HostIntroduced => HandshakeAction::RequestModeSwitch,
        HandshakeState::ModeSwitchRequested => HandshakeAction::ResetDevice,
        HandshakeState::Terminal { .. } => HandshakeAction::Stop,
    }
}

/// Advances the handshake by one reported event and says what to do next.
/// An event that does not belong to the current state ends the attempt as
/// a failure.
pub fn handshake_step(state: HandshakeState, event: &HandshakeEvent) -> (r: (
    HandshakeState,
    HandshakeAction,
))
    ensures
        r.0 == handshake_next_spec(state, event),
        r.1 == action_of_spec(r.0),
{
    let next = match (state, event) {
        (HandshakeState::Unknown, HandshakeEvent::VersionReply { data }) => {
            if version_supported(data) {
                HandshakeState::VersionChecked
            } else {
                HandshakeState::Terminal { success: false }
            }
        },
        (
            HandshakeState::VersionChecked,
            HandshakeEvent::IdentityDelivered,
        ) => HandshakeState::HostIntroduced,
        (
            HandshakeState::HostIntroduced,
            HandshakeEvent::ModeSwitchDelivered,
        ) => HandshakeState::ModeSwitchRequested,
        (HandshakeState::ModeSwitchRequested, HandshakeEvent::ResetDone) => HandshakeState::Terminal {
            success: true,
        },
        _ => HandshakeState::Terminal { success: false },
    };
    let action = match next {
        HandshakeState::Unknown => HandshakeAction::QueryVersion,
        HandshakeState::VersionChecked => HandshakeAction::SendIdentityStrings,
        HandshakeState::HostIntroduced => HandshakeAction::RequestModeSwitch,
        HandshakeState::ModeSwitchRequested => HandshakeAction::ResetDevice,
        HandshakeState::Terminal { .. } => HandshakeAction::Stop,
    };
    (next, action)
}

/// A version reply whose first byte is outside one
/// and two ends the handshake at once, and no later event can make the
/// machine ask for the introduction or the mode switch; a reply with
/// version one or two walks the machine through introduction, mode switch
/// and reset to terminal success.
pub proof fn lemma_version_gate(reply: Vec<u8>)
    ensures
        !(reply@.len() > 0 && 1 <= reply@[0] <= 2) ==> {
            let bad = handshake_next_spec(
                HandshakeState::Unknown,
                &(HandshakeEvent::VersionReply { data: reply }),
            );
            &&& bad == (HandshakeState::Terminal { success: false })
            &&& action_of_spec(bad) == HandshakeAction::Stop
            &&& forall|e: HandshakeEvent| handshake_next_spec(bad, &e) == bad
        },
        (reply@.len() > 0 && 1 <= reply@[0] <= 2) ==> {
            let s1 = handshake_next_spec(
                HandshakeState::Unknown,
                &(HandshakeEvent::VersionReply { data: reply }),
            );
            &&& s1 == HandshakeState::VersionChecked
            &&& action_of_spec(s1) == HandshakeAction::SendIdentityStrings
            &&& {
                let s2 = handshake_next_spec(s1, &HandshakeEvent::IdentityDelivered);
                &&& s2 == HandshakeState::HostIntroduced
                &&& action_of_spec(s2) == HandshakeAction::RequestModeSwitch
                &&& {
                    let s3 = handshake_next_spec(s2, &HandshakeEvent::ModeSwitchDelivered);
                    &&& s3 == HandshakeState::ModeSwitchRequested
                    &&& action_of_spec(s3) == HandshakeAction::ResetDevice
                    &&& handshake_next_spec(s3, &HandshakeEvent::ResetDone)
                        == (HandshakeState::Terminal { success: true })
                }
            }
        },
{
}

} // verus!
