//! The transfer session: endpoint resolution, the size-probe exchange,
//! and the steady-state frame pipeline.
//!
//! The unverified shell owns the USB handle and performs the transfers;
//! this module makes every decision. A session starts by resolving one
//! bulk endpoint per direction, writing the size-probe opcode, and
//! demanding that the first decoded event be the screen size. From then
//! on each frame is decoded and turned into the two emitters' report
//! batches — touchpad first, then tablet — until a transfer fails, which
//! is the normal disconnect signal.

use crate::data::ToucheData;
use crate::decode::{decoded_events, parse_touche_data};
use crate::hid::HidReport;
use crate::tablet::{tablet_report_seq, tablet_reports};
use crate::touchpad::{apply_touches, touchpad_report_seq, TouchpadEmitter};
use vstd::prelude::*;
use vstd::utf8::valid_utf8;

verus! {

/// Opcode written to request the size-probe (initial) frame.
pub const OPCODE_INITIAL_FRAME: u8 = 2;

/// Opcode written to request the next data frame.
pub const OPCODE_NEXT_FRAME: u8 = 1;

/// How many bytes each bulk read asks for.
pub const MAX_FRAME_LEN: usize = 16384;

/// What the session reads from one endpoint descriptor.
#[derive(Clone, Copy, Debug, PartialEq, Eq, Structural)]
pub struct EndpointDesc {
    pub address: u8,
    pub is_in: bool,
    pub is_bulk: bool,
}

/// Why a session fails to start or aborts.
#[derive(Clone, Copy, Debug, PartialEq, Eq, Structural)]
pub enum SessionError {
    /// Configuration: the interface has no bulk IN endpoint.
    MissingInEndpoint,
    /// Configuration: the interface has no bulk OUT endpoint.
    MissingOutEndpoint,
    /// Protocol: a frame was not valid UTF-8.
    DecodeFailure,
    /// Protocol: the size probe did not lead with a screen-size event.
    MissingScreenSize,
}

pub open spec fn matches_dir(e: EndpointDesc, dir_in: bool) -> bool {
    e.is_bulk && e.is_in == dir_in
}

pub open spec fn has_bulk(eps: Seq<EndpointDesc>, dir_in: bool) -> bool {
    exists|i: int| 0 <= i < eps.len() && matches_dir(#[trigger] eps[i], dir_in)
}

/// Address of the first bulk endpoint in the given direction.
pub open spec fn first_bulk_addr(eps: Seq<EndpointDesc>, dir_in: bool) -> u8
    recommends
        has_bulk(eps, dir_in),
    decreases eps.len(),
{
    if eps.len() == 0 {
        0
    } else if matches_dir(eps[0], dir_in) {
        eps[0].address
    } else {
        first_bulk_addr(eps.skip(1), dir_in)
    }
}

proof fn lemma_first_bulk_at(eps: Seq<EndpointDesc>, dir_in: bool, k: int)
    requires
        0 <= k < eps.len(),
        matches_dir(eps[k], dir_in),
        forall|j: int| 0 <= j < k ==> !matches_dir(#[trigger] eps[j], dir_in),
    ensures
        first_bulk_addr(eps, dir_in) == eps[k].address,
    decreases k,
{
    if k == 0 {
    } else {
        assert(!matches_dir(eps[0], dir_in));
        assert forall|j: int| 0 <= j < k - 1 implies !matches_dir(
            #[trigger] eps.skip(1)[j],
            dir_in,
        ) by {
            assert(eps.skip(1)[j] == eps[j + 1]);
        }
        assert(eps.skip(1)[k - 1] == eps[k]);
        lemma_first_bulk_at(eps.skip(1), dir_in, k - 1);
    }
}

/// Finds the first bulk endpoint of the given direction.
fn find_bulk(eps: &Vec<EndpointDesc>, dir_in: bool) -> (r: Option<u8>)
    ensures
        match r {
            Some(addr) => has_bulk(eps@, dir_in) && addr == first_bulk_addr(eps@, dir_in),
            None => !has_bulk(eps@, dir_in),
        },
{
    let mut i: usize = 0;
    while i < eps.len()
        invariant
            i <= eps@.len(),
            forall|j: int| 0 <= j < i ==> !matches_dir(#[trigger] eps@[j], dir_in),
        decreases eps@.len() - i,
    {
        let e = eps[i];
        if e.is_bulk && e.is_in == dir_in {
            proof {
                lemma_first_bulk_at(eps@, dir_in, i as int);
            }
            return Some(e.address);
        }
        i += 1;
    }
    None
}

/// Resolves the bulk IN and OUT endpoint addresses of the claimed
/// interface, the first of each direction, and says exactly which
/// direction is missing otherwise.
pub fn resolve_endpoints(eps: &Vec<EndpointDesc>) -> (r: Result<(u8, u8), SessionError>)
    ensures
        match r {
            Ok(addrs) => has_bulk(eps@, true) && has_bulk(eps@, false) && addrs.0
                == first_bulk_addr(eps@, true) && addrs.1 == first_bulk_addr(eps@, false),
            Err(e) => (e == SessionError::MissingInEndpoint && !has_bulk(eps@, true)) || (e
                == SessionError::MissingOutEndpoint && has_bulk(eps@, true) && !has_bulk(
                eps@,
                false,
            )),
        },
{
    let in_addr = match find_bulk(eps, true) {
        Some(a) => a,
        None => {
            return Err(SessionError::MissingInEndpoint);
        },
    };
    let out_addr = match find_bulk(eps, false) {
        Some(a) => a,
        None => {
            return Err(SessionError::MissingOutEndpoint);
        },
    };
    Ok((in_addr, out_addr))
}

/// True when a decoded frame leads with a screen-size event, as the size
/// probe's answer must.
pub open spec fn leading_screen_size(events: Seq<ToucheData>) -> bool {
    events.len() > 0 && events[0] matches ToucheData::ScreenSize { .. }
}

/// The per-session state of the frame pipeline: the screen geometry the
/// device reported and the touchpad's slot table.
#[derive(Debug, PartialEq, Eq)]
pub struct SessionCore {
    pub width: i32,
    pub height: i32,
    pub touchpad: TouchpadEmitter,
}

/// The two report batches of one processed frame, in dispatch order:
/// the touchpad flushes first, then the tablet.
#[derive(Debug, PartialEq, Eq)]
pub struct FrameOutput {
    pub touchpad: Vec<HidReport>,
    pub tablet: Vec<HidReport>,
}

impl SessionCore {
    pub open spec fn wf(&self) -> bool {
        self.touchpad.wf()
    }

    /// Accepts the size probe's answer and sets the session up. The frame
    /// must decode and lead with a screen-size event; each failure is
    /// reported as exactly one error.
    pub fn start_session(first_frame: &Vec<u8>) -> (r: Result<SessionCore, SessionError>)
        ensures
            match r {
                Ok(core) => {
                    &&& valid_utf8(first_frame@)
                    &&& leading_screen_size(decoded_events(first_frame@))
                    &&& core.wf()
                    &&& decoded_events(first_frame@)[0] matches ToucheData::ScreenSize {
                        width,
                        height,
                    } && core.width == width && core.height == height
                    &&& core.touchpad.slot_view() == Seq::new(10, |i: int| None::<i32>)
                },
                Err(e) => (e == SessionError::DecodeFailure && !valid_utf8(first_frame@)) || (e
                    == SessionError::MissingScreenSize && valid_utf8(first_frame@)
                    && !leading_screen_size(decoded_events(first_frame@))),
            },
    {
        let events = match parse_touche_data(first_frame) {
            Ok(events) => events,
            Err(_) => {
                return Err(SessionError::DecodeFailure);
            },
        };
        if events.len() == 0 {
            return Err(SessionError::MissingScreenSize);
        }
        match events[0] {
            ToucheData::ScreenSize { width, height } => Ok(
                SessionCore { width, height, touchpad: TouchpadEmitter::new() },
            ),
            _ => Err(SessionError::MissingScreenSize),
        }
    }

    /// Processes one steady-state frame: decodes it and computes both
    /// report batches, updating the slot table. A frame that is not valid
    /// UTF-8 is the one fatal error, and leaves the session unchanged.
    pub fn process_frame(&mut self, bytes: &Vec<u8>) -> (r: Result<FrameOutput, SessionError>)
        requires
            old(self).wf(),
        ensures
            final (self).wf(),
            final (self).width == old(self).width,
            final (self).height == old(self).height,
            match r {
                Ok(out) => {
                    &&& valid_utf8(bytes@)
                    &&& out.touchpad@ == touchpad_report_seq(decoded_events(bytes@))
                    &&& out.tablet@ == tablet_report_seq(decoded_events(bytes@))
                    &&& final (self).touchpad.slot_view() == apply_touches(
                        old(self).touchpad.slot_view(),
                        decoded_events(bytes@),
                    )
                },
                Err(e) => {
                    &&& e == SessionError::DecodeFailure
                    &&& !valid_utf8(bytes@)
                    &&& final (self).touchpad.slot_view() == old(self).touchpad.slot_view()
                },
            },
    {
        let events = match parse_touche_data(bytes) {
            Ok(events) => events,
            Err(_) => {
                return Err(SessionError::DecodeFailure);
            },
        };
        let touchpad_batch = self.touchpad.emit(&events);
        let tablet_batch = tablet_reports(&events);
        Ok(FrameOutput { touchpad: touchpad_batch, tablet: tablet_batch })
    }
}

/// The operations of the steady-state loop whose failures the shell must
/// classify.
#[derive(Clone, Copy, Debug, PartialEq, Eq, Structural)]
pub enum LoopOp {
    /// Writing the next-frame opcode.
    OpcodeWrite,
    /// Reading the next frame.
    FrameRead,
    /// Flushing the touchpad's report batch.
    TouchpadFlush,
    /// Flushing the tablet's report batch.
    TabletFlush,
}

/// How the loop reacts to a failed operation.
#[derive(Clone, Copy, Debug, PartialEq, Eq, Structural)]
pub enum FailureResponse {
    /// Abort the session as an error.
    FatalError,
    /// End the session quietly: the device disconnected.
    CleanDisconnect,
    /// Log and carry on.
    Ignore,
}

/// The loop's error policy: a failed opcode write is fatal, a failed read
/// is the normal disconnect, a touchpad flush failure is fatal, and a
/// tablet flush failure is cosmetic.
pub fn failure_policy(op: LoopOp) -> (r: FailureResponse)
    ensures
        r == (match op {
            LoopOp::OpcodeWrite => FailureResponse::FatalError,
            LoopOp::FrameRead => FailureResponse::CleanDisconnect,
            LoopOp::TouchpadFlush => FailureResponse::FatalError,
            LoopOp::TabletFlush => FailureResponse::Ignore,
        }),
{
    match op {
        LoopOp::OpcodeWrite => FailureResponse::FatalError,
        LoopOp::FrameRead => FailureResponse::CleanDisconnect,
        LoopOp::TouchpadFlush => FailureResponse::FatalError,
        LoopOp::TabletFlush => FailureResponse::Ignore,
    }
}

} // verus!
