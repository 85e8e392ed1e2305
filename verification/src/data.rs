//! The typed touch events decoded from the wire format.

use vstd::prelude::*;

verus! {

/// One decoded record from a device frame.
///
/// Stylus pressure is normalized: the wire carries a decimal in `[0, 1]`,
/// and the decoder stores it in units of `1/4096`, so a well-formed value
/// lies in `[0, 4096]`. That is exactly the scale of the virtual tablet's
/// absolute-pressure axis, so the emitter can report it unchanged.
#[derive(Clone, Debug, PartialEq, Eq)]
pub enum ToucheData {
    /// Reported once, in the first frame only; defines the axis ranges
    /// for the virtual devices.
    ScreenSize { width: i32, height: i32 },
    /// Absolute pen position, contact state, and normalized pressure
    /// in `1/4096` units (`None` when the pen is lifted or the device
    /// did not report pressure).
    StylusFrame { x: i32, y: i32, pressed: bool, pressure: Option<i32> },
    /// One finger-contact sample; `touch_id` persists for the lifetime
    /// of one continuous contact.
    TouchFrame { x: i32, y: i32, touch_id: i32, pressed: bool },
    /// A physical on-device button.
    ButtonFrame { button_id: i32, pressed: bool },
}

/// A value the decoder can actually produce and the encoder can write back:
/// pressure only accompanies a pressed stylus and lies in `[0, 4096]`,
/// and a button identifier lies in `[0, 9]`.
pub open spec fn wf_event(e: ToucheData) -> bool {
    match e {
        ToucheData::ScreenSize { .. } => true,
        ToucheData::StylusFrame { pressed, pressure, .. } => match pressure {
            Some(p) => pressed && 0 <= p <= 4096,
            None => true,
        },
        ToucheData::TouchFrame { .. } => true,
        ToucheData::ButtonFrame { button_id, .. } => 0 <= button_id <= 9,
    }
}

} // verus!
