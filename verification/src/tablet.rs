//! The graphics-tablet emitter: stylus frames to HID report batches.
//!
//! The tablet is stateless across frames. For each stylus frame, in order,
//! it reports the pen tool in range, the absolute position, the contact
//! key, and the pressure; every other event kind is ignored. The caller
//! flushes the returned batch as one atomic emission, and flushes nothing
//! when it is empty.

use crate::data::ToucheData;
use crate::hid::{AbsAxis, HidKey, HidReport};
use vstd::prelude::*;

verus! {

/// The absolute-pressure value reported for one stylus frame: the
/// normalized pressure in `1/4096` units when pressed, full scale when
/// pressed without a reading, and zero when lifted.
pub open spec fn pressure_value(pressed: bool, pressure: Option<i32>) -> i32 {
    if !pressed {
        0
    } else {
        match pressure {
            Some(q) => q,
            None => 4096,
        }
    }
}

/// The five reports of one stylus frame; any other event yields none.
pub open spec fn stylus_reports(e: ToucheData) -> Seq<HidReport> {
    match e {
        ToucheData::StylusFrame { x, y, pressed, pressure } => seq![
            (HidReport::Key { key: HidKey::BtnToolPen, value: 1 }),
            (HidReport::Abs { axis: AbsAxis::X, value: x }),
            (HidReport::Abs { axis: AbsAxis::Y, value: y }),
            (HidReport::Key {
                key: HidKey::BtnTouch,
                value: if pressed {
                    1i32
                } else {
                    0i32
                },
            }),
            (HidReport::Abs { axis: AbsAxis::Pressure, value: pressure_value(pressed, pressure) }),
        ],
        _ => seq![],
    }
}

/// The whole batch of a frame: the stylus reports of its events, in order.
pub open spec fn tablet_report_seq(events: Seq<ToucheData>) -> Seq<HidReport>
    decreases events.len(),
{
    if events.len() == 0 {
        seq![]
    } else {
        tablet_report_seq(events.drop_last()) + stylus_reports(events.last())
    }
}

/// Computes the tablet's report batch for one decoded frame, exactly as
/// [`tablet_report_seq`] says. An empty result means nothing is emitted.
pub fn tablet_reports(events: &Vec<ToucheData>) -> (r: Vec<HidReport>)
    ensures
        r@ == tablet_report_seq(events@),
{
    let mut r: Vec<HidReport> = Vec::new();
    let mut i: usize = 0;
    proof {
        assert(events@.take(0) =~= Seq::<ToucheData>::empty());
        assert(r@ =~= tablet_report_seq(events@.take(0)));
    }
    while i < events.len()
        invariant
            i <= events@.len(),
            r@ == tablet_report_seq(events@.take(i as int)),
        decreases events@.len() - i,
    {
        let ghost pre = r@;
        match &events[i] {
            ToucheData::StylusFrame { x, y, pressed, pressure } => {
                r.push(HidReport::Key { key: HidKey::BtnToolPen, value: 1 });
                r.push(HidReport::Abs { axis: AbsAxis::X, value: *x });
                r.push(HidReport::Abs { axis: AbsAxis::Y, value: *y });
                r.push(HidReport::Key {
                    key: HidKey::BtnTouch,
                    value: if *pressed {
                        1
                    } else {
                        0
                    },
                });
                let pv: i32 = if !*pressed {
                    0
                } else {
                    match pressure {
                        Some(q) => *q,
                        None => 4096,
                    }
                };
                r.push(HidReport::Abs { axis: AbsAxis::Pressure, value: pv });
                proof {
                    assert(r@ =~= pre + stylus_reports(events@[i as int]));
                }
            },
            _ => {
                proof {
                    assert(r@ =~= pre + stylus_reports(events@[i as int]));
                }
            },
        }
        proof {
            assert(events@.take(i + 1).drop_last() =~= events@.take(i as int));
            assert(events@.take(i + 1).last() == events@[i as int]);
        }
        i += 1;
    }
    proof {
        assert(events@.take(events@.len() as int) =~= events@);
    }
    r
}

} // verus!
