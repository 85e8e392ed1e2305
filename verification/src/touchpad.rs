//! The touchpad emitter: finger frames to HID report batches, a slot
//! table, and gesture-key synthesis.
//!
//! Each finger frame reports its multi-touch slot — the contact id modulo
//! ten — its tracking id (or `-1` on release), and its position. After all
//! finger frames of a batch, the emitter counts the pressed contacts in
//! the batch and appends the gesture keys: the contact key when one to
//! five fingers are down, and exactly the tap-tool key of that count.
//! Nothing is flushed for a batch without finger frames.
//!
//! The slot table remembers which contact id owns each of the ten slots;
//! ids that agree modulo ten share a slot, and the later one overwrites
//! the entry — a documented limitation of the modulo assignment.

use crate::data::ToucheData;
use crate::hid::{AbsAxis, HidKey, HidReport};
use vstd::prelude::*;

verus! {

/// The slot of a contact id: the remainder modulo ten, with the sign of
/// the id, as the host language's remainder computes it.
pub open spec fn slot_of(touch_id: int) -> int {
    if touch_id >= 0 {
        touch_id % 10
    } else {
        -((-touch_id) % 10)
    }
}

/// The four reports of one finger frame; any other event yields none.
pub open spec fn touch_reports(e: ToucheData) -> Seq<HidReport> {
    match e {
        ToucheData::TouchFrame { x, y, touch_id, pressed } => seq![
            (HidReport::Abs { axis: AbsAxis::MtSlot, value: slot_of(touch_id as int) as i32 }),
            (HidReport::Abs {
                axis: AbsAxis::MtTrackingId,
                value: if pressed {
                    touch_id
                } else {
                    -1i32
                },
            }),
            (HidReport::Abs { axis: AbsAxis::MtPositionX, value: x }),
            (HidReport::Abs { axis: AbsAxis::MtPositionY, value: y }),
        ],
        _ => seq![],
    }
}

/// The finger-frame reports of a batch, in order.
pub open spec fn touch_flat(events: Seq<ToucheData>) -> Seq<HidReport>
    decreases events.len(),
{
    if events.len() == 0 {
        seq![]
    } else {
        touch_flat(events.drop_last()) + touch_reports(events.last())
    }
}

/// Whether a batch holds at least one finger frame.
pub open spec fn has_touch(events: Seq<ToucheData>) -> bool {
    exists|i: int|
        0 <= i < events.len() && (#[trigger] events[i]) matches ToucheData::TouchFrame { .. }
}

/// How many finger frames of a batch are pressed.
pub open spec fn finger_count(events: Seq<ToucheData>) -> int
    decreases events.len(),
{
    if events.len() == 0 {
        0
    } else {
        finger_count(events.drop_last()) + (match events.last() {
            ToucheData::TouchFrame { pressed, .. } => if pressed {
                1int
            } else {
                0int
            },
            _ => 0int,
        })
    }
}

/// The six gesture-key reports for a pressed-finger count: the contact
/// key when one to five fingers are down, and exactly the tap-tool key
/// matching the count.
pub open spec fn gesture_reports(fc: int) -> Seq<HidReport> {
    seq![
        (HidReport::Key {
            key: HidKey::BtnTouch,
            value: if 1 <= fc <= 5 {
                1i32
            } else {
                0i32
            },
        }),
        (HidReport::Key {
            key: HidKey::BtnToolFinger,
            value: if fc == 1 {
                1i32
            } else {
                0i32
            },
        }),
        (HidReport::Key {
            key: HidKey::BtnToolDoubletap,
            value: if fc == 2 {
                1i32
            } else {
                0i32
            },
        }),
        (HidReport::Key {
            key: HidKey::BtnToolTripletap,
            value: if fc == 3 {
                1i32
            } else {
                0i32
            },
        }),
        (HidReport::Key {
            key: HidKey::BtnToolQuadtap,
            value: if fc == 4 {
                1i32
            } else {
                0i32
            },
        }),
        (HidReport::Key {
            key: HidKey::BtnToolQuinttap,
            value: if fc == 5 {
                1i32
            } else {
                0i32
            },
        }),
    ]
}

/// The whole batch of a frame: the finger reports followed by the gesture
/// keys, or nothing at all when the frame holds no finger frame.
pub open spec fn touchpad_report_seq(events: Seq<ToucheData>) -> Seq<HidReport> {
    if has_touch(events) {
        touch_flat(events) + gesture_reports(finger_count(events))
    } else {
        seq![]
    }
}

/// A batch without finger frames reports nothing.
proof fn lemma_touch_flat_empty(events: Seq<ToucheData>)
    requires
        !has_touch(events),
    ensures
        touch_flat(events) == Seq::<HidReport>::empty(),
    decreases events.len(),
{
    if events.len() > 0 {
        assert(events[events.len() - 1] == events.last());
        assert(!(events.last() matches ToucheData::TouchFrame { .. }));
        assert forall|i: int| 0 <= i < events.drop_last().len() implies !((
        #[trigger] events.drop_last()[i]) matches ToucheData::TouchFrame { .. }) by {
            assert(events.drop_last()[i] == events[i]);
        }
        lemma_touch_flat_empty(events.drop_last());
        assert(touch_flat(events) =~= Seq::<HidReport>::empty());
    }
}

/// One finger frame's effect on the slot table: a pressed contact with a
/// non-negative id takes its slot, a released one frees it.
pub open spec fn apply_touch(slots: Seq<Option<i32>>, e: ToucheData) -> Seq<Option<i32>> {
    match e {
        ToucheData::TouchFrame { touch_id, pressed, .. } => {
            if touch_id >= 0 {
                slots.update(
                    slot_of(touch_id as int),
                    if pressed {
                        Some(touch_id)
                    } else {
                        None
                    },
                )
            } else {
                slots
            }
        },
        _ => slots,
    }
}

/// A batch's effect on the slot table, frame by frame, in order.
pub open spec fn apply_touches(slots: Seq<Option<i32>>, events: Seq<ToucheData>) -> Seq<
    Option<i32>,
>
    decreases events.len(),
{
    if events.len() == 0 {
        slots
    } else {
        apply_touch(apply_touches(slots, events.drop_last()), events.last())
    }
}

/// The touchpad emitter: the slot table it maintains for one session.
#[derive(Debug, PartialEq, Eq)]
pub struct TouchpadEmitter {
    slots: Vec<Option<i32>>,
}

impl TouchpadEmitter {
    /// The table always has exactly ten slots.
    pub closed spec fn wf(&self) -> bool {
        self.slots@.len() == 10
    }

    /// The table's contents: the id owning each of the ten slots.
    pub closed spec fn slot_view(&self) -> Seq<Option<i32>> {
        self.slots@
    }

    /// A fresh emitter with all slots free.
    pub fn new() -> (r: TouchpadEmitter)
        ensures
            r.wf(),
            r.slot_view() == Seq::new(10, |i: int| None::<i32>),
    {
        let mut slots: Vec<Option<i32>> = Vec::new();
        let mut i: usize = 0;
        while i < 10
            invariant
                i <= 10,
                slots@.len() == i,
                forall|j: int| 0 <= j < i ==> slots@[j] is None,
            decreases 10 - i,
        {
            slots.push(None);
            i += 1;
        }
        let r = TouchpadEmitter { slots };
        proof {
            assert(r.slot_view() =~= Seq::new(10, |i: int| None::<i32>));
        }
        r
    }

    /// The contact id currently holding a slot, if any.
    pub fn slot_owner(&self, slot: usize) -> (r: Option<i32>)
        requires
            self.wf(),
            slot < 10,
        ensures
            r == self.slot_view()[slot as int],
    {
        self.slots[slot]
    }

    /// Computes the touchpad's report batch for one decoded frame, exactly
    /// as [`touchpad_report_seq`] says, and updates the slot table exactly
    /// as [`apply_touches`] says. An empty result means nothing is emitted.
    pub fn emit(&mut self, events: &Vec<ToucheData>) -> (r: Vec<HidReport>)
        requires
            old(self).wf(),
        ensures
            final (self).wf(),
            r@ == touchpad_report_seq(events@),
            final (self).slot_view() == apply_touches(old(self).slot_view(), events@),
    {
        let ghost slots0 = self.slot_view();
        let mut r: Vec<HidReport> = Vec::new();
        let mut fingers: usize = 0;
        let mut saw_touch = false;
        let mut i: usize = 0;
        proof {
            assert(events@.take(0) =~= Seq::<ToucheData>::empty());
        }
        while i < events.len()
            invariant
                i <= events@.len(),
                self.wf(),
                r@ == touch_flat(events@.take(i as int)),
                fingers == finger_count(events@.take(i as int)),
                fingers <= i,
                saw_touch == has_touch(events@.take(i as int)),
                self.slot_view() == apply_touches(slots0, events@.take(i as int)),
                slots0.len() == 10,
            decreases events@.len() - i,
        {
            let ghost pre = r@;
            let ghost spre = self.slot_view();
            match &events[i] {
                ToucheData::TouchFrame { x, y, touch_id, pressed } => {
                    let id = *touch_id;
                    let slot_val: i32 = if id >= 0 {
                        id % 10
                    } else {
                        (-((-(id as i64)) % 10)) as i32
                    };
                    proof {
                        assert(slot_val == slot_of(id as int));
                    }
                    r.push(HidReport::Abs { axis: AbsAxis::MtSlot, value: slot_val });
                    r.push(HidReport::Abs {
                        axis: AbsAxis::MtTrackingId,
                        value: if *pressed {
                            id
                        } else {
                            -1
                        },
                    });
                    r.push(HidReport::Abs { axis: AbsAxis::MtPositionX, value: *x });
                    r.push(HidReport::Abs { axis: AbsAxis::MtPositionY, value: *y });
                    if *pressed {
                        fingers += 1;
                    }
                    saw_touch = true;
                    if id >= 0 {
                        let slot_idx = slot_val as usize;
                        self.slots.set(
                            slot_idx,
                            if *pressed {
                                Some(id)
                            } else {
                                None
                            },
                        );
                    }
                    proof {
                        assert(r@ =~= pre + touch_reports(events@[i as int]));
                        assert(self.slot_view() =~= apply_touch(spre, events@[i as int]));
                    }
                },
                _ => {
                    proof {
                        assert(r@ =~= pre + touch_reports(events@[i as int]));
                        assert(self.slot_view() =~= apply_touch(spre, events@[i as int]));
                    }
                },
            }
            proof {
                assert(events@.take(i + 1).drop_last() =~= events@.take(i as int));
                assert(events@.take(i + 1).last() == events@[i as int]);
                if has_touch(events@.take(i as int)) {
                    let ghost k = choose|k: int|
                        0 <= k < events@.take(i as int).len() && (#[trigger] events@.take(
                            i as int,
                        )[k]) matches ToucheData::TouchFrame { .. };
                    assert(events@.take(i + 1)[k] matches ToucheData::TouchFrame { .. });
                }
                if (events@[i as int]) matches ToucheData::TouchFrame { .. } {
                    assert(events@.take(i + 1)[i as int] matches ToucheData::TouchFrame { .. });
                }
                if has_touch(events@.take(i + 1)) && !has_touch(events@.take(i as int)) && !(
                events@[i as int] matches ToucheData::TouchFrame { .. }) {
                    let ghost k = choose|k: int|
                        0 <= k < events@.take(i + 1).len() && (#[trigger] events@.take(i + 1)[k])
                            matches ToucheData::TouchFrame { .. };
                    assert(events@.take(i as int)[k] matches ToucheData::TouchFrame { .. });
                }
            }
            i += 1;
        }
        proof {
            assert(events@.take(events@.len() as int) =~= events@);
        }
        if !saw_touch {
            proof {
                lemma_touch_flat_empty(events@);
            }
        }
        if saw_touch {
            r.push(HidReport::Key {
                key: HidKey::BtnTouch,
                value: if 1 <= fingers && fingers <= 5 {
                    1
                } else {
                    0
                },
            });
            r.push(HidReport::Key {
                key: HidKey::BtnToolFinger,
                value: if fingers == 1 {
                    1
                } else {
                    0
                },
            });
            r.push(HidReport::Key {
                key: HidKey::BtnToolDoubletap,
                value: if fingers == 2 {
                    1
                } else {
                    0
                },
            });
            r.push(HidReport::Key {
                key: HidKey::BtnToolTripletap,
                value: if fingers == 3 {
                    1
                } else {
                    0
                },
            });
            r.push(HidReport::Key {
                key: HidKey::BtnToolQuadtap,
                value: if fingers == 4 {
                    1
                } else {
                    0
                },
            });
            r.push(HidReport::Key {
                key: HidKey::BtnToolQuinttap,
                value: if fingers == 5 {
                    1
                } else {
                    0
                },
            });
            proof {
                assert(r@ =~= touch_flat(events@) + gesture_reports(finger_count(events@)));
            }
        }
        r
    }
}

/// The slot of a contact depends
/// on its id alone, and two ids that agree modulo ten always share a slot.
pub proof fn lemma_slot_determinism(a: int, b: int)
    requires
        a >= 0,
        b >= 0,
        a % 10 == b % 10,
    ensures
        slot_of(a) == slot_of(b),
        0 <= slot_of(a) < 10,
{
}

/// When two pressed contacts of one batch
/// share a slot, the later one owns the table entry afterwards.
pub proof fn lemma_slot_collision(
    slots: Seq<Option<i32>>,
    a: i32,
    b: i32,
    xa: i32,
    ya: i32,
    xb: i32,
    yb: i32,
)
    requires
        slots.len() == 10,
        a >= 0,
        b >= 0,
        slot_of(a as int) == slot_of(b as int),
    ensures
        apply_touches(
            slots,
            seq![
                (ToucheData::TouchFrame { x: xa, y: ya, touch_id: a, pressed: true }),
                (ToucheData::TouchFrame { x: xb, y: yb, touch_id: b, pressed: true }),
            ],
        )[slot_of(b as int)] == Some(b),
{
    let first = ToucheData::TouchFrame { x: xa, y: ya, touch_id: a, pressed: true };
    let second = ToucheData::TouchFrame { x: xb, y: yb, touch_id: b, pressed: true };
    let s2 = seq![first, second];
    assert(s2.drop_last() =~= seq![first]);
    assert(seq![first].drop_last() =~= Seq::<ToucheData>::empty());
    assert(apply_touches(slots, Seq::<ToucheData>::empty()) == slots);
    assert(apply_touches(slots, seq![first]) == apply_touch(slots, first));
    assert(apply_touches(slots, s2) == apply_touch(apply_touch(slots, first), second));
}

/// For every pressed-finger count the gesture keys
/// are exactly the table `0 -> {}`, `1 -> {touch, single}`,
/// `2 -> {touch, double}`, `3 -> {touch, triple}`, `4 -> {touch, quad}`,
/// `5 -> {touch, quint}`, and above five every key is released again.
pub proof fn lemma_gesture_mapping(fc: int)
    ensures
        gesture_reports(fc).len() == 6,
        gesture_reports(fc)[0] == (HidReport::Key {
            key: HidKey::BtnTouch,
            value: if 1 <= fc <= 5 {
                1i32
            } else {
                0i32
            },
        }),
        gesture_reports(fc)[1] == (HidReport::Key {
            key: HidKey::BtnToolFinger,
            value: if fc == 1 {
                1i32
            } else {
                0i32
            },
        }),
        gesture_reports(fc)[2] == (HidReport::Key {
            key: HidKey::BtnToolDoubletap,
            value: if fc == 2 {
                1i32
            } else {
                0i32
            },
        }),
        gesture_reports(fc)[3] == (HidReport::Key {
            key: HidKey::BtnToolTripletap,
            value: if fc == 3 {
                1i32
            } else {
                0i32
            },
        }),
        gesture_reports(fc)[4] == (HidReport::Key {
            key: HidKey::BtnToolQuadtap,
            value: if fc == 4 {
                1i32
            } else {
                0i32
            },
        }),
        gesture_reports(fc)[5] == (HidReport::Key {
            key: HidKey::BtnToolQuinttap,
            value: if fc == 5 {
                1i32
            } else {
                0i32
            },
        }),
{
}

} // verus!
