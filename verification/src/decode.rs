//! The wire-format decoder: raw frame bytes to typed touch events.
//!
//! A frame is UTF-8 text; rows are separated by `\n` and fields by `\t`,
//! and the first field of a row tags it. A row that is malformed in any
//! way — unknown tag, missing fields, unparseable numbers — is skipped
//! silently; the only fatal decode error is a frame that is not valid
//! UTF-8. A frame with no well-formed row decodes to an empty event
//! sequence, which is valid.

use crate::data::ToucheData;
use crate::num::{parse_coord, parse_coord_spec, parse_i32, parse_i32_spec, parse_q12,
    parse_q12_spec};
use crate::split::{split_bytes, split_on, views};
use crate::utf8check::is_valid_utf8;
use vstd::prelude::*;
use vstd::utf8::valid_utf8;

verus! {

/// The row separator, `\n`.
pub const NL: u8 = 10;

/// The field separator, `\t`.
pub const TAB: u8 = 9;

pub const TAG_SCREEN_SIZE: u8 = 88;

pub const TAG_STYLUS: u8 = 83;

pub const TAG_TOUCH: u8 = 70;

pub const TAG_BUTTON: u8 = 66;

/// The one fatal decoder failure: the frame is not valid UTF-8.
#[derive(Clone, Copy, Debug, PartialEq, Eq)]
pub enum DecodeError {
    InvalidUtf8,
}

/// The event of one row of fields, or `None` when the row is skipped.
pub open spec fn parse_row(fields: Seq<Seq<u8>>) -> Option<ToucheData> {
    if fields.len() == 0 {
        None
    } else if fields[0] == seq![TAG_SCREEN_SIZE] {
        if fields.len() >= 3 {
            match (parse_i32_spec(fields[1]), parse_i32_spec(fields[2])) {
                (Some(width), Some(height)) => Some(ToucheData::ScreenSize { width, height }),
                _ => None,
            }
        } else {
            None
        }
    } else if fields[0] == seq![TAG_STYLUS] {
        if fields.len() >= 4 {
            match (parse_coord_spec(fields[1]), parse_coord_spec(fields[2]), parse_i32_spec(
                fields[3],
            )) {
                (Some(x), Some(y), Some(p)) => {
                    let pressed = p == 1;
                    let pressure = if pressed && fields.len() >= 5 {
                        parse_q12_spec(fields[4])
                    } else {
                        None
                    };
                    Some(ToucheData::StylusFrame { x, y, pressed, pressure })
                },
                _ => None,
            }
        } else {
            None
        }
    } else if fields[0] == seq![TAG_TOUCH] {
        if fields.len() >= 5 {
            match (parse_coord_spec(fields[1]), parse_coord_spec(fields[2]), parse_i32_spec(
                fields[3],
            ), parse_i32_spec(fields[4])) {
                (Some(x), Some(y), Some(p), Some(touch_id)) => Some(
                    ToucheData::TouchFrame { x, y, touch_id, pressed: p == 1 },
                ),
                _ => None,
            }
        } else {
            None
        }
    } else if fields[0] == seq![TAG_BUTTON] {
        if fields.len() >= 3 {
            match (parse_i32_spec(fields[1]), parse_i32_spec(fields[2])) {
                (Some(button_id), Some(p)) => Some(
                    ToucheData::ButtonFrame { button_id, pressed: p == 1 },
                ),
                _ => None,
            }
        } else {
            None
        }
    } else {
        None
    }
}

/// The events of a row sequence, in order, skipped rows contributing none.
pub open spec fn events_of_rows(rows: Seq<Seq<Seq<u8>>>) -> Seq<ToucheData>
    decreases rows.len(),
{
    if rows.len() == 0 {
        seq![]
    } else {
        let rest = events_of_rows(rows.skip(1));
        match parse_row(rows[0]) {
            Some(e) => seq![e] + rest,
            None => rest,
        }
    }
}

/// The rows of a frame, each split into fields.
pub open spec fn frame_rows(bytes: Seq<u8>) -> Seq<Seq<Seq<u8>>> {
    split_on(bytes, NL).map_values(|row: Seq<u8>| split_on(row, TAB))
}

/// What a frame decodes to, once it is known to be valid UTF-8.
pub open spec fn decoded_events(bytes: Seq<u8>) -> Seq<ToucheData> {
    events_of_rows(frame_rows(bytes))
}

pub proof fn lemma_events_of_rows_concat(a: Seq<Seq<Seq<u8>>>, b: Seq<Seq<Seq<u8>>>)
    ensures
        events_of_rows(a + b) == events_of_rows(a) + events_of_rows(b),
    decreases a.len(),
{
    if a.len() == 0 {
        assert(a + b =~= b);
        assert(events_of_rows(a) + events_of_rows(b) =~= events_of_rows(b));
    } else {
        assert((a + b).len() > 0);
        assert((a + b)[0] == a[0]);
        assert((a + b).skip(1) =~= a.skip(1) + b);
        lemma_events_of_rows_concat(a.skip(1), b);
        match parse_row(a[0]) {
            Some(e) => {
                assert(seq![e] + (events_of_rows(a.skip(1)) + events_of_rows(b)) =~= (seq![e]
                    + events_of_rows(a.skip(1))) + events_of_rows(b));
            },
            None => {},
        }
    }
}

/// When every row of a sequence parses, the events are exactly the parses,
/// in order.
pub proof fn lemma_events_of_rows_all_parse(rows: Seq<Seq<Seq<u8>>>)
    requires
        forall|i: int| 0 <= i < rows.len() ==> #[trigger] parse_row(rows[i]) is Some,
    ensures
        events_of_rows(rows) == rows.map_values(|r: Seq<Seq<u8>>| parse_row(r)->Some_0),
    decreases rows.len(),
{
    let f = |r: Seq<Seq<u8>>| parse_row(r)->Some_0;
    if rows.len() == 0 {
        assert(events_of_rows(rows) =~= rows.map_values(f));
    } else {
        assert forall|i: int| 0 <= i < rows.skip(1).len() implies #[trigger] parse_row(
            rows.skip(1)[i],
        ) is Some by {
            assert(rows.skip(1)[i] == rows[i + 1]);
        }
        lemma_events_of_rows_all_parse(rows.skip(1));
        assert(parse_row(rows[0]) is Some);
        assert(events_of_rows(rows) == seq![f(rows[0])] + rows.skip(1).map_values(f));
        assert(events_of_rows(rows) =~= rows.map_values(f));
    }
}

/// A malformed row among well-formed rows is skipped silently: the frame
/// still decodes, to exactly the events of the other rows, in order.
pub proof fn lemma_row_skip_is_silent(bytes: Seq<u8>, k: int)
    requires
        0 <= k < frame_rows(bytes).len(),
        parse_row(frame_rows(bytes)[k]) is None,
        forall|i: int|
            0 <= i < frame_rows(bytes).len() && i != k ==> #[trigger] parse_row(
                frame_rows(bytes)[i],
            ) is Some,
    ensures
        decoded_events(bytes) == frame_rows(bytes).remove(k).map_values(
            |r: Seq<Seq<u8>>| parse_row(r)->Some_0,
        ),
        decoded_events(bytes).len() == frame_rows(bytes).len() - 1,
{
    let rows = frame_rows(bytes);
    let f = |r: Seq<Seq<u8>>| parse_row(r)->Some_0;
    let pre = rows.take(k);
    let post = rows.skip(k + 1);
    assert(rows =~= pre + (seq![rows[k]] + post));
    lemma_events_of_rows_concat(pre, seq![rows[k]] + post);
    lemma_events_of_rows_concat(seq![rows[k]], post);
    assert(seq![rows[k]].skip(1) =~= Seq::<Seq<Seq<u8>>>::empty());
    assert(events_of_rows(Seq::<Seq<Seq<u8>>>::empty()) =~= Seq::<ToucheData>::empty());
    assert(seq![rows[k]][0] == rows[k]);
    assert(events_of_rows(seq![rows[k]]) =~= Seq::<ToucheData>::empty());
    assert forall|i: int| 0 <= i < pre.len() implies #[trigger] parse_row(pre[i]) is Some by {
        assert(pre[i] == rows[i]);
    }
    assert forall|i: int| 0 <= i < post.len() implies #[trigger] parse_row(post[i]) is Some by {
        assert(post[i] == rows[k + 1 + i]);
    }
    lemma_events_of_rows_all_parse(pre);
    lemma_events_of_rows_all_parse(post);
    assert(events_of_rows(rows) =~= events_of_rows(pre) + events_of_rows(post));
    assert(rows.remove(k) =~= pre + post);
    assert(events_of_rows(rows) =~= (pre + post).map_values(f));
}

/// True when `tag` is the one-byte sequence `b`.
fn tag_is(tag: &Vec<u8>, b: u8) -> (r: bool)
    ensures
        r == (tag@ == seq![b]),
{
    let r = tag.len() == 1 && tag[0] == b;
    proof {
        if r {
            assert(tag@ =~= seq![b]);
        } else {
            if tag@.len() == seq![b].len() {
                assert(tag@[0] != b);
            }
        }
    }
    r
}

/// Parses one row of fields, exactly as [`parse_row`] says.
fn parse_row_exec(fields: &Vec<Vec<u8>>) -> (r: Option<ToucheData>)
    ensures
        r == parse_row(views(fields@)),
{
    let ghost fv = views(fields@);
    let n = fields.len();
    if n == 0 {
        return None;
    }
    proof {
        assert(fv[0] == fields@[0]@);
        assert(fv.len() == n);
    }
    if tag_is(&fields[0], TAG_SCREEN_SIZE) {
        if n >= 3 {
            proof {
                assert(fv[1] == fields@[1]@);
                assert(fv[2] == fields@[2]@);
            }
            match (parse_i32(&fields[1]), parse_i32(&fields[2])) {
                (Some(width), Some(height)) => Some(ToucheData::ScreenSize { width, height }),
                _ => None,
            }
        } else {
            None
        }
    } else if tag_is(&fields[0], TAG_STYLUS) {
        if n >= 4 {
            proof {
                assert(fv[1] == fields@[1]@);
                assert(fv[2] == fields@[2]@);
                assert(fv[3] == fields@[3]@);
            }
            match (parse_coord(&fields[1]), parse_coord(&fields[2]), parse_i32(&fields[3])) {
                (Some(x), Some(y), Some(p)) => {
                    let pressed = p == 1;
                    let pressure = if pressed && n >= 5 {
                        proof {
                            assert(fv[4] == fields@[4]@);
                        }
                        parse_q12(&fields[4])
                    } else {
                        None
                    };
                    Some(ToucheData::StylusFrame { x, y, pressed, pressure })
                },
                _ => None,
            }
        } else {
            None
        }
    } else if tag_is(&fields[0], TAG_TOUCH) {
        if n >= 5 {
            proof {
                assert(fv[1] == fields@[1]@);
                assert(fv[2] == fields@[2]@);
                assert(fv[3] == fields@[3]@);
                assert(fv[4] == fields@[4]@);
            }
            match (parse_coord(&fields[1]), parse_coord(&fields[2]), parse_i32(&fields[3]),
            parse_i32(&fields[4])) {
                (Some(x), Some(y), Some(p), Some(touch_id)) => Some(
                    ToucheData::TouchFrame { x, y, touch_id, pressed: p == 1 },
                ),
                _ => None,
            }
        } else {
            None
        }
    } else if tag_is(&fields[0], TAG_BUTTON) {
        if n >= 3 {
            proof {
                assert(fv[1] == fields@[1]@);
                assert(fv[2] == fields@[2]@);
            }
            match (parse_i32(&fields[1]), parse_i32(&fields[2])) {
                (Some(button_id), Some(p)) => Some(
                    ToucheData::ButtonFrame { button_id, pressed: p == 1 },
                ),
                _ => None,
            }
        } else {
            None
        }
    } else {
        None
    }
}

/// Decodes one frame. Fails exactly on frames that are not valid UTF-8;
/// any well-formed frame, even one with no well-formed row, decodes to
/// its event sequence in row order.
pub fn parse_touche_data(input: &Vec<u8>) -> (r: Result<Vec<ToucheData>, DecodeError>)
    ensures
        match r {
            Ok(events) => valid_utf8(input@) && events@ == decoded_events(input@),
            Err(e) => !valid_utf8(input@) && e == DecodeError::InvalidUtf8,
        },
{
    if !is_valid_utf8(input) {
        return Err(DecodeError::InvalidUtf8);
    }
    let rows = split_bytes(input, NL);
    let ghost rs = frame_rows(input@);
    proof {
        assert(rs.len() == rows@.len());
    }
    let mut events: Vec<ToucheData> = Vec::new();
    let mut i: usize = 0;
    proof {
        assert(rs.skip(0) =~= rs);
        assert(events@ + events_of_rows(rs) =~= events_of_rows(rs));
    }
    while i < rows.len()
        invariant
            i <= rows@.len() == rs.len(),
            rs == frame_rows(input@),
            views(rows@) == split_on(input@, NL),
            decoded_events(input@) == events@ + events_of_rows(rs.skip(i as int)),
        decreases rows@.len() - i,
    {
        let fields = split_bytes(&rows[i], TAB);
        proof {
            assert(rs[i as int] == split_on(rows@[i as int]@, TAB));
            assert(views(fields@) == rs[i as int]);
            assert(rs.skip(i as int)[0] == rs[i as int]);
            assert(rs.skip(i as int).skip(1) =~= rs.skip(i + 1));
        }
        match parse_row_exec(&fields) {
            Some(e) => {
                events.push(e);
                proof {
                    assert(events@ + events_of_rows(rs.skip(i + 1)) =~= events@.drop_last() + (seq![
                        e,
                    ] + events_of_rows(rs.skip(i + 1))));
                }
            },
            None => {},
        }
        i += 1;
    }
    proof {
        assert(rs.skip(rs.len() as int) =~= Seq::<Seq<Seq<u8>>>::empty());
        assert(events@ + events_of_rows(rs.skip(rs.len() as int)) =~= events@);
    }
    Ok(events)
}

} // verus!
