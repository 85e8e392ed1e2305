//! The wire-format encoder, and the proof that decoding undoes it.
//!
//! The device writes frames; the host only reads them. The encoder exists
//! to pin the wire format down: writing any sequence of well-formed events
//! and decoding the bytes again reproduces the sequence exactly, so the
//! decoder loses nothing a well-behaved device can say.

use crate::data::{wf_event, ToucheData};
use crate::decode::{decoded_events, events_of_rows, frame_rows, lemma_events_of_rows_all_parse,
    parse_row, NL, TAB, TAG_BUTTON, TAG_SCREEN_SIZE, TAG_STYLUS, TAG_TOUCH};
use crate::num::{dec_digits, fixed_digits, fmt_i32, fmt_i32_spec, fmt_q12, fmt_q12_spec, is_digit,
    lemma_dec_digits, lemma_fixed_digits, lemma_parse_coord_fmt, lemma_parse_i32_fmt,
    lemma_parse_q12_fmt, lemma_pow10_bounds, parse_i32_spec, DOT, Q12_DENOM};
use crate::split::{join_with, lemma_split_join, split_on, views};
use vstd::prelude::*;
use vstd::utf8::{is_leading_byte_width_1, partial_valid_utf8, partial_valid_utf8_extend_ascii_block,
    valid_utf8};

verus! {

/// The wire form of a contact state: `1` for pressed, `0` for lifted.
pub open spec fn bool_field(b: bool) -> Seq<u8> {
    if b {
        seq![49u8]
    } else {
        seq![48u8]
    }
}

/// The fields of the row that carries one event.
pub open spec fn row_fields(e: ToucheData) -> Seq<Seq<u8>> {
    match e {
        ToucheData::ScreenSize { width, height } => seq![
            seq![TAG_SCREEN_SIZE],
            fmt_i32_spec(width as int),
            fmt_i32_spec(height as int),
        ],
        ToucheData::StylusFrame { x, y, pressed, pressure } => {
            let base = seq![
                seq![TAG_STYLUS],
                fmt_i32_spec(x as int),
                fmt_i32_spec(y as int),
                bool_field(pressed),
            ];
            match pressure {
                Some(q) => base.push(fmt_q12_spec(q as int)),
                None => base,
            }
        },
        ToucheData::TouchFrame { x, y, touch_id, pressed } => seq![
            seq![TAG_TOUCH],
            fmt_i32_spec(x as int),
            fmt_i32_spec(y as int),
            bool_field(pressed),
            fmt_i32_spec(touch_id as int),
        ],
        ToucheData::ButtonFrame { button_id, pressed } => seq![
            seq![TAG_BUTTON],
            fmt_i32_spec(button_id as int),
            bool_field(pressed),
        ],
    }
}

/// One event as a wire row: its fields joined with tabs.
pub open spec fn encode_row(e: ToucheData) -> Seq<u8> {
    join_with(row_fields(e), TAB)
}

/// A batch of events as one frame: its rows joined with line breaks.
pub open spec fn encode_events(events: Seq<ToucheData>) -> Seq<u8> {
    join_with(events.map_values(|e: ToucheData| encode_row(e)), NL)
}

proof fn lemma_join_push(rs: Seq<Seq<u8>>, x: Seq<u8>, sep: u8)
    ensures
        join_with(rs.push(x), sep) == if rs.len() == 0 {
            x
        } else {
            join_with(rs, sep) + seq![sep] + x
        },
    decreases rs.len(),
{
    if rs.len() == 0 {
        assert(rs.push(x) =~= seq![x]);
        assert(join_with(seq![x], sep) == seq![x][0]);
    } else if rs.len() == 1 {
        assert(rs.push(x)[0] == rs[0]);
        assert(rs.push(x).skip(1) =~= seq![x]);
        assert(join_with(seq![x], sep) == seq![x][0]);
        assert(join_with(rs.push(x), sep) == rs.push(x)[0] + seq![sep] + join_with(
            rs.push(x).skip(1),
            sep,
        ));
        assert(join_with(rs, sep) == rs[0]);
    } else {
        assert(rs.push(x)[0] == rs[0]);
        assert(rs.push(x).skip(1) =~= rs.skip(1).push(x));
        lemma_join_push(rs.skip(1), x, sep);
        assert(rs[0] + seq![sep] + (join_with(rs.skip(1), sep) + seq![sep] + x) =~= (rs[0] + seq![
            sep,
        ] + join_with(rs.skip(1), sep)) + seq![sep] + x);
    }
}

/// Joins byte vectors with a separator, exactly as [`join_with`] says.
fn join_vecs(rows: &Vec<Vec<u8>>, sep: u8) -> (r: Vec<u8>)
    ensures
        r@ == join_with(views(rows@), sep),
{
    let ghost gs = views(rows@);
    let mut r: Vec<u8> = Vec::new();
    let mut i: usize = 0;
    proof {
        assert(gs.take(0) =~= Seq::<Seq<u8>>::empty());
    }
    while i < rows.len()
        invariant
            i <= rows@.len() == gs.len(),
            gs == views(rows@),
            r@ == join_with(gs.take(i as int), sep),
        decreases rows@.len() - i,
    {
        if i > 0 {
            r.push(sep);
        }
        let row = &rows[i];
        r.extend_from_slice(row.as_slice());
        proof {
            assert(gs[i as int] == rows@[i as int]@);
            lemma_join_push(gs.take(i as int), gs[i as int], sep);
            assert(gs.take(i + 1) =~= gs.take(i as int).push(gs[i as int]));
            if i == 0 {
                assert(r@ =~= join_with(gs.take(i + 1), sep));
            } else {
                assert(r@ =~= join_with(gs.take(i as int), sep) + seq![sep] + gs[i as int]);
            }
        }
        i += 1;
    }
    proof {
        assert(gs.take(gs.len() as int) =~= gs);
    }
    r
}

/// A one-byte vector.
fn byte_vec(b: u8) -> (r: Vec<u8>)
    ensures
        r@ == seq![b],
{
    let mut r: Vec<u8> = Vec::new();
    r.push(b);
    proof {
        assert(r@ =~= seq![b]);
    }
    r
}

/// Writes the row of one well-formed event, exactly as [`encode_row`] says.
fn encode_row_exec(e: &ToucheData) -> (r: Vec<u8>)
    requires
        wf_event(*e),
    ensures
        r@ == encode_row(*e),
{
    let mut fields: Vec<Vec<u8>> = Vec::new();
    match e {
        ToucheData::ScreenSize { width, height } => {
            fields.push(byte_vec(TAG_SCREEN_SIZE));
            fields.push(fmt_i32(*width));
            fields.push(fmt_i32(*height));
        },
        ToucheData::StylusFrame { x, y, pressed, pressure } => {
            fields.push(byte_vec(TAG_STYLUS));
            fields.push(fmt_i32(*x));
            fields.push(fmt_i32(*y));
            fields.push(byte_vec(if *pressed {
                49
            } else {
                48
            }));
            match pressure {
                Some(q) => {
                    fields.push(fmt_q12(*q));
                },
                None => {},
            }
        },
        ToucheData::TouchFrame { x, y, touch_id, pressed } => {
            fields.push(byte_vec(TAG_TOUCH));
            fields.push(fmt_i32(*x));
            fields.push(fmt_i32(*y));
            fields.push(byte_vec(if *pressed {
                49
            } else {
                48
            }));
            fields.push(fmt_i32(*touch_id));
        },
        ToucheData::ButtonFrame { button_id, pressed } => {
            fields.push(byte_vec(TAG_BUTTON));
            fields.push(fmt_i32(*button_id));
            fields.push(byte_vec(if *pressed {
                49
            } else {
                48
            }));
        },
    }
    proof {
        assert(views(fields@) =~= row_fields(*e));
    }
    join_vecs(&fields, TAB)
}

/// Writes a batch of well-formed events as one frame, exactly as
/// [`encode_events`] says.
pub fn encode_touche_data(events: &Vec<ToucheData>) -> (r: Vec<u8>)
    requires
        forall|i: int| 0 <= i < events@.len() ==> wf_event(#[trigger] events@[i]),
    ensures
        r@ == encode_events(events@),
{
    let ghost rs = events@.map_values(|e: ToucheData| encode_row(e));
    let mut rows: Vec<Vec<u8>> = Vec::new();
    let mut i: usize = 0;
    proof {
        assert(views(rows@) =~= rs.take(0));
    }
    while i < events.len()
        invariant
            i <= events@.len() == rs.len(),
            rs == events@.map_values(|e: ToucheData| encode_row(e)),
            forall|j: int| 0 <= j < events@.len() ==> wf_event(#[trigger] events@[j]),
            views(rows@) == rs.take(i as int),
        decreases events@.len() - i,
    {
        let row = encode_row_exec(&events[i]);
        rows.push(row);
        proof {
            assert(views(rows@) =~= rs.take(i as int).push(rs[i as int]));
            assert(rs.take(i + 1) =~= rs.take(i as int).push(rs[i as int]));
        }
        i += 1;
    }
    proof {
        assert(rs.take(rs.len() as int) =~= rs);
    }
    join_vecs(&rows, NL)
}

/// Bytes a field may hold: printable ASCII, in particular no tab, no line
/// break, and nothing beyond the ASCII range.
pub open spec fn plain_byte(b: u8) -> bool {
    32 < b < 127
}

pub open spec fn plain_field(s: Seq<u8>) -> bool {
    forall|j: int| 0 <= j < s.len() ==> plain_byte(#[trigger] s[j])
}

proof fn lemma_fmt_i32_plain(v: int)
    ensures
        plain_field(fmt_i32_spec(v)),
{
    let s = fmt_i32_spec(v);
    if v < 0 {
        lemma_dec_digits(-v);
        assert forall|j: int| 0 <= j < s.len() implies plain_byte(#[trigger] s[j]) by {
            if j > 0 {
                assert(s[j] == dec_digits(-v)[j - 1]);
                assert(is_digit(dec_digits(-v)[j - 1]));
            }
        }
    } else {
        lemma_dec_digits(v);
        assert forall|j: int| 0 <= j < s.len() implies plain_byte(#[trigger] s[j]) by {
            assert(is_digit(s[j]));
        }
    }
}

proof fn lemma_fmt_q12_plain(q: int)
    requires
        0 <= q <= 4096,
    ensures
        plain_field(fmt_q12_spec(q)),
{
    lemma_pow10_bounds();
    let ip = dec_digits(q / 4096);
    let fp = fixed_digits((q % 4096) * (Q12_DENOM as int), 12);
    lemma_dec_digits(q / 4096);
    lemma_fixed_digits((q % 4096) * (Q12_DENOM as int), 12);
    let s = fmt_q12_spec(q);
    assert forall|j: int| 0 <= j < s.len() implies plain_byte(#[trigger] s[j]) by {
        if j < ip.len() {
            assert(s[j] == ip[j]);
            assert(is_digit(ip[j]));
        } else if j == ip.len() {
            assert(s[j] == DOT);
        } else {
            assert(s[j] == fp[j - ip.len() - 1]);
            assert(is_digit(fp[j - ip.len() - 1]));
        }
    }
}

/// Bytes of a join lie in the pieces or are the separator.
proof fn lemma_join_byte_pred(rows: Seq<Seq<u8>>, sep: u8, p: spec_fn(u8) -> bool)
    requires
        forall|i: int, j: int|
            0 <= i < rows.len() && 0 <= j < rows[i].len() ==> p(#[trigger] rows[i][j]),
    ensures
        forall|j: int|
            0 <= j < join_with(rows, sep).len() ==> (p(#[trigger] join_with(rows, sep)[j])
                || join_with(rows, sep)[j] == sep),
    decreases rows.len(),
{
    let s = join_with(rows, sep);
    if rows.len() == 0 {
    } else if rows.len() == 1 {
        assert forall|j: int| 0 <= j < s.len() implies (p(#[trigger] s[j]) || s[j] == sep) by {
            assert(s[j] == rows[0][j]);
        }
    } else {
        assert forall|i: int, j: int|
            0 <= i < rows.skip(1).len() && 0 <= j < rows.skip(1)[i].len() implies p(
            #[trigger] rows.skip(1)[i][j],
        ) by {
            assert(rows.skip(1)[i] == rows[i + 1]);
        }
        lemma_join_byte_pred(rows.skip(1), sep, p);
        let head = rows[0];
        let rest = join_with(rows.skip(1), sep);
        assert forall|j: int| 0 <= j < s.len() implies (p(#[trigger] s[j]) || s[j] == sep) by {
            if j < head.len() {
                assert(s[j] == rows[0][j]);
            } else if j == head.len() {
                assert(s[j] == sep);
            } else {
                assert(s[j] == rest[j - head.len() - 1]);
            }
        }
    }
}

proof fn lemma_parse_bool_field(b: bool)
    ensures
        parse_i32_spec(bool_field(b)) == Some(
            if b {
                1i32
            } else {
                0i32
            },
        ),
{
    let s = bool_field(b);
    assert(crate::num::field_body(s) == s);
    assert(crate::num::digits_val(Seq::<u8>::empty()) == 0);
    assert(s.drop_last() =~= Seq::<u8>::empty());
    assert(crate::num::digits_val(s) == if b {
        1int
    } else {
        0int
    });
}

/// One well-formed event survives its own row: the row splits back into
/// the fields it was built from, and those fields parse to the event.
#[verifier::rlimit(40)]
proof fn lemma_row_roundtrip(e: ToucheData)
    requires
        wf_event(e),
    ensures
        split_on(encode_row(e), TAB) == row_fields(e),
        parse_row(row_fields(e)) == Some(e),
        forall|j: int|
            0 <= j < encode_row(e).len() ==> (plain_byte(#[trigger] encode_row(e)[j])
                || encode_row(e)[j] == TAB),
{
    let fields = row_fields(e);
    match e {
        ToucheData::ScreenSize { width, height } => {
            lemma_fmt_i32_plain(width as int);
            lemma_fmt_i32_plain(height as int);
            lemma_parse_i32_fmt(width);
            lemma_parse_i32_fmt(height);
        },
        ToucheData::StylusFrame { x, y, pressed, pressure } => {
            lemma_fmt_i32_plain(x as int);
            lemma_fmt_i32_plain(y as int);
            lemma_parse_coord_fmt(x);
            lemma_parse_coord_fmt(y);
            lemma_parse_bool_field(pressed);
            match pressure {
                Some(q) => {
                    lemma_fmt_q12_plain(q as int);
                    lemma_parse_q12_fmt(q);
                    assert(fields[4] == fmt_q12_spec(q as int));
                },
                None => {},
            }
        },
        ToucheData::TouchFrame { x, y, touch_id, pressed } => {
            lemma_fmt_i32_plain(x as int);
            lemma_fmt_i32_plain(y as int);
            lemma_fmt_i32_plain(touch_id as int);
            lemma_parse_coord_fmt(x);
            lemma_parse_coord_fmt(y);
            lemma_parse_bool_field(pressed);
            lemma_parse_i32_fmt(touch_id);
        },
        ToucheData::ButtonFrame { button_id, pressed } => {
            lemma_fmt_i32_plain(button_id as int);
            lemma_parse_i32_fmt(button_id);
            lemma_parse_bool_field(pressed);
        },
    }
    assert forall|i: int, j: int|
        0 <= i < fields.len() && 0 <= j < fields[i].len() implies plain_byte(
        #[trigger] fields[i][j],
    ) by {
        assert(plain_field(fields[i]) || fields[i] == bool_field(true) || fields[i] == bool_field(
            false,
        ) || fields[i][0] == TAG_SCREEN_SIZE || fields[i][0] == TAG_STYLUS || fields[i][0]
            == TAG_TOUCH || fields[i][0] == TAG_BUTTON);
    }
    assert forall|i: int, j: int|
        0 <= i < fields.len() && 0 <= j < fields[i].len() implies #[trigger] fields[i][j]
        != TAB by {
        assert(plain_byte(fields[i][j]));
    }
    lemma_split_join(fields, TAB);
    lemma_join_byte_pred(fields, TAB, |b: u8| plain_byte(b));
}

/// A frame written from any sequence of
/// well-formed events is valid UTF-8 and decodes back to exactly that
/// sequence, in order.
pub proof fn lemma_encode_decode(events: Seq<ToucheData>)
    requires
        forall|i: int| 0 <= i < events.len() ==> wf_event(#[trigger] events[i]),
    ensures
        valid_utf8(encode_events(events)),
        decoded_events(encode_events(events)) == events,
{
    let rows = events.map_values(|e: ToucheData| encode_row(e));
    let bytes = encode_events(events);
    if events.len() == 0 {
        assert(bytes =~= Seq::<u8>::empty());
        assert(valid_utf8(bytes));
        assert(split_on(bytes, NL) =~= seq![Seq::<u8>::empty()]);
        let row0 = split_on(Seq::<u8>::empty(), TAB);
        assert(row0 =~= seq![Seq::<u8>::empty()]);
        assert(frame_rows(bytes) =~= seq![row0]);
        assert(parse_row(row0) is None);
        assert(frame_rows(bytes).skip(1) =~= Seq::<Seq<Seq<u8>>>::empty());
        assert(events_of_rows(Seq::<Seq<Seq<u8>>>::empty()) =~= Seq::<ToucheData>::empty());
        assert(decoded_events(bytes) =~= events);
    } else {
        assert forall|i: int, j: int|
            0 <= i < rows.len() && 0 <= j < rows[i].len() implies (plain_byte(
            #[trigger] rows[i][j],
        ) || rows[i][j] == TAB) by {
            assert(rows[i] == encode_row(events[i]));
            lemma_row_roundtrip(events[i]);
        }
        assert forall|i: int, j: int|
            0 <= i < rows.len() && 0 <= j < rows[i].len() implies #[trigger] rows[i][j] != NL by {
            assert(plain_byte(rows[i][j]) || rows[i][j] == TAB);
        }
        lemma_split_join(rows, NL);
        assert(split_on(bytes, NL) == rows);
        let rs = frame_rows(bytes);
        assert(rs.len() == events.len());
        assert forall|i: int| 0 <= i < rs.len() implies #[trigger] parse_row(rs[i]) == Some(
            events[i],
        ) by {
            assert(rs[i] == split_on(rows[i], TAB));
            assert(rows[i] == encode_row(events[i]));
            lemma_row_roundtrip(events[i]);
        }
        lemma_events_of_rows_all_parse(rs);
        assert(decoded_events(bytes) =~= events);
        // every byte is ASCII, so the frame is valid UTF-8
        lemma_join_byte_pred(rows, NL, |b: u8| plain_byte(b) || b == TAB);
        assert forall|j: int| 0 <= j < bytes.len() implies is_leading_byte_width_1(
            #[trigger] bytes[j],
        ) by {
            assert(plain_byte(bytes[j]) || bytes[j] == TAB || bytes[j] == NL);
        }
        assert(bytes.subrange(0, 0) =~= Seq::<u8>::empty());
        assert(partial_valid_utf8(bytes, 0));
        partial_valid_utf8_extend_ascii_block(bytes, 0, bytes.len() as int);
        assert(bytes.subrange(0, bytes.len() as int) =~= bytes);
    }
}

} // verus!
