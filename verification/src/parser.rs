//! The raw frame tokenizer: frame bytes to rows of field strings.
//!
//! This is the decoder's splitting step alone, exposed for callers that
//! want the raw fields — say, to inspect a frame while debugging — rather
//! than typed events. The input must be valid UTF-8; the fields come back
//! as strings, split on line breaks and tabs.

use crate::decode::{NL, TAB};
use crate::split::{first_sep, lemma_first_sep_bounds, split_bytes, split_on, views};
use vstd::prelude::*;
use vstd::utf8::{decode_utf8, is_char_boundary_iff_not_is_continuation_byte,
    length_of_first_scalar, pop_first_scalar, valid_first_scalar, valid_utf8, valid_utf8_split};

verus! {

/// Splitting valid UTF-8 at an ASCII separator leaves every piece valid.
proof fn lemma_split_pieces_valid(s: Seq<u8>, sep: u8)
    requires
        valid_utf8(s),
        sep < 0x80,
    ensures
        forall|i: int|
            0 <= i < split_on(s, sep).len() ==> valid_utf8(#[trigger] split_on(s, sep)[i]),
    decreases s.len(),
{
    lemma_first_sep_bounds(s, sep);
    let i = first_sep(s, sep);
    let pieces = split_on(s, sep);
    if 0 <= i < s.len() {
        is_char_boundary_iff_not_is_continuation_byte(s, i);
        valid_utf8_split(s, i);
        assert(s.take(i) =~= s.subrange(0, i));
        let rest0 = s.subrange(i, s.len() as int);
        assert(rest0.len() > 0);
        assert(rest0[0] == s[i]);
        assert(valid_first_scalar(rest0));
        assert(length_of_first_scalar(rest0) == 1);
        assert(pop_first_scalar(rest0) =~= s.skip(i + 1));
        assert(valid_utf8(s.skip(i + 1)));
        lemma_split_pieces_valid(s.skip(i + 1), sep);
        assert forall|k: int| 0 <= k < pieces.len() implies valid_utf8(#[trigger] pieces[k]) by {
            if k == 0 {
                assert(pieces[0] == s.take(i));
            } else {
                assert(pieces[k] == split_on(s.skip(i + 1), sep)[k - 1]);
            }
        }
    } else {
        assert(pieces[0] == s);
    }
}

/// Relies on `String::from_utf8` (std): on valid UTF-8 input it returns
/// the string whose characters are the UTF-8 decoding of the bytes. The
/// fallback for the impossible error case keeps the call panic-free.
#[verifier::external_body]
fn string_of_utf8(bytes: &Vec<u8>) -> (r: String)
    requires
        valid_utf8(bytes@),
    ensures
        r@ == decode_utf8(bytes@),
{
    String::from_utf8(bytes.clone()).unwrap_or_default()
}

/// Tokenizes a frame: rows split on line breaks, fields split on tabs,
/// each field decoded to its string.
pub fn parse(res: &Vec<u8>) -> (r: Vec<Vec<String>>)
    requires
        valid_utf8(res@),
    ensures
        r@.len() == split_on(res@, NL).len(),
        forall|i: int|
            0 <= i < r@.len() ==> (#[trigger] r@[i])@.len() == split_on(
                split_on(res@, NL)[i],
                TAB,
            ).len(),
        forall|i: int, j: int|
            0 <= i < r@.len() && 0 <= j < r@[i]@.len() ==> (#[trigger] r@[i]@[j])@ == decode_utf8(
                split_on(split_on(res@, NL)[i], TAB)[j],
            ),
{
    let ghost rows_spec = split_on(res@, NL);
    let rows = split_bytes(res, NL);
    proof {
        lemma_split_pieces_valid(res@, NL);
    }
    let mut r: Vec<Vec<String>> = Vec::new();
    let mut i: usize = 0;
    while i < rows.len()
        invariant
            i <= rows@.len(),
            r@.len() == i,
            views(rows@) == rows_spec,
            rows_spec == split_on(res@, NL),
            valid_utf8(res@),
            NL < 0x80,
            forall|k: int| 0 <= k < rows_spec.len() ==> valid_utf8(#[trigger] rows_spec[k]),
            forall|k: int|
                0 <= k < i ==> (#[trigger] r@[k])@.len() == split_on(rows_spec[k], TAB).len(),
            forall|k: int, j: int|
                0 <= k < i && 0 <= j < r@[k]@.len() ==> (#[trigger] r@[k]@[j])@ == decode_utf8(
                    split_on(rows_spec[k], TAB)[j],
                ),
        decreases rows@.len() - i,
    {
        let ghost fields_spec = split_on(rows_spec[i as int], TAB);
        let fields = split_bytes(&rows[i], TAB);
        proof {
            assert(rows@[i as int]@ == rows_spec[i as int]);
            lemma_split_pieces_valid(rows_spec[i as int], TAB);
        }
        let mut row_out: Vec<String> = Vec::new();
        let mut j: usize = 0;
        while j < fields.len()
            invariant
                j <= fields@.len(),
                row_out@.len() == j,
                views(fields@) == fields_spec,
                forall|k: int| 0 <= k < fields_spec.len() ==> valid_utf8(#[trigger] fields_spec[k]),
                forall|k: int|
                    0 <= k < j ==> (#[trigger] row_out@[k])@ == decode_utf8(fields_spec[k]),
            decreases fields@.len() - j,
        {
            proof {
                assert(fields@[j as int]@ == fields_spec[j as int]);
            }
            let s = string_of_utf8(&fields[j]);
            row_out.push(s);
            j += 1;
        }
        r.push(row_out);
        i += 1;
    }
    r
}

} // verus!
