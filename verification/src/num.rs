//! Decimal parsing and formatting for the wire format's numeric fields.
//!
//! Integer fields (screen size, contact ids, button ids, contact state) are
//! plain signed decimals and parse exactly or not at all. Coordinate fields
//! may carry a fraction, which is truncated toward zero; a value beyond the
//! `i32` range saturates. Pressure fields are decimals in `[0, 1]` and are
//! parsed to fixed-point units of `1/4096`; since `1/4096` has exactly
//! twelve decimal digits, fraction digits beyond the twelfth cannot change
//! a multiple of it and are ignored.

use crate::split::{first_sep, lemma_first_sep_at, lemma_first_sep_bounds};
use vstd::prelude::*;

verus! {

pub const MINUS: u8 = 45;

pub const PLUS: u8 = 43;

pub const DOT: u8 = 46;

/// One pressure unit, `1/4096`, scaled by `10^12`: `10^12 / 4096`.
pub const Q12_DENOM: u64 = 244140625;

pub open spec fn is_digit(b: u8) -> bool {
    48 <= b <= 57
}

pub open spec fn all_digits(s: Seq<u8>) -> bool {
    forall|i: int| 0 <= i < s.len() ==> is_digit(#[trigger] s[i])
}

/// Value of a digit string, most significant digit first.
pub open spec fn digits_val(s: Seq<u8>) -> int
    decreases s.len(),
{
    if s.len() == 0 {
        0
    } else {
        digits_val(s.drop_last()) * 10 + (s.last() - 48)
    }
}

pub proof fn lemma_digits_val_nonneg(s: Seq<u8>)
    requires
        all_digits(s),
    ensures
        digits_val(s) >= 0,
    decreases s.len(),
{
    if s.len() > 0 {
        assert(all_digits(s.drop_last()));
        lemma_digits_val_nonneg(s.drop_last());
    }
}

/// The sign prefix of a numeric field: a leading `-` or `+` is consumed.
pub open spec fn field_neg(s: Seq<u8>) -> bool {
    s.len() > 0 && s[0] == MINUS
}

pub open spec fn field_body(s: Seq<u8>) -> Seq<u8> {
    if s.len() > 0 && (s[0] == MINUS || s[0] == PLUS) {
        s.skip(1)
    } else {
        s
    }
}

/// What `str::parse::<i32>` accepts: an optional sign, then one or more
/// digits, and a value within the `i32` range.
pub open spec fn parse_i32_spec(s: Seq<u8>) -> Option<i32> {
    let ds = field_body(s);
    if ds.len() > 0 && all_digits(ds) {
        let v = if field_neg(s) {
            -digits_val(ds)
        } else {
            digits_val(ds)
        };
        if i32::MIN <= v <= i32::MAX {
            Some(v as i32)
        } else {
            None
        }
    } else {
        None
    }
}

pub open spec fn clamp_i32(v: int) -> i32 {
    if v < i32::MIN {
        i32::MIN
    } else if v > i32::MAX {
        i32::MAX
    } else {
        v as i32
    }
}

/// The integer digits of a coordinate or pressure field: everything after
/// the sign and before the first dot.
pub open spec fn int_digits(s: Seq<u8>) -> Seq<u8> {
    let body = field_body(s);
    body.take(first_sep(body, DOT))
}

/// The fraction digits: everything after the first dot, empty when there
/// is no dot.
pub open spec fn frac_digits(s: Seq<u8>) -> Seq<u8> {
    let body = field_body(s);
    let i = first_sep(body, DOT);
    if i < body.len() {
        body.skip(i + 1)
    } else {
        seq![]
    }
}

/// A coordinate or pressure field is well formed when it has at least one
/// digit on either side of the single optional dot, and nothing but
/// digits around it.
pub open spec fn decimal_field_ok(s: Seq<u8>) -> bool {
    (int_digits(s).len() > 0 || frac_digits(s).len() > 0) && all_digits(int_digits(s))
        && all_digits(frac_digits(s))
}

/// A coordinate field truncated toward zero, saturating at the `i32` range.
pub open spec fn parse_coord_spec(s: Seq<u8>) -> Option<i32> {
    if decimal_field_ok(s) {
        let v = if field_neg(s) {
            -digits_val(int_digits(s))
        } else {
            digits_val(int_digits(s))
        };
        Some(clamp_i32(v))
    } else {
        None
    }
}

/// The first twelve fraction digits, padded on the right with zeros.
pub open spec fn frac12(s: Seq<u8>) -> Seq<u8> {
    let fs = frac_digits(s);
    if fs.len() >= 12 {
        fs.take(12)
    } else {
        fs + Seq::new((12 - fs.len()) as nat, |i: int| 48u8)
    }
}

/// A pressure field in `1/4096` units, truncated toward zero and saturating
/// at the `i32` range. The fraction contributes
/// `floor(frac * 4096) = frac12 / (10^12 / 4096)`; digits beyond the
/// twelfth cannot change a multiple of `1/4096` and are ignored.
pub open spec fn parse_q12_spec(s: Seq<u8>) -> Option<i32> {
    if decimal_field_ok(s) {
        let mag = digits_val(int_digits(s)) * 4096 + digits_val(frac12(s)) / (Q12_DENOM as int);
        let v = if field_neg(s) {
            -mag
        } else {
            mag
        };
        Some(clamp_i32(v))
    } else {
        None
    }
}

pub proof fn lemma_digits_val_step(s: Seq<u8>, j: int)
    requires
        0 <= j < s.len(),
    ensures
        digits_val(s.take(j + 1)) == digits_val(s.take(j)) * 10 + (s[j] - 48),
{
    assert(s.take(j + 1).drop_last() =~= s.take(j));
    assert(s.take(j + 1).last() == s[j]);
}

/// Scans the digits of `s` from `start` on, accumulating their value but
/// sticking at `0x8000_0001` once the value passes `0x8000_0000`; reports
/// a non-digit with `None`. This is the shared engine of the three field
/// parsers: every outcome they distinguish lies at or below `0x8000_0000`.
fn scan_digits(s: &Vec<u8>, start: usize, end: usize) -> (r: Option<u64>)
    requires
        start <= end <= s@.len(),
    ensures
        match r {
            Some(acc) => {
                let ds = s@.subrange(start as int, end as int);
                &&& all_digits(ds)
                &&& (digits_val(ds) <= 0x8000_0000 ==> acc == digits_val(ds))
                &&& (digits_val(ds) > 0x8000_0000 ==> acc == 0x8000_0001u64)
                &&& acc <= 0x8000_0001u64
            },
            None => !all_digits(s@.subrange(start as int, end as int)),
        },
{
    let ghost ds = s@.subrange(start as int, end as int);
    let mut acc: u64 = 0;
    let mut i = start;
    proof {
        assert(ds.take(0) =~= Seq::<u8>::empty());
    }
    while i < end
        invariant
            start <= i <= end <= s@.len(),
            ds == s@.subrange(start as int, end as int),
            all_digits(ds.take(i - start)),
            digits_val(ds.take(i - start)) <= 0x8000_0000 ==> acc == digits_val(ds.take(i - start)),
            digits_val(ds.take(i - start)) > 0x8000_0000 ==> acc == 0x8000_0001u64,
            acc <= 0x8000_0001u64,
        decreases end - i,
    {
        let b = s[i];
        if b < 48 || b > 57 {
            proof {
                assert(ds[i - start] == s@[i as int]);
            }
            return None;
        }
        proof {
            let j = i - start;
            lemma_digits_val_nonneg(ds.take(j));
            lemma_digits_val_step(ds, j);
            assert forall|k: int| 0 <= k < j + 1 implies is_digit(#[trigger] ds.take(j + 1)[k]) by {
                if k < j {
                    assert(ds.take(j + 1)[k] == ds.take(j)[k]);
                } else {
                    assert(ds.take(j + 1)[k] == s@[i as int]);
                }
            }
        }
        acc = acc * 10 + ((b - 48) as u64);
        if acc > 0x8000_0001 {
            acc = 0x8000_0001;
        }
        i += 1;
    }
    proof {
        assert(ds.take(end - start) =~= ds);
    }
    Some(acc)
}

pub open spec fn pow10(k: int) -> int
    decreases k,
{
    if k <= 0 {
        1
    } else {
        10 * pow10(k - 1)
    }
}

pub proof fn lemma_digits_val_bound(s: Seq<u8>)
    requires
        all_digits(s),
    ensures
        0 <= digits_val(s) < pow10(s.len() as int),
    decreases s.len(),
{
    if s.len() > 0 {
        assert(all_digits(s.drop_last()));
        lemma_digits_val_bound(s.drop_last());
    }
}

pub proof fn lemma_digits_val_push_zero(s: Seq<u8>)
    ensures
        digits_val(s.push(48u8)) == digits_val(s) * 10,
{
    assert(s.push(48u8).drop_last() =~= s);
}

/// Parses an integer field exactly as `str::parse::<i32>` does: an optional
/// sign, one or more digits, no saturation.
pub fn parse_i32(s: &Vec<u8>) -> (r: Option<i32>)
    ensures
        r == parse_i32_spec(s@),
{
    let n = s.len();
    let start: usize = if n > 0 && (s[0] == MINUS || s[0] == PLUS) {
        1
    } else {
        0
    };
    let neg = n > 0 && s[0] == MINUS;
    let ghost ds = field_body(s@);
    proof {
        assert(ds =~= s@.subrange(start as int, n as int));
        assert(neg == field_neg(s@));
    }
    if start == n {
        return None;
    }
    let acc = match scan_digits(s, start, n) {
        Some(acc) => acc,
        None => {
            return None;
        },
    };
    proof {
        lemma_digits_val_nonneg(ds);
    }
    if neg {
        if acc <= 0x8000_0000 {
            let v: i64 = -(acc as i64);
            Some(v as i32)
        } else {
            None
        }
    } else {
        if acc <= 0x7fff_ffff {
            Some(acc as i32)
        } else {
            None
        }
    }
}

/// Position of the first dot at or after `start`, or the length when absent.
fn find_dot(s: &Vec<u8>, start: usize) -> (dot: usize)
    requires
        start <= s@.len(),
    ensures
        start <= dot <= s@.len(),
        dot - start == first_sep(s@.subrange(start as int, s@.len() as int), DOT),
{
    let n = s.len();
    let ghost body = s@.subrange(start as int, n as int);
    let mut dot: usize = n;
    let mut i = start;
    while i < n
        invariant
            start <= i <= n == s@.len(),
            start <= dot <= n,
            body == s@.subrange(start as int, n as int),
            dot == n ==> forall|j: int| start <= j < i ==> s@[j] != DOT,
            dot < n ==> dot < i && s@[dot as int] == DOT && forall|j: int|
                start <= j < dot ==> s@[j] != DOT,
        decreases n - i,
    {
        if s[i] == DOT && dot == n {
            dot = i;
        }
        i += 1;
    }
    proof {
        assert forall|j: int| 0 <= j < dot - start implies body[j] != DOT by {
            assert(body[j] == s@[start + j]);
        }
        if dot < n {
            assert(body[dot - start] == s@[dot as int]);
        }
        lemma_first_sep_at(body, DOT, dot - start);
    }
    dot
}

/// Parses a coordinate field: sign, integer digits, optional dot and
/// fraction digits; the value truncates toward zero and saturates at the
/// `i32` range, as a float parse followed by an integer cast would.
pub fn parse_coord(s: &Vec<u8>) -> (r: Option<i32>)
    ensures
        r == parse_coord_spec(s@),
{
    let n = s.len();
    let start: usize = if n > 0 && (s[0] == MINUS || s[0] == PLUS) {
        1
    } else {
        0
    };
    let neg = n > 0 && s[0] == MINUS;
    proof {
        assert(field_body(s@) =~= s@.subrange(start as int, n as int));
        assert(neg == field_neg(s@));
    }
    let dot = find_dot(s, start);
    proof {
        lemma_first_sep_bounds(field_body(s@), DOT);
        assert(int_digits(s@) =~= s@.subrange(start as int, dot as int));
        if dot < n {
            assert(frac_digits(s@) =~= s@.subrange(dot + 1, n as int));
        }
    }
    if dot == start && dot + 1 >= n {
        return None;
    }
    let acc = match scan_digits(s, start, dot) {
        Some(a) => a,
        None => {
            return None;
        },
    };
    if dot < n {
        match scan_digits(s, dot + 1, n) {
            Some(_) => {},
            None => {
                return None;
            },
        }
    }
    proof {
        lemma_digits_val_nonneg(int_digits(s@));
    }
    if neg {
        if acc >= 0x8000_0000 {
            Some(i32::MIN)
        } else {
            Some(-(acc as i64) as i32)
        }
    } else {
        if acc >= 0x8000_0000 {
            Some(i32::MAX)
        } else {
            Some(acc as i32)
        }
    }
}

pub proof fn lemma_pow10_bounds()
    ensures
        pow10(12) == 1000000000000,
        forall|j: int, k: int| 0 <= j <= k ==> #[trigger] pow10(j) <= #[trigger] pow10(k),
{
    reveal_with_fuel(pow10, 13);
    assert forall|j: int, k: int| 0 <= j <= k implies #[trigger] pow10(j) <= #[trigger] pow10(k) by {
        lemma_pow10_mono(j, k);
    }
}

proof fn lemma_pow10_pos(j: int)
    ensures
        pow10(j) >= 1,
    decreases j,
{
    if j > 0 {
        lemma_pow10_pos(j - 1);
    }
}

proof fn lemma_pow10_mono(j: int, k: int)
    requires
        0 <= j <= k,
    ensures
        pow10(j) <= pow10(k),
    decreases k - j,
{
    if j < k {
        lemma_pow10_mono(j, k - 1);
        lemma_pow10_pos(k - 1);
    }
}

/// Parses a pressure field to `1/4096` units, truncating toward zero and
/// saturating at the `i32` range.
pub fn parse_q12(s: &Vec<u8>) -> (r: Option<i32>)
    ensures
        r == parse_q12_spec(s@),
{
    let n = s.len();
    let start: usize = if n > 0 && (s[0] == MINUS || s[0] == PLUS) {
        1
    } else {
        0
    };
    let neg = n > 0 && s[0] == MINUS;
    proof {
        assert(field_body(s@) =~= s@.subrange(start as int, n as int));
        assert(neg == field_neg(s@));
    }
    let dot = find_dot(s, start);
    proof {
        lemma_first_sep_bounds(field_body(s@), DOT);
        assert(int_digits(s@) =~= s@.subrange(start as int, dot as int));
        if dot < n {
            assert(frac_digits(s@) =~= s@.subrange(dot + 1, n as int));
        }
    }
    if dot == start && dot + 1 >= n {
        return None;
    }
    let acc = match scan_digits(s, start, dot) {
        Some(a) => a,
        None => {
            return None;
        },
    };
    let f_start: usize = if dot < n {
        dot + 1
    } else {
        n
    };
    if f_start < n {
        match scan_digits(s, f_start, n) {
            Some(_) => {},
            None => {
                return None;
            },
        }
    }
    let ghost fs = frac_digits(s@);
    proof {
        assert(fs =~= s@.subrange(f_start as int, n as int));
        lemma_pow10_bounds();
    }
    let flen = n - f_start;
    let m: usize = if flen > 12 {
        12
    } else {
        flen
    };
    let mut fv: u64 = 0;
    let mut j: usize = 0;
    proof {
        assert(fs.take(0) =~= Seq::<u8>::empty());
    }
    while j < m
        invariant
            j <= m <= 12,
            m <= flen == fs.len(),
            f_start + flen == n == s@.len(),
            f_start <= n,
            fs == s@.subrange(f_start as int, n as int),
            all_digits(fs),
            fv == digits_val(fs.take(j as int)),
            0 <= fv < pow10(j as int),
            pow10(12) == 1000000000000,
            forall|a: int, b: int| 0 <= a <= b ==> #[trigger] pow10(a) <= #[trigger] pow10(b),
        decreases m - j,
    {
        let b = s[f_start + j];
        proof {
            assert(fs[j as int] == s@[f_start + j]);
            lemma_digits_val_step(fs, j as int);
            assert(pow10(j as int) <= pow10(12));
        }
        fv = fv * 10 + ((b - 48) as u64);
        j += 1;
    }
    let ghost f12 = frac12(s@);
    let mut k = m;
    proof {
        if flen >= 12 {
            assert(f12 =~= fs.take(12));
        } else {
            assert(fs.take(m as int) =~= fs);
            assert(f12 =~= fs + Seq::new((12 - flen) as nat, |i: int| 48u8));
        }
    }
    while k < 12
        invariant
            m <= k <= 12,
            m == if flen > 12 { 12int } else { flen as int },
            flen == fs.len(),
            all_digits(fs),
            f12 == frac12(s@),
            flen >= 12 ==> k == 12 && fv == digits_val(f12),
            flen < 12 ==> fv == digits_val(fs + Seq::new((k - m) as nat, |i: int| 48u8)),
            flen < 12 ==> f12 == fs + Seq::new((12 - m) as nat, |i: int| 48u8),
            0 <= fv < pow10(k as int),
            pow10(12) == 1000000000000,
            forall|a: int, b: int| 0 <= a <= b ==> #[trigger] pow10(a) <= #[trigger] pow10(b),
        decreases 12 - k,
    {
        proof {
            let padded = fs + Seq::new((k - m) as nat, |i: int| 48u8);
            lemma_digits_val_push_zero(padded);
            assert(padded.push(48u8) =~= fs + Seq::new((k + 1 - m) as nat, |i: int| 48u8));
            assert(pow10(k as int) <= pow10(12));
        }
        fv = fv * 10;
        k += 1;
    }
    proof {
        if flen < 12 {
            assert(fv == digits_val(f12));
        } else {
            assert(fv == digits_val(f12));
        }
    }
    let qf: u64 = fv / Q12_DENOM;
    proof {
        assert(qf <= 4095) by {
            vstd::arithmetic::div_mod::lemma_fundamental_div_mod(fv as int, Q12_DENOM as int);
            assert(4096int * (Q12_DENOM as int) == 1000000000000int);
        }
        lemma_digits_val_nonneg(int_digits(s@));
    }
    let total: u64 = acc * 4096 + qf;
    if neg {
        if total >= 0x8000_0000 {
            Some(i32::MIN)
        } else {
            Some(-(total as i64) as i32)
        }
    } else {
        if total >= 0x8000_0000 {
            Some(i32::MAX)
        } else {
            Some(total as i32)
        }
    }
}

/// The decimal digits of a non-negative number, most significant first.
pub open spec fn dec_digits(n: int) -> Seq<u8>
    recommends
        n >= 0,
    decreases n,
{
    if n < 10 {
        seq![(48 + n) as u8]
    } else {
        dec_digits(n / 10) + seq![(48 + n % 10) as u8]
    }
}

/// The wire form of an integer field: a minus sign when negative, then
/// the decimal digits.
pub open spec fn fmt_i32_spec(v: int) -> Seq<u8> {
    if v < 0 {
        seq![MINUS] + dec_digits(-v)
    } else {
        dec_digits(v)
    }
}

pub proof fn lemma_dec_digits(n: int)
    requires
        n >= 0,
    ensures
        all_digits(dec_digits(n)),
        dec_digits(n).len() >= 1,
        digits_val(dec_digits(n)) == n,
    decreases n,
{
    if n < 10 {
        let s = dec_digits(n);
        assert(digits_val(Seq::<u8>::empty()) == 0);
        assert(s.drop_last() =~= Seq::<u8>::empty());
        assert(digits_val(s) == n);
    } else {
        lemma_dec_digits(n / 10);
        let d = dec_digits(n / 10);
        let s = dec_digits(n);
        assert(s.drop_last() =~= d);
        vstd::arithmetic::div_mod::lemma_fundamental_div_mod(n, 10);
        assert(digits_val(s) == (n / 10) * 10 + n % 10);
        assert forall|i: int| 0 <= i < s.len() implies is_digit(#[trigger] s[i]) by {
            if i < d.len() {
                assert(s[i] == d[i]);
            }
        }
    }
}

/// The digits of a number, padded on the left with zeros to width `k`.
pub open spec fn fixed_digits(n: int, k: int) -> Seq<u8>
    recommends
        0 <= n < pow10(k),
    decreases k,
{
    if k <= 0 {
        seq![]
    } else {
        fixed_digits(n / 10, k - 1) + seq![(48 + n % 10) as u8]
    }
}

pub proof fn lemma_fixed_digits(n: int, k: int)
    requires
        0 <= k,
        0 <= n < pow10(k),
    ensures
        all_digits(fixed_digits(n, k)),
        fixed_digits(n, k).len() == k,
        digits_val(fixed_digits(n, k)) == n,
    decreases k,
{
    if k > 0 {
        vstd::arithmetic::div_mod::lemma_fundamental_div_mod(n, 10);
        lemma_fixed_digits(n / 10, k - 1);
        let d = fixed_digits(n / 10, k - 1);
        let s = fixed_digits(n, k);
        assert(s.drop_last() =~= d);
        assert(digits_val(s) == (n / 10) * 10 + n % 10);
        assert forall|i: int| 0 <= i < s.len() implies is_digit(#[trigger] s[i]) by {
            if i < d.len() {
                assert(s[i] == d[i]);
            }
        }
    }
}

/// The wire form of a pressure value in `1/4096` units: the integer part,
/// a dot, and the exact twelve-digit decimal fraction.
pub open spec fn fmt_q12_spec(q: int) -> Seq<u8>
    recommends
        0 <= q <= 4096,
{
    dec_digits(q / 4096) + seq![DOT] + fixed_digits((q % 4096) * (Q12_DENOM as int), 12)
}

/// Writes an integer field exactly as [`fmt_i32_spec`] says.
pub fn fmt_i32(v: i32) -> (r: Vec<u8>)
    ensures
        r@ == fmt_i32_spec(v as int),
{
    let neg = v < 0;
    let mut cur: i64 = if neg {
        -(v as i64)
    } else {
        v as i64
    };
    let ghost m = cur as int;
    let mut out: Vec<u8> = Vec::new();
    proof {
        assert(dec_digits(m) + out@ =~= dec_digits(m));
    }
    while cur >= 10
        invariant
            0 <= cur,
            dec_digits(m) == dec_digits(cur as int) + out@,
        decreases cur,
    {
        let d: u8 = 48 + (cur % 10) as u8;
        let ghost out0 = out@;
        out.insert(0, d);
        proof {
            assert(out@ =~= seq![d] + out0);
        }
        let ghost prev = cur as int;
        cur = cur / 10;
        proof {
            assert(dec_digits(prev) =~= dec_digits(prev / 10) + seq![d]);
            assert(dec_digits(prev / 10) + (seq![d] + out0) =~= (dec_digits(prev / 10) + seq![d])
                + out0);
            assert(dec_digits(m) =~= dec_digits(cur as int) + out@);
        }
    }
    let d: u8 = 48 + cur as u8;
    out.insert(0, d);
    proof {
        assert(dec_digits(cur as int) =~= seq![d]);
        assert(out@ =~= dec_digits(m));
    }
    if neg {
        let mut r: Vec<u8> = Vec::new();
        r.push(MINUS);
        r.append(&mut out);
        proof {
            assert(r@ =~= fmt_i32_spec(v as int));
        }
        r
    } else {
        out
    }
}

/// Writes a pressure field exactly as [`fmt_q12_spec`] says.
pub fn fmt_q12(q: i32) -> (r: Vec<u8>)
    requires
        0 <= q <= 4096,
    ensures
        r@ == fmt_q12_spec(q as int),
{
    proof {
        lemma_pow10_bounds();
    }
    let mut out: Vec<u8> = Vec::new();
    let ip: u8 = 48 + (q / 4096) as u8;
    out.push(ip);
    out.push(DOT);
    proof {
        assert(dec_digits(q as int / 4096) =~= seq![ip]);
    }
    let m: u64 = ((q % 4096) as u64) * Q12_DENOM;
    let ghost fm = m as int;
    proof {
        assert(fm < pow10(12));
    }
    let mut frac: Vec<u8> = Vec::new();
    let mut cur: u64 = m;
    let mut j: usize = 0;
    proof {
        assert(fixed_digits(fm, 12) + frac@ =~= fixed_digits(fm, 12));
    }
    while j < 12
        invariant
            j <= 12,
            cur <= m,
            fixed_digits(fm, 12) == fixed_digits(cur as int, 12 - j) + frac@,
        decreases 12 - j,
    {
        let d: u8 = 48 + (cur % 10) as u8;
        let ghost frac0 = frac@;
        frac.insert(0, d);
        proof {
            assert(frac@ =~= seq![d] + frac0);
        }
        let ghost prev = cur as int;
        cur = cur / 10;
        j += 1;
        proof {
            assert(fixed_digits(prev, 12 - (j - 1)) =~= fixed_digits(prev / 10, 12 - j) + seq![d]);
            assert(fixed_digits(prev / 10, 12 - j) + (seq![d] + frac0) =~= (fixed_digits(
                prev / 10,
                12 - j,
            ) + seq![d]) + frac0);
            assert(fixed_digits(fm, 12) =~= fixed_digits(cur as int, 12 - j) + frac@);
        }
    }
    proof {
        assert(fixed_digits(cur as int, 0) =~= Seq::<u8>::empty());
        assert(frac@ =~= fixed_digits(fm, 12));
    }
    out.append(&mut frac);
    proof {
        assert(out@ =~= fmt_q12_spec(q as int));
    }
    out
}

/// Reading back a written integer field returns the integer exactly.
pub proof fn lemma_parse_i32_fmt(v: i32)
    ensures
        parse_i32_spec(fmt_i32_spec(v as int)) == Some(v),
{
    let s = fmt_i32_spec(v as int);
    if v < 0 {
        lemma_dec_digits(-(v as int));
        assert(s[0] == MINUS);
        assert(field_body(s) =~= dec_digits(-(v as int)));
    } else {
        lemma_dec_digits(v as int);
        assert(is_digit(s[0]));
        assert(field_body(s) == s);
    }
}

/// Reading back a written integer field as a coordinate returns it exactly.
pub proof fn lemma_parse_coord_fmt(v: i32)
    ensures
        parse_coord_spec(fmt_i32_spec(v as int)) == Some(v),
{
    let s = fmt_i32_spec(v as int);
    let body = field_body(s);
    if v < 0 {
        lemma_dec_digits(-(v as int));
        assert(s[0] == MINUS);
        assert(body =~= dec_digits(-(v as int)));
    } else {
        lemma_dec_digits(v as int);
        assert(is_digit(s[0]));
        assert(body == s);
    }
    assert forall|j: int| 0 <= j < body.len() implies body[j] != DOT by {
        assert(is_digit(body[j]));
    }
    lemma_first_sep_at(body, DOT, body.len() as int);
    assert(int_digits(s) =~= body);
    assert(frac_digits(s) =~= Seq::<u8>::empty());
}

/// Reading back a written pressure field returns the same `1/4096` units.
pub proof fn lemma_parse_q12_fmt(q: i32)
    requires
        0 <= q <= 4096,
    ensures
        parse_q12_spec(fmt_q12_spec(q as int)) == Some(q),
{
    lemma_pow10_bounds();
    let qi = q as int;
    let m = (qi % 4096) * (Q12_DENOM as int);
    let s = fmt_q12_spec(qi);
    let ip = dec_digits(qi / 4096);
    let fp = fixed_digits(m, 12);
    lemma_dec_digits(qi / 4096);
    lemma_fixed_digits(m, 12);
    assert(s[0] == ip[0]);
    assert(is_digit(s[0]));
    let body = field_body(s);
    assert(body == s);
    assert forall|j: int| 0 <= j < ip.len() implies body[j] != DOT by {
        assert(body[j] == ip[j]);
        assert(is_digit(ip[j]));
    }
    assert(body[ip.len() as int] == DOT);
    lemma_first_sep_at(body, DOT, ip.len() as int);
    assert(int_digits(s) =~= ip);
    assert(frac_digits(s) =~= fp);
    assert(frac12(s) =~= fp);
    assert(digits_val(frac12(s)) / (Q12_DENOM as int) == qi % 4096) by {
        vstd::arithmetic::div_mod::lemma_div_multiples_vanish(qi % 4096, Q12_DENOM as int);
        assert((Q12_DENOM as int) * (qi % 4096) == m);
    }
    vstd::arithmetic::div_mod::lemma_fundamental_div_mod(qi, 4096);
    assert(digits_val(int_digits(s)) * 4096 + digits_val(frac12(s)) / (Q12_DENOM as int) == qi);
}

} // verus!
