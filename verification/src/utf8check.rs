//! An executable UTF-8 validity check, proved against vstd's `valid_utf8`.
//!
//! The wire decoder must reject frames that are not valid UTF-8, exactly as
//! a conversion through `String` would, so the check follows the UTF-8
//! byte patterns: a leading byte announces a width of one to four bytes,
//! continuation bytes fill it, and overlong encodings and surrogate
//! codepoints are refused.

use vstd::prelude::*;
use vstd::utf8::*;

verus! {

/// Checks the scalar encoding starting at `i`: its byte length when well
/// formed, or `None` when the remainder of `s` is not valid UTF-8.
fn check_scalar(s: &Vec<u8>, i: usize) -> (r: Option<usize>)
    requires
        i < s@.len(),
    ensures
        match r {
            Some(k) => {
                &&& valid_first_scalar(s@.skip(i as int))
                &&& length_of_first_scalar(s@.skip(i as int)) == k
                &&& 1 <= k <= 4
                &&& i + k <= s@.len()
            },
            None => !valid_utf8(s@.skip(i as int)),
        },
{
    let ghost suf = s@.skip(i as int);
    let n = s.len();
    let b0 = s[i];
    proof {
        assert(suf[0] == b0);
        assert(suf.len() == n - i);
    }
    if b0 < 0x80 {
        proof {
            assert((b0 & 0x7f) < 0x80) by (bit_vector)
                requires
                    b0 < 0x80,
            ;
            assert(decode_first_codepoint(suf) == (b0 & 0x7f) as u32);
        }
        Some(1)
    } else if 0xc2 <= b0 && b0 <= 0xdf {
        if n - i < 2 {
            proof {
                assert(!valid_leading_and_continuation_bytes_first_codepoint(suf));
            }
            return None;
        }
        let b1 = s[i + 1];
        proof {
            assert(suf[1] == b1);
        }
        if b1 < 0x80 || b1 > 0xbf {
            proof {
                assert(!valid_leading_and_continuation_bytes_first_codepoint(suf));
            }
            return None;
        }
        proof {
            assert(decode_first_codepoint(suf) == codepoint_width_2(b0, b1));
            assert(codepoint_width_2(b0, b1) == (((b0 & 0x1f) as u32) << 6) | ((b1
                & 0x3f) as u32));
            assert({
                let cp = (((b0 & 0x1f) as u32) << 6) | ((b1 & 0x3f) as u32);
                0x80 <= cp <= 0x7ff
            }) by (bit_vector)
                requires
                    0xc2 <= b0 <= 0xdf && 0x80 <= b1 <= 0xbf,
            ;
        }
        Some(2)
    } else if 0xe0 <= b0 && b0 <= 0xef {
        if n - i < 3 {
            proof {
                assert(!valid_leading_and_continuation_bytes_first_codepoint(suf));
            }
            return None;
        }
        let b1 = s[i + 1];
        let b2 = s[i + 2];
        proof {
            assert(suf[1] == b1);
            assert(suf[2] == b2);
        }
        if b1 < 0x80 || b1 > 0xbf || b2 < 0x80 || b2 > 0xbf {
            proof {
                assert(!valid_leading_and_continuation_bytes_first_codepoint(suf));
            }
            return None;
        }
        proof {
            assert(decode_first_codepoint(suf) == codepoint_width_3(b0, b1, b2));
            assert(codepoint_width_3(b0, b1, b2) == (((b0 & 0x0f) as u32) << 12) | (((b1
                & 0x3f) as u32) << 6) | ((b2 & 0x3f) as u32));
        }
        if b0 == 0xe0 && b1 < 0xa0 {
            proof {
                assert({
                    let cp = (((b0 & 0x0f) as u32) << 12) | (((b1 & 0x3f) as u32) << 6) | ((b2
                        & 0x3f) as u32);
                    cp < 0x800
                }) by (bit_vector)
                    requires
                        b0 == 0xe0 && 0x80 <= b1 < 0xa0 && 0x80 <= b2 <= 0xbf,
                ;
            }
            return None;
        }
        if b0 == 0xed && b1 > 0x9f {
            proof {
                assert({
                    let cp = (((b0 & 0x0f) as u32) << 12) | (((b1 & 0x3f) as u32) << 6) | ((b2
                        & 0x3f) as u32);
                    0xd800 <= cp <= 0xdfff
                }) by (bit_vector)
                    requires
                        b0 == 0xed && 0x9f < b1 <= 0xbf && 0x80 <= b2 <= 0xbf,
                ;
            }
            return None;
        }
        proof {
            assert({
                let cp = (((b0 & 0x0f) as u32) << 12) | (((b1 & 0x3f) as u32) << 6) | ((b2
                    & 0x3f) as u32);
                0x800 <= cp && !(0xd800 <= cp <= 0xdfff)
            }) by (bit_vector)
                requires
                    0xe0 <= b0 <= 0xef && 0x80 <= b1 <= 0xbf && 0x80 <= b2 <= 0xbf && (b0 == 0xe0
                        ==> b1 >= 0xa0) && (b0 == 0xed ==> b1 <= 0x9f),
            ;
        }
        Some(3)
    } else if 0xf0 <= b0 && b0 <= 0xf4 {
        if n - i < 4 {
            proof {
                assert(!valid_leading_and_continuation_bytes_first_codepoint(suf));
            }
            return None;
        }
        let b1 = s[i + 1];
        let b2 = s[i + 2];
        let b3 = s[i + 3];
        proof {
            assert(suf[1] == b1);
            assert(suf[2] == b2);
            assert(suf[3] == b3);
        }
        if b1 < 0x80 || b1 > 0xbf || b2 < 0x80 || b2 > 0xbf || b3 < 0x80 || b3 > 0xbf {
            proof {
                assert(!valid_leading_and_continuation_bytes_first_codepoint(suf));
            }
            return None;
        }
        proof {
            assert(decode_first_codepoint(suf) == codepoint_width_4(b0, b1, b2, b3));
            assert(codepoint_width_4(b0, b1, b2, b3) == (((b0 & 0x07) as u32) << 18) | (((b1
                & 0x3f) as u32) << 12) | (((b2 & 0x3f) as u32) << 6) | ((b3 & 0x3f) as u32));
        }
        if b0 == 0xf0 && b1 < 0x90 {
            proof {
                assert({
                    let cp = (((b0 & 0x07) as u32) << 18) | (((b1 & 0x3f) as u32) << 12) | (((b2
                        & 0x3f) as u32) << 6) | ((b3 & 0x3f) as u32);
                    cp < 0x10000
                }) by (bit_vector)
                    requires
                        b0 == 0xf0 && 0x80 <= b1 < 0x90 && 0x80 <= b2 <= 0xbf && 0x80 <= b3 <= 0xbf,
                ;
            }
            return None;
        }
        if b0 == 0xf4 && b1 > 0x8f {
            proof {
                assert({
                    let cp = (((b0 & 0x07) as u32) << 18) | (((b1 & 0x3f) as u32) << 12) | (((b2
                        & 0x3f) as u32) << 6) | ((b3 & 0x3f) as u32);
                    cp > 0x10ffff
                }) by (bit_vector)
                    requires
                        b0 == 0xf4 && 0x8f < b1 <= 0xbf && 0x80 <= b2 <= 0xbf && 0x80 <= b3 <= 0xbf,
                ;
            }
            return None;
        }
        proof {
            assert({
                let cp = (((b0 & 0x07) as u32) << 18) | (((b1 & 0x3f) as u32) << 12) | (((b2
                    & 0x3f) as u32) << 6) | ((b3 & 0x3f) as u32);
                0x10000 <= cp <= 0x10ffff
            }) by (bit_vector)
                requires
                    0xf0 <= b0 <= 0xf4 && 0x80 <= b1 <= 0xbf && 0x80 <= b2 <= 0xbf && 0x80 <= b3
                        <= 0xbf && (b0 == 0xf0 ==> b1 >= 0x90) && (b0 == 0xf4 ==> b1 <= 0x8f),
            ;
        }
        Some(4)
    } else {
        // b0 lies in 0x80..0xc1 (a stray continuation byte or an overlong
        // two-byte lead) or in 0xf5..0xff (beyond the last scalar).
        proof {
            if valid_leading_and_continuation_bytes_first_codepoint(suf) {
                if is_leading_byte_width_2(b0) {
                    let b1 = suf[1];
                    assert(decode_first_codepoint(suf) == codepoint_width_2(b0, b1));
                    assert(codepoint_width_2(b0, b1) == (((b0 & 0x1f) as u32) << 6) | ((b1
                        & 0x3f) as u32));
                    assert({
                        let cp = (((b0 & 0x1f) as u32) << 6) | ((b1 & 0x3f) as u32);
                        cp < 0x80
                    }) by (bit_vector)
                        requires
                            0xc0 <= b0 <= 0xc1,
                    ;
                } else if is_leading_byte_width_4(b0) {
                    let b1 = suf[1];
                    let b2 = suf[2];
                    let b3 = suf[3];
                    assert(decode_first_codepoint(suf) == codepoint_width_4(b0, b1, b2, b3));
                    assert(codepoint_width_4(b0, b1, b2, b3) == (((b0 & 0x07) as u32) << 18)
                        | (((b1 & 0x3f) as u32) << 12) | (((b2 & 0x3f) as u32) << 6) | ((b3
                        & 0x3f) as u32));
                    assert({
                        let cp = (((b0 & 0x07) as u32) << 18) | (((b1 & 0x3f) as u32) << 12)
                            | (((b2 & 0x3f) as u32) << 6) | ((b3 & 0x3f) as u32);
                        cp > 0x10ffff
                    }) by (bit_vector)
                        requires
                            0xf5 <= b0 <= 0xf7,
                    ;
                }
            }
            assert(!valid_first_scalar(suf));
        }
        None
    }
}

/// True exactly when `s` is a valid UTF-8 encoding.
pub fn is_valid_utf8(s: &Vec<u8>) -> (r: bool)
    ensures
        r == valid_utf8(s@),
{
    let n = s.len();
    let mut i: usize = 0;
    proof {
        assert(s@.subrange(0, 0) =~= Seq::<u8>::empty());
    }
    while i < n
        invariant
            i <= n == s@.len(),
            partial_valid_utf8(s@, i as int),
        decreases n - i,
    {
        match check_scalar(s, i) {
            Some(k) => {
                proof {
                    assert(s@.skip(i as int) =~= s@.subrange(i as int, s@.len() as int));
                    partial_valid_utf8_extend(s@, i as int);
                }
                i += k;
            },
            None => {
                proof {
                    assert(s@.skip(i as int) =~= s@.subrange(i as int, s@.len() as int));
                    partial_valid_partial_invalid_utf8(s@, i as int);
                }
                return false;
            },
        }
    }
    proof {
        assert(s@.subrange(0, n as int) =~= s@);
    }
    true
}

} // verus!
