//! Splitting a byte sequence on a separator byte, and joining pieces back.
//!
//! The wire format separates rows with `\n` and fields with `\t`, so the
//! decoder and encoder are both built on these operations. The split keeps
//! every piece, including empty ones: `n` separators always yield `n + 1`
//! pieces, exactly as `str::split` does.

use vstd::prelude::*;

verus! {

/// The views of a sequence of byte vectors.
pub open spec fn views(rows: Seq<Vec<u8>>) -> Seq<Seq<u8>> {
    rows.map_values(|row: Vec<u8>| row@)
}

/// Index of the first occurrence of `sep` in `s`, or `s.len()` when absent.
pub open spec fn first_sep(s: Seq<u8>, sep: u8) -> int
    decreases s.len(),
{
    if s.len() == 0 {
        0
    } else if s[0] == sep {
        0
    } else {
        1 + first_sep(s.skip(1), sep)
    }
}

pub proof fn lemma_first_sep_bounds(s: Seq<u8>, sep: u8)
    ensures
        0 <= first_sep(s, sep) <= s.len(),
        first_sep(s, sep) < s.len() ==> s[first_sep(s, sep)] == sep,
        forall|j: int| 0 <= j < first_sep(s, sep) ==> s[j] != sep,
    decreases s.len(),
{
    if s.len() == 0 {
    } else if s[0] == sep {
    } else {
        lemma_first_sep_bounds(s.skip(1), sep);
        assert forall|j: int| 0 <= j < first_sep(s, sep) implies s[j] != sep by {
            if j > 0 {
                assert(s.skip(1)[j - 1] == s[j]);
            }
        }
        if first_sep(s, sep) < s.len() {
            assert(s.skip(1)[first_sep(s, sep) - 1] == s[first_sep(s, sep)]);
        }
    }
}

/// `first_sep` is pinned down by what lies before the first separator.
pub proof fn lemma_first_sep_at(s: Seq<u8>, sep: u8, k: int)
    requires
        0 <= k <= s.len(),
        forall|j: int| 0 <= j < k ==> s[j] != sep,
        k < s.len() ==> s[k] == sep,
    ensures
        first_sep(s, sep) == k,
    decreases k,
{
    if k == 0 {
        if s.len() > 0 && s[0] != sep {
            lemma_first_sep_bounds(s.skip(1), sep);
        }
    } else {
        assert(s[0] != sep);
        assert forall|j: int| 0 <= j < k - 1 implies s.skip(1)[j] != sep by {
            assert(s.skip(1)[j] == s[j + 1]);
        }
        assert(k - 1 < s.skip(1).len() ==> s.skip(1)[k - 1] == s[k]);
        lemma_first_sep_at(s.skip(1), sep, k - 1);
    }
}

/// All the pieces of `s` between occurrences of `sep`, in order.
pub open spec fn split_on(s: Seq<u8>, sep: u8) -> Seq<Seq<u8>>
    decreases s.len(),
{
    let i = first_sep(s, sep);
    if 0 <= i < s.len() {
        seq![s.take(i)] + split_on(s.skip(i + 1), sep)
    } else {
        seq![s]
    }
}

/// The pieces joined back with `sep` between them.
pub open spec fn join_with(rows: Seq<Seq<u8>>, sep: u8) -> Seq<u8>
    decreases rows.len(),
{
    if rows.len() == 0 {
        seq![]
    } else if rows.len() == 1 {
        rows[0]
    } else {
        rows[0] + seq![sep] + join_with(rows.skip(1), sep)
    }
}

/// Splitting undoes joining, as long as no piece contains the separator.
pub proof fn lemma_split_join(rows: Seq<Seq<u8>>, sep: u8)
    requires
        rows.len() >= 1,
        forall|i: int, j: int|
            0 <= i < rows.len() && 0 <= j < rows[i].len() ==> #[trigger] rows[i][j] != sep,
    ensures
        split_on(join_with(rows, sep), sep) == rows,
    decreases rows.len(),
{
    let s = join_with(rows, sep);
    if rows.len() == 1 {
        assert forall|j: int| 0 <= j < s.len() implies s[j] != sep by {
            assert(rows[0][j] != sep);
        }
        lemma_first_sep_at(s, sep, s.len() as int);
        assert(split_on(s, sep) =~= seq![rows[0]]);
        assert(seq![rows[0]] =~= rows);
    } else {
        let head = rows[0];
        let tail_join = join_with(rows.skip(1), sep);
        assert(s =~= head + seq![sep] + tail_join);
        assert forall|j: int| 0 <= j < head.len() implies s[j] != sep by {
            assert(s[j] == rows[0][j]);
        }
        assert(s[head.len() as int] == sep);
        lemma_first_sep_at(s, sep, head.len() as int);
        assert(s.take(head.len() as int) =~= head);
        assert(s.skip(head.len() as int + 1) =~= tail_join);
        assert forall|i: int, j: int|
            0 <= i < rows.skip(1).len() && 0 <= j < rows.skip(1)[i].len()
            implies #[trigger] rows.skip(1)[i][j] != sep by {
            assert(rows.skip(1)[i] == rows[i + 1]);
        }
        lemma_split_join(rows.skip(1), sep);
        assert(split_on(s, sep) =~= seq![head] + rows.skip(1));
        assert(seq![head] + rows.skip(1) =~= rows);
    }
}

/// Splits `s` on `sep`, keeping empty pieces, exactly as [`split_on`] says.
pub fn split_bytes(s: &Vec<u8>, sep: u8) -> (r: Vec<Vec<u8>>)
    ensures
        views(r@) == split_on(s@, sep),
{
    let mut r: Vec<Vec<u8>> = Vec::new();
    let mut cur: Vec<u8> = Vec::new();
    let ghost mut start: int = 0;
    let mut i: usize = 0;
    proof {
        assert(s@.skip(0) =~= s@);
        assert(views(r@) + split_on(s@, sep) =~= split_on(s@, sep));
    }
    while i < s.len()
        invariant
            0 <= start <= i <= s@.len(),
            cur@ == s@.subrange(start, i as int),
            forall|j: int| start <= j < i ==> s@[j] != sep,
            split_on(s@, sep) == views(r@) + split_on(s@.skip(start), sep),
        decreases s@.len() - i,
    {
        let b = s[i];
        if b == sep {
            proof {
                assert forall|j: int| 0 <= j < i - start implies s@.skip(start)[j] != sep by {
                    assert(s@.skip(start)[j] == s@[start + j]);
                }
                assert(s@.skip(start)[i - start] == s@[i as int]);
                lemma_first_sep_at(s@.skip(start), sep, i - start);
                assert(s@.skip(start).take(i - start) =~= cur@);
                assert(s@.skip(start).skip(i - start + 1) =~= s@.skip(i + 1));
            }
            r.push(cur);
            cur = Vec::new();
            proof {
                assert(views(r@) =~= views(r@.drop_last().push(r@.last())));
                assert(views(r@) =~= views(r@.drop_last()) + seq![r@.last()@]);
                start = i + 1;
                assert(cur@ =~= s@.subrange(start, i + 1));
                assert(split_on(s@, sep) =~= views(r@) + split_on(s@.skip(start), sep));
            }
        } else {
            cur.push(b);
            proof {
                assert(cur@ =~= s@.subrange(start, i + 1));
            }
        }
        i += 1;
    }
    proof {
        assert forall|j: int| 0 <= j < s@.skip(start).len() implies s@.skip(start)[j] != sep by {
            assert(s@.skip(start)[j] == s@[start + j]);
        }
        lemma_first_sep_at(s@.skip(start), sep, s@.len() - start);
        assert(s@.skip(start) =~= cur@);
    }
    r.push(cur);
    proof {
        assert(views(r@) =~= views(r@.drop_last()) + seq![r@.last()@]);
        assert(views(r@) =~= split_on(s@, sep));
    }
    r
}

} // verus!
