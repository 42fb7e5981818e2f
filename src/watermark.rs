//! The watermark: the greatest block height already held by the store.
use vstd::prelude::*;
use crate::record::EntryModel;

verus! {

/// The heights of the block records among decoded store values, in order.
/// A value that decodes to no block contributes nothing.
pub open spec fn block_heights(decoded: Seq<Option<i64>>) -> Seq<int>
    decreases decoded.len(),
{
    if decoded.len() == 0 {
        Seq::empty()
    } else {
        let rest = block_heights(decoded.drop_last());
        match decoded.last() {
            Some(h) => rest.push(h as int),
            None => rest,
        }
    }
}

/// The greatest of `hs` that exceeds -1; -1 when there is none.
pub open spec fn max_height(hs: Seq<int>) -> int
    decreases hs.len(),
{
    if hs.len() == 0 {
        -1
    } else {
        let m = max_height(hs.drop_last());
        if hs.last() > m {
            hs.last()
        } else {
            m
        }
    }
}

/// The watermark of a store whose values decode as `decoded`: the greatest
/// block height found, or -1 when no block is stored.
pub open spec fn watermark_of(decoded: Seq<Option<i64>>) -> int {
    max_height(block_heights(decoded))
}

/// What each entry decodes to: its block height, or nothing.
pub open spec fn decoded_of(entries: Seq<EntryModel>) -> Seq<Option<i64>> {
    entries.map_values(|e: EntryModel| e.kind.block_height())
}

/// The heights of the block records among `entries`, in order.
pub open spec fn heights_of(entries: Seq<EntryModel>) -> Seq<int> {
    block_heights(decoded_of(entries))
}

/// The heights `start, start + 1, ..., start + n - 1`.
pub open spec fn consecutive(start: int, n: nat) -> Seq<int> {
    Seq::new(n, |i: int| start + i)
}

/// Folds one decoded store value into the running watermark.
pub fn fold_height(current: i64, decoded: Option<i64>) -> (r: i64)
    ensures
        r == match decoded {
            Some(h) => if h > current { h } else { current },
            None => current,
        },
{
    match decoded {
        Some(h) => if h > current { h } else { current },
        None => current,
    }
}

/// Scans every decoded store value once and returns the watermark.
pub fn resolve_watermark(decoded: &Vec<Option<i64>>) -> (r: i64)
    ensures
        r as int == watermark_of(decoded@),
        r >= -1,
{
    let mut max: i64 = -1;
    let mut i: usize = 0;
    while i < decoded.len()
        invariant
            i <= decoded.len(),
            max as int == watermark_of(decoded@.subrange(0, i as int)),
        decreases decoded.len() - i,
    {
        proof {
            let s = decoded@.subrange(0, i as int + 1);
            assert(s.drop_last() =~= decoded@.subrange(0, i as int));
            assert(s.last() == decoded@[i as int]);
            let rest = block_heights(s.drop_last());
            match decoded@[i as int] {
                Some(h) => assert(rest.push(h as int).drop_last() =~= rest),
                None => {},
            }
        }
        max = fold_height(max, decoded[i]);
        i += 1;
    }
    assert(decoded@.subrange(0, i as int) =~= decoded@);
    proof {
        lemma_max_height_floor(block_heights(decoded@));
    }
    max
}

/// A watermark is never below -1.
pub proof fn lemma_max_height_floor(hs: Seq<int>)
    ensures
        max_height(hs) >= -1,
    decreases hs.len(),
{
    if hs.len() > 0 {
        lemma_max_height_floor(hs.drop_last());
    }
}

/// The block heights of two stretches of values, one after the other.
pub proof fn lemma_block_heights_append(a: Seq<Option<i64>>, b: Seq<Option<i64>>)
    ensures
        block_heights(a + b) == block_heights(a) + block_heights(b),
    decreases b.len(),
{
    if b.len() == 0 {
        assert(a + b =~= a);
        assert(block_heights(a) + block_heights(b) =~= block_heights(a));
    } else {
        assert((a + b).drop_last() =~= a + b.drop_last());
        lemma_block_heights_append(a, b.drop_last());
        match b.last() {
            Some(h) => {
                assert(block_heights(a) + block_heights(b) =~= (block_heights(a)
                    + block_heights(b.drop_last())).push(h as int));
            },
            None => {},
        }
    }
}

/// The greatest of two stretches of heights is the greater of their greatest.
pub proof fn lemma_max_height_append(a: Seq<int>, b: Seq<int>)
    ensures
        max_height(a + b) == if max_height(a) >= max_height(b) {
            max_height(a)
        } else {
            max_height(b)
        },
    decreases b.len(),
{
    if b.len() == 0 {
        assert(a + b =~= a);
        lemma_max_height_floor(a);
    } else {
        assert((a + b).drop_last() =~= a + b.drop_last());
        lemma_max_height_append(a, b.drop_last());
    }
}

/// The watermark of a store after more values are added is the greater of
/// the watermark before and that of the added values.
pub proof fn lemma_watermark_append(store: Seq<Option<i64>>, added: Seq<Option<i64>>)
    ensures
        watermark_of(store + added) == if watermark_of(store) >= watermark_of(added) {
            watermark_of(store)
        } else {
            watermark_of(added)
        },
{
    lemma_block_heights_append(store, added);
    lemma_max_height_append(block_heights(store), block_heights(added));
}

/// Monotonic watermark: committing writes to the store never lowers its
/// watermark, whatever the writes hold.
pub proof fn lemma_commit_never_lowers_watermark(
    store: Seq<Option<i64>>,
    added: Seq<Option<i64>>,
)
    ensures
        watermark_of(store + added) >= watermark_of(store),
{
    lemma_watermark_append(store, added);
}

/// The block heights of two stretches of entries, one after the other.
pub proof fn lemma_heights_of_append(a: Seq<EntryModel>, b: Seq<EntryModel>)
    ensures
        heights_of(a + b) == heights_of(a) + heights_of(b),
{
    assert(decoded_of(a + b) =~= decoded_of(a) + decoded_of(b));
    lemma_block_heights_append(decoded_of(a), decoded_of(b));
}

/// Two runs of consecutive heights, the second starting where the first
/// ends, make one run.
pub proof fn lemma_consecutive_append(start: int, a: nat, b: nat)
    ensures
        consecutive(start, a) + consecutive(start + a, b) == consecutive(start, a + b),
{
    assert(consecutive(start, a) + consecutive(start + a, b) =~= consecutive(start, a + b));
}

/// The greatest of a non-empty run of consecutive heights from a
/// non-negative start is its last.
pub proof fn lemma_max_of_consecutive(start: int, n: nat)
    requires
        start >= 0,
        n > 0,
    ensures
        max_height(consecutive(start, n)) == start + n - 1,
    decreases n,
{
    let s = consecutive(start, n);
    assert(s.last() == start + n - 1);
    if n > 1 {
        assert(s.drop_last() =~= consecutive(start, (n - 1) as nat));
        lemma_max_of_consecutive(start, (n - 1) as nat);
    } else {
        assert(s.drop_last() =~= Seq::<int>::empty());
    }
    assert(max_height(s.drop_last()) < s.last());
}

} // verus!
