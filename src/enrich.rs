//! Turning a fetched block and its transactions into store writes.
use vstd::prelude::*;
use crate::batch::WriteBatch;
use crate::keys::{block_key_of, format_hashes, transaction_key, transaction_key_of};
use crate::record::{BlockRecord, Entry, EntryModel, RecordKind};
use crate::watermark::{block_heights, decoded_of, heights_of};

verus! {

/// The entry that stores block `b`, keyed by its hash.
pub open spec fn block_entry(b: &BlockRecord) -> EntryModel {
    EntryModel {
        key: block_key_of(b.hash@),
        value: b.encoded@,
        kind: RecordKind::Block { height: b.height },
    }
}

/// The entry that stores the transaction `id` with encoded record `value`.
pub open spec fn transaction_entry(id: Seq<char>, value: Seq<u8>) -> EntryModel {
    EntryModel { key: transaction_key_of(id), value, kind: RecordKind::Transaction }
}

/// The entries of the transactions whose fetch succeeded, in listed order;
/// `fetched[i]` is the outcome of fetching `ids[i]`.
pub open spec fn transaction_entries(ids: Seq<String>, fetched: Seq<Option<Vec<u8>>>) -> Seq<
    EntryModel,
>
    decreases fetched.len(),
{
    if fetched.len() == 0 || ids.len() == 0 {
        Seq::empty()
    } else {
        let rest = transaction_entries(ids.drop_last(), fetched.drop_last());
        match fetched.last() {
            Some(v) => rest.push(transaction_entry(ids.last()@, v@)),
            None => rest,
        }
    }
}

/// Every write that enriching block `b` produces: the block first, then its
/// fetched transactions.
pub open spec fn enriched_entries(b: &BlockRecord, fetched: Seq<Option<Vec<u8>>>) -> Seq<
    EntryModel,
> {
    seq![block_entry(b)] + transaction_entries(b.transaction_ids@, fetched)
}

/// Adds block `block` to `batch`, then each of its transactions whose fetch
/// succeeded; `transactions[i]` is the encoded record of the block's `i`-th
/// transaction, or `None` where fetching it failed.
pub fn enrich(batch: &mut WriteBatch, block: &BlockRecord, transactions: &Vec<Option<Vec<u8>>>)
    requires
        transactions.len() == block.transaction_ids.len(),
    ensures
        final(batch)@ == old(batch)@ + enriched_entries(block, transactions@),
{
    let ghost start = batch@;
    let value = block.encoded.clone();
    assert(value@ =~= block.encoded@);
    batch.put(Entry { key: format_hashes(block.hash.clone()), value, kind: RecordKind::Block { height: block.height } });
    let ghost ids = block.transaction_ids@;
    let mut i: usize = 0;
    while i < transactions.len()
        invariant
            i <= transactions.len(),
            transactions.len() == ids.len(),
            ids == block.transaction_ids@,
            batch@ == start + seq![block_entry(block)] + transaction_entries(
                ids.subrange(0, i as int),
                transactions@.subrange(0, i as int),
            ),
        decreases transactions.len() - i,
    {
        proof {
            assert(ids.subrange(0, i as int + 1).drop_last() =~= ids.subrange(0, i as int));
            assert(transactions@.subrange(0, i as int + 1).drop_last() =~= transactions@.subrange(
                0,
                i as int,
            ));
        }
        match &transactions[i] {
            Some(v) => {
                let value = v.clone();
                assert(value@ =~= v@);
                batch.put(Entry { key: transaction_key(block.transaction_ids[i].as_str()), value, kind: RecordKind::Transaction });
            },
            None => {},
        }
        i += 1;
    }
    assert(ids.subrange(0, i as int) =~= ids);
    assert(transactions@.subrange(0, i as int) =~= transactions@);
}

/// Each transaction whose fetch succeeded has its entry among the
/// transaction entries.
pub proof fn lemma_fetched_transaction_kept(
    ids: Seq<String>,
    fetched: Seq<Option<Vec<u8>>>,
    j: int,
)
    requires
        fetched.len() == ids.len(),
        0 <= j < fetched.len(),
        fetched[j] is Some,
    ensures
        transaction_entries(ids, fetched).contains(
            transaction_entry(ids[j]@, fetched[j]->0@),
        ),
    decreases fetched.len(),
{
    let rest = transaction_entries(ids.drop_last(), fetched.drop_last());
    if j == fetched.len() - 1 {
        let e = transaction_entry(ids[j]@, fetched[j]->0@);
        assert(rest.push(e)[rest.len() as int] == e);
    } else {
        lemma_fetched_transaction_kept(ids.drop_last(), fetched.drop_last(), j);
        let e = transaction_entry(ids[j]@, fetched[j]->0@);
        let m = choose|m: int| 0 <= m < rest.len() && rest[m] == e;
        match fetched.last() {
            Some(v) => {
                let last = transaction_entry(ids.last()@, v@);
                assert(rest.push(last)[m] == e);
            },
            None => {},
        }
    }
}

/// Per-transaction isolation: when fetching transaction `k` of a block fails,
/// the writes for that block still hold the block itself and every other
/// transaction that was fetched.
pub proof fn lemma_failed_transaction_isolated(
    b: &BlockRecord,
    fetched: Seq<Option<Vec<u8>>>,
    k: int,
)
    requires
        fetched.len() == b.transaction_ids.len(),
        0 <= k < fetched.len(),
        fetched[k] is None,
    ensures
        enriched_entries(b, fetched)[0] == block_entry(b),
        forall|j: int|
            0 <= j < fetched.len() && j != k && #[trigger] fetched[j] is Some ==> enriched_entries(
                b,
                fetched,
            ).contains(transaction_entry(b.transaction_ids@[j]@, fetched[j]->0@)),
{
    let all = enriched_entries(b, fetched);
    let txs = transaction_entries(b.transaction_ids@, fetched);
    assert forall|j: int|
        0 <= j < fetched.len() && j != k && #[trigger] fetched[j] is Some implies all.contains(
            transaction_entry(b.transaction_ids@[j]@, fetched[j]->0@),
        ) by {
        lemma_fetched_transaction_kept(b.transaction_ids@, fetched, j);
        let e = transaction_entry(b.transaction_ids@[j]@, fetched[j]->0@);
        let m = choose|m: int| 0 <= m < txs.len() && txs[m] == e;
        assert(all[m + 1] == e);
    }
}

/// Transaction entries hold no block.
pub proof fn lemma_transaction_entries_hold_no_block(
    ids: Seq<String>,
    fetched: Seq<Option<Vec<u8>>>,
)
    ensures
        heights_of(transaction_entries(ids, fetched)) == Seq::<int>::empty(),
    decreases fetched.len(),
{
    let t = transaction_entries(ids, fetched);
    if fetched.len() == 0 || ids.len() == 0 {
        assert(decoded_of(t) =~= Seq::<Option<i64>>::empty());
    } else {
        let rest = transaction_entries(ids.drop_last(), fetched.drop_last());
        lemma_transaction_entries_hold_no_block(ids.drop_last(), fetched.drop_last());
        match fetched.last() {
            Some(v) => {
                assert(decoded_of(t).drop_last() =~= decoded_of(rest));
                assert(decoded_of(t).last() is None);
            },
            None => {},
        }
    }
}

/// The writes for one block hold exactly one block record, at its height.
pub proof fn lemma_enriched_heights(b: &BlockRecord, fetched: Seq<Option<Vec<u8>>>)
    ensures
        heights_of(enriched_entries(b, fetched)) == seq![b.height as int],
{
    let t = transaction_entries(b.transaction_ids@, fetched);
    lemma_transaction_entries_hold_no_block(b.transaction_ids@, fetched);
    crate::watermark::lemma_heights_of_append(seq![block_entry(b)], t);
    let one = decoded_of(seq![block_entry(b)]);
    assert(one.drop_last() =~= Seq::<Option<i64>>::empty());
    assert(one.last() == Some(b.height));
    assert(block_heights(one.drop_last()) =~= Seq::<int>::empty());
    assert(block_heights(one) == Seq::<int>::empty().push(b.height as int));
    assert(heights_of(seq![block_entry(b)]) =~= seq![b.height as int]);
    assert(seq![b.height as int] + Seq::<int>::empty() =~= seq![b.height as int]);
}

} // verus!
