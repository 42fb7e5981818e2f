//! Store keys for blocks and transactions.
use vstd::prelude::*;

verus! {

/// The key under which the block with hash `hash` is stored.
pub open spec fn block_key_of(hash: Seq<char>) -> Seq<char> {
    "blockhash: "@ + hash
}

/// The key under which the transaction with id `id` is stored.
pub open spec fn transaction_key_of(id: Seq<char>) -> Seq<char> {
    "transaction:"@ + id
}

/// Forms the store key of a block from its hash.
pub fn format_hashes(hash: String) -> (r: String)
    ensures
        r@ == block_key_of(hash@),
{
    let mut key = String::from_str("blockhash: ");
    key.append(hash.as_str());
    key
}

/// Forms the store key of a transaction from its id.
pub fn transaction_key(id: &str) -> (r: String)
    ensures
        r@ == transaction_key_of(id@),
{
    let mut key = String::from_str("transaction:");
    key.append(id);
    key
}

/// A block key and a transaction key are never the same key.
pub proof fn lemma_keys_never_collide(hash: Seq<char>, id: Seq<char>)
    ensures
        block_key_of(hash) != transaction_key_of(id),
{
    reveal_strlit("blockhash: ");
    reveal_strlit("transaction:");
    assert(block_key_of(hash)[0] == 'b');
    assert(transaction_key_of(id)[0] == 't');
}

/// Distinct hashes give distinct block keys, and distinct ids distinct
/// transaction keys.
pub proof fn lemma_keys_injective(a: Seq<char>, b: Seq<char>)
    ensures
        block_key_of(a) == block_key_of(b) ==> a == b,
        transaction_key_of(a) == transaction_key_of(b) ==> a == b,
{
    let p = "blockhash: "@;
    let q = "transaction:"@;
    if block_key_of(a) == block_key_of(b) {
        assert(a =~= block_key_of(a).subrange(p.len() as int, block_key_of(a).len() as int));
        assert(b =~= block_key_of(b).subrange(p.len() as int, block_key_of(b).len() as int));
    }
    if transaction_key_of(a) == transaction_key_of(b) {
        assert(a =~= transaction_key_of(a).subrange(q.len() as int, transaction_key_of(a).len() as int));
        assert(b =~= transaction_key_of(b).subrange(q.len() as int, transaction_key_of(b).len() as int));
    }
}

} // verus!
