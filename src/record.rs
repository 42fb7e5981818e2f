//! Blocks as fetched from the remote node, and the entries they become.
use vstd::prelude::*;

verus! {

/// What a store entry holds: a block record at some height, or a
/// transaction record.
#[derive(Clone, Copy, Debug, PartialEq, Eq, Structural)]
pub enum RecordKind {
    Block { height: i64 },
    Transaction,
}

impl RecordKind {
    /// The height of a block record; `None` for a transaction record.
    pub open spec fn block_height(self) -> Option<i64> {
        match self {
            RecordKind::Block { height } => Some(height),
            RecordKind::Transaction => None,
        }
    }
}

/// One key/value pair to be written to the store, with the kind of record
/// that its value encodes.
#[derive(Debug)]
pub struct Entry {
    pub key: String,
    pub value: Vec<u8>,
    pub kind: RecordKind,
}

/// The mathematical content of an [`Entry`].
pub struct EntryModel {
    pub key: Seq<char>,
    pub value: Seq<u8>,
    pub kind: RecordKind,
}

impl View for Entry {
    type V = EntryModel;

    open spec fn view(&self) -> EntryModel {
        EntryModel { key: self.key@, value: self.value@, kind: self.kind }
    }
}

/// The models of a sequence of entries.
pub open spec fn entries_model(v: Seq<Entry>) -> Seq<EntryModel> {
    v.map_values(|e: Entry| e@)
}

/// A confirmed block as the remote node reports it, with its encoded record.
#[derive(Debug)]
pub struct BlockRecord {
    pub hash: String,
    pub height: i64,
    pub transaction_ids: Vec<String>,
    /// Hash of the next block; absent at the chain tip.
    pub successor_hash: Option<String>,
    /// The stored encoding of this block record.
    pub encoded: Vec<u8>,
}

} // verus!
