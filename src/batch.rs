//! A buffer of writes that the store commits as one atomic unit.
use vstd::prelude::*;
use crate::record::{Entry, EntryModel, entries_model};

verus! {

/// Writes waiting for the next commit, in the order they were added.
#[derive(Debug)]
pub struct WriteBatch {
    entries: Vec<Entry>,
}

impl View for WriteBatch {
    type V = Seq<EntryModel>;

    closed spec fn view(&self) -> Seq<EntryModel> {
        entries_model(self.entries@)
    }
}

impl WriteBatch {
    /// An empty batch.
    pub fn new() -> (r: WriteBatch)
        ensures
            r@ == Seq::<EntryModel>::empty(),
    {
        let r = WriteBatch { entries: Vec::new() };
        assert(r@ =~= Seq::<EntryModel>::empty());
        r
    }

    /// Appends one write.
    pub fn put(&mut self, entry: Entry)
        ensures
            final(self)@ == old(self)@.push(entry@),
    {
        self.entries.push(entry);
        assert(self@ =~= old(self)@.push(entry@));
    }

    /// The number of buffered writes.
    pub fn len(&self) -> (r: usize)
        ensures
            r == self@.len(),
    {
        self.entries.len()
    }

    /// Hands out every buffered write, in order, and leaves the batch empty.
    pub fn take(&mut self) -> (r: Vec<Entry>)
        ensures
            entries_model(r@) == old(self)@,
            final(self)@ == Seq::<EntryModel>::empty(),
    {
        let r = self.entries.split_off(0);
        assert(r@ =~= old(self).entries@);
        assert(self@ =~= Seq::<EntryModel>::empty());
        r
    }
}

} // verus!
