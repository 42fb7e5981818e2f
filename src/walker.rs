//! The walk along the remote chain, as a state machine.
//!
//! A run asks the remote node for its tip height, learns the store's
//! watermark, resolves the hash of the first missing height and then follows
//! each block's successor hash. The caller performs each [`Request`] and hands
//! its outcome to the matching `on_*` method, which answers with the writes to
//! commit (if any) and the next request.
use vstd::prelude::*;
use crate::batch::WriteBatch;
use crate::enrich::{enrich, enriched_entries, lemma_enriched_heights};
use crate::record::{entries_model, BlockRecord, Entry, EntryModel};
use crate::watermark::{
    consecutive, decoded_of, heights_of, lemma_consecutive_append, lemma_heights_of_append,
    lemma_max_of_consecutive, watermark_of,
};

verus! {

/// Pending writes are committed after each block whose height is a multiple
/// of this.
pub const BATCH_SIZE: i64 = 100;

/// Where a run stands.
#[derive(Clone, Copy, Debug, PartialEq, Eq, Structural)]
pub enum Phase {
    ResolvingTip,
    ResolvingWatermark,
    ResolvingStart,
    Walking,
    Done,
    Failed,
}

/// What the caller is to do next.
#[derive(Debug)]
pub enum Request {
    /// Ask the remote node for its tip height; answer with `on_tip_height`.
    TipHeight,
    /// Scan the store for its watermark; answer with `on_watermark`.
    Watermark,
    /// Ask for the hash of the block at `height`; answer with `on_start_hash`.
    HashAtHeight { height: i64 },
    /// Fetch the block with `hash` and each of its transactions; answer with
    /// `on_block`.
    BlockByHash { hash: String },
    /// The run is over.
    Stop,
}

/// The answer to one event: writes to commit atomically before anything
/// else, then the next request.
#[derive(Debug)]
pub struct Step {
    pub commit: Option<Vec<Entry>>,
    pub next: Request,
}

/// The writes that a step commits, if any.
pub open spec fn committed_by(s: &Step) -> Option<Seq<EntryModel>> {
    match s.commit {
        Some(c) => Some(entries_model(c@)),
        None => None,
    }
}

/// The state of one synchronisation run.
pub struct Walker {
    pub phase: Phase,
    /// The height of the first block of this run.
    pub start: i64,
    /// The height of the block that is fetched next.
    pub height: i64,
    /// Writes not yet committed.
    pub batch: WriteBatch,
    /// Every write handed out for commit during this run, in order.
    pub committed: Ghost<Seq<EntryModel>>,
    /// The height just past the last block handed out for commit.
    pub flushed: Ghost<int>,
}

impl Walker {
    /// The run's invariant: the blocks written so far are exactly those from
    /// `start` up to `height`, without a gap; those committed end at a batch
    /// boundary, the rest wait in the batch.
    pub open spec fn wf(&self) -> bool {
        let f = self.flushed@;
        &&& 0 <= self.start <= f <= self.height
        &&& heights_of(self.committed@) == consecutive(self.start as int, (f - self.start) as nat)
        &&& heights_of(self.batch@) == consecutive(f, (self.height - f) as nat)
        &&& self.phase != Phase::Done ==> (f == self.start || (f - 1) % (BATCH_SIZE as int) == 0)
        &&& self.phase == Phase::Done ==> self.batch@.len() == 0
        &&& (self.phase != Phase::Walking && self.phase != Phase::Done) ==> {
            &&& self.committed@.len() == 0
            &&& self.batch@.len() == 0
            &&& self.height == self.start
        }
    }

    /// A run that has not started; its first request is [`Request::TipHeight`].
    pub fn new() -> (r: Walker)
        ensures
            r.wf(),
            r.phase == Phase::ResolvingTip,
    {
        let r = Walker {
            phase: Phase::ResolvingTip,
            start: 0,
            height: 0,
            batch: WriteBatch::new(),
            committed: Ghost(Seq::empty()),
            flushed: Ghost(0),
        };
        proof {
            lemma_no_entries_no_heights(r.batch@);
            assert(consecutive(0, 0) =~= Seq::<int>::empty());
        }
        r
    }

    /// Takes the tip height, or `None` where the remote node could not give
    /// it; without it the run fails.
    pub fn on_tip_height(&mut self, tip: Option<i64>) -> (s: Step)
        requires
            old(self).wf(),
            old(self).phase == Phase::ResolvingTip,
        ensures
            final(self).wf(),
            committed_by(&s) is None,
            final(self).committed@ == old(self).committed@,
            tip is None ==> final(self).phase == Phase::Failed && s.next is Stop,
            tip is Some ==> final(self).phase == Phase::ResolvingWatermark && s.next is Watermark,
    {
        match tip {
            None => {
                self.phase = Phase::Failed;
                Step { commit: None, next: Request::Stop }
            },
            Some(_) => {
                self.phase = Phase::ResolvingWatermark;
                Step { commit: None, next: Request::Watermark }
            },
        }
    }

    /// Takes the store's watermark and asks for the hash of the height just
    /// above it, so that no stored height is fetched again.
    pub fn on_watermark(&mut self, watermark: i64) -> (s: Step)
        requires
            old(self).wf(),
            old(self).phase == Phase::ResolvingWatermark,
            watermark >= -1,
        ensures
            final(self).wf(),
            committed_by(&s) is None,
            final(self).committed@ == old(self).committed@,
            watermark < i64::MAX ==> {
                &&& final(self).phase == Phase::ResolvingStart
                &&& final(self).start == watermark + 1
                &&& final(self).height == watermark + 1
                &&& s.next == (Request::HashAtHeight { height: (watermark + 1) as i64 })
            },
            watermark == i64::MAX ==> final(self).phase == Phase::Failed && s.next is Stop,
    {
        if watermark == i64::MAX {
            self.phase = Phase::Failed;
            Step { commit: None, next: Request::Stop }
        } else {
            let first = watermark + 1;
            self.phase = Phase::ResolvingStart;
            self.start = first;
            self.height = first;
            self.flushed = Ghost(first as int);
            proof {
                assert(consecutive(first as int, 0) =~= Seq::<int>::empty());
            }
            Step { commit: None, next: Request::HashAtHeight { height: first } }
        }
    }

    /// Takes the hash of the first missing height, or `None` where the remote
    /// node knows no such height: the store is up to date and nothing is
    /// written.
    pub fn on_start_hash(&mut self, hash: Option<String>) -> (s: Step)
        requires
            old(self).wf(),
            old(self).phase == Phase::ResolvingStart,
        ensures
            final(self).wf(),
            committed_by(&s) is None,
            final(self).committed@ == old(self).committed@,
            final(self).height == old(self).height,
            hash is None ==> final(self).phase == Phase::Failed && s.next is Stop,
            hash matches Some(h) ==> {
                &&& final(self).phase == Phase::Walking
                &&& s.next == (Request::BlockByHash { hash: h })
            },
    {
        match hash {
            None => {
                self.phase = Phase::Failed;
                Step { commit: None, next: Request::Stop }
            },
            Some(h) => {
                self.phase = Phase::Walking;
                Step { commit: None, next: Request::BlockByHash { hash: h } }
            },
        }
    }

    /// Ends the walk: every pending write is handed out for commit.
    fn finish(&mut self) -> (s: Step)
        requires
            old(self).wf(),
            old(self).phase == Phase::Walking,
        ensures
            final(self).wf(),
            final(self).phase == Phase::Done,
            final(self).start == old(self).start,
            final(self).height == old(self).height,
            committed_by(&s) == Some(old(self).batch@),
            final(self).committed@ == old(self).committed@ + old(self).batch@,
            s.next is Stop,
    {
        let pending = self.batch.take();
        proof {
            lemma_heights_of_append(self.committed@, old(self).batch@);
            lemma_consecutive_append(
                self.start as int,
                (self.flushed@ - self.start) as nat,
                (self.height - self.flushed@) as nat,
            );
            self.committed@ = self.committed@ + old(self).batch@;
            self.flushed@ = self.height as int;
            assert(consecutive(self.height as int, 0) =~= Seq::<int>::empty());
            lemma_no_entries_no_heights(self.batch@);
        }
        self.phase = Phase::Done;
        Step { commit: Some(pending), next: Request::Stop }
    }

    /// Takes the block fetched at the current hash with the outcome of
    /// fetching each of its transactions, or `None` where the block could not
    /// be fetched. A block that is not at the expected height (or has no
    /// height above it) ends the walk
    /// as a failed fetch does. Otherwise the block is added to the batch; the
    /// batch is committed after each block at a multiple of [`BATCH_SIZE`],
    /// and when the walk ends at the tip.
    pub fn on_block(&mut self, block: Option<BlockRecord>, transactions: Vec<Option<Vec<u8>>>) -> (s: Step)
        requires
            old(self).wf(),
            old(self).phase == Phase::Walking,
            block matches Some(b) ==> transactions.len() == b.transaction_ids.len(),
        ensures
            final(self).wf(),
            final(self).start == old(self).start,
            match block {
                Some(b) if b.height == old(self).height && b.height < i64::MAX => {
                    let added = old(self).batch@ + enriched_entries(&b, transactions@);
                    match b.successor_hash {
                        Some(n) => {
                            &&& final(self).phase == Phase::Walking
                            &&& final(self).height == old(self).height + 1
                            &&& s.next == (Request::BlockByHash { hash: n })
                            &&& if old(self).height % BATCH_SIZE == 0 {
                                &&& committed_by(&s) == Some(added)
                                &&& final(self).batch@.len() == 0
                                &&& final(self).committed@ == old(self).committed@ + added
                            } else {
                                &&& committed_by(&s) is None
                                &&& final(self).batch@ == added
                                &&& final(self).committed@ == old(self).committed@
                            }
                        },
                        None => {
                            &&& final(self).phase == Phase::Done
                            &&& s.next is Stop
                            &&& committed_by(&s) == Some(added)
                            &&& final(self).committed@ == old(self).committed@ + added
                        },
                    }
                },
                _ => {
                    &&& final(self).phase == Phase::Done
                    &&& s.next is Stop
                    &&& committed_by(&s) == Some(old(self).batch@)
                    &&& final(self).committed@ == old(self).committed@ + old(self).batch@
                },
            },
    {
        let b = match block {
            Some(b) => b,
            None => {
                return self.finish();
            },
        };
        if b.height != self.height || b.height == i64::MAX {
            return self.finish();
        }
        let ghost before = self.batch@;
        enrich(&mut self.batch, &b, &transactions);
        proof {
            lemma_enriched_heights(&b, transactions@);
            lemma_heights_of_append(before, enriched_entries(&b, transactions@));
            assert(consecutive(self.flushed@, (self.height - self.flushed@) as nat).push(
                self.height as int,
            ) =~= consecutive(self.flushed@, (self.height + 1 - self.flushed@) as nat));
            assert(heights_of(before) + seq![b.height as int] =~= heights_of(before).push(
                b.height as int,
            ));
            assert(heights_of(self.batch@) == consecutive(
                self.flushed@,
                (self.height + 1 - self.flushed@) as nat,
            ));
        }
        match b.successor_hash {
            Some(n) => {
                let at_boundary = self.height % BATCH_SIZE == 0;
                self.height = self.height + 1;
                if at_boundary {
                    let pending = self.batch.take();
                    proof {
                        let added = before + enriched_entries(&b, transactions@);
                        lemma_heights_of_append(self.committed@, added);
                        lemma_consecutive_append(
                            self.start as int,
                            (self.flushed@ - self.start) as nat,
                            (self.height - self.flushed@) as nat,
                        );
                        self.committed@ = self.committed@ + added;
                        self.flushed@ = self.height as int;
                        assert(consecutive(self.height as int, 0) =~= Seq::<int>::empty());
                        lemma_no_entries_no_heights(self.batch@);
                    }
                    Step { commit: Some(pending), next: Request::BlockByHash { hash: n } }
                } else {
                    Step { commit: None, next: Request::BlockByHash { hash: n } }
                }
            },
            None => {
                self.height = self.height + 1;
                self.finish()
            },
        }
    }
}

/// No entries hold no block.
proof fn lemma_no_entries_no_heights(e: Seq<EntryModel>)
    requires
        e.len() == 0,
    ensures
        heights_of(e) == Seq::<int>::empty(),
{
    assert(crate::watermark::decoded_of(e) =~= Seq::<Option<i64>>::empty());
}

/// No gaps: a store whose blocks are exactly the heights from 0 up to its
/// watermark, once it has received every write a run handed out for commit,
/// holds exactly the heights from 0 up to the last block committed, and that
/// height is its watermark.
pub proof fn lemma_no_gaps(store: Seq<EntryModel>, w: &Walker)
    requires
        w.wf(),
        heights_of(store) == consecutive(0, w.start as nat),
    ensures
        heights_of(store + w.committed@) == consecutive(0, w.flushed@ as nat),
        watermark_of(decoded_of(store + w.committed@)) == w.flushed@ - 1,
{
    lemma_heights_of_append(store, w.committed@);
    lemma_consecutive_append(0, w.start as nat, (w.flushed@ - w.start) as nat);
    if w.flushed@ > 0 {
        lemma_max_of_consecutive(0, w.flushed@ as nat);
    } else {
        assert(consecutive(0, 0) =~= Seq::<int>::empty());
    }
}

/// Batch atomicity: if the process stops at any point of a walk, the store
/// holds the batches committed so far and nothing of the pending one, and the
/// watermark found on restart is the last batch boundary committed, or the
/// watermark the run started from.
pub proof fn lemma_crash_resumes_at_boundary(store: Seq<EntryModel>, w: &Walker)
    requires
        w.wf(),
        w.phase == Phase::Walking,
        heights_of(store) == consecutive(0, w.start as nat),
    ensures
        watermark_of(decoded_of(store + w.committed@)) == w.flushed@ - 1,
        w.flushed@ == w.start || (w.flushed@ - 1) % (BATCH_SIZE as int) == 0,
{
    lemma_no_gaps(store, w);
}

/// Idempotent resume: after a run that reached its end, the watermark of the
/// store is the last height written, so the next run asks for the hash of
/// the height just past it and of no stored height; where the remote chain
/// has no block there, that run writes nothing (see `on_start_hash`).
pub proof fn lemma_resume_after_done(store: Seq<EntryModel>, w: &Walker)
    requires
        w.wf(),
        w.phase == Phase::Done,
        heights_of(store) == consecutive(0, w.start as nat),
    ensures
        watermark_of(decoded_of(store + w.committed@)) + 1 == w.height,
{
    lemma_no_entries_no_heights(w.batch@);
    assert(consecutive(w.flushed@, (w.height - w.flushed@) as nat).len() == 0);
    lemma_no_gaps(store, w);
}

} // verus!
