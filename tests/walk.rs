use chain_archive::batch::WriteBatch;
use chain_archive::enrich::enrich;
use chain_archive::record::{BlockRecord, Entry, RecordKind};
use chain_archive::walker::{Phase, Request, Walker};
use chain_archive::watermark::resolve_watermark;

fn hash_of(h: i64) -> String {
    format!("h{}", h)
}

fn block_at(h: i64, len: i64, ntx: usize) -> BlockRecord {
    BlockRecord {
        hash: hash_of(h),
        height: h,
        transaction_ids: (0..ntx).map(|i| format!("t{}_{}", h, i)).collect(),
        successor_hash: if h + 1 < len { Some(hash_of(h + 1)) } else { None },
        encoded: vec![h as u8],
    }
}

/// A remote chain of `len` blocks, one transaction each, unless told otherwise.
struct Remote {
    len: i64,
    tx_per_block: usize,
    failing_tx: Option<String>,
    calls: usize,
    block_calls: usize,
}

impl Remote {
    fn new(len: i64) -> Remote {
        Remote { len, tx_per_block: 1, failing_tx: None, calls: 0, block_calls: 0 }
    }
}

fn decoded(store: &[Entry]) -> Vec<Option<i64>> {
    store
        .iter()
        .map(|e| match e.kind {
            RecordKind::Block { height } => Some(height),
            RecordKind::Transaction => None,
        })
        .collect()
}

/// Runs one walk; stops feeding blocks once `crash_after` blocks were handed
/// over, as a process that dies would. Returns the final phase.
fn run(remote: &mut Remote, store: &mut Vec<Entry>, crash_after: Option<usize>) -> Phase {
    let mut w = Walker::new();
    let mut req = Request::TipHeight;
    let mut fed = 0usize;
    loop {
        let step = match req {
            Request::TipHeight => {
                remote.calls += 1;
                w.on_tip_height(Some(remote.len - 1))
            }
            Request::Watermark => w.on_watermark(resolve_watermark(&decoded(store))),
            Request::HashAtHeight { height } => {
                remote.calls += 1;
                let h = if height < remote.len { Some(hash_of(height)) } else { None };
                w.on_start_hash(h)
            }
            Request::BlockByHash { hash } => {
                if crash_after == Some(fed) {
                    return w.phase;
                }
                fed += 1;
                remote.calls += 1;
                remote.block_calls += 1;
                let h: i64 = hash[1..].parse().unwrap();
                let b = block_at(h, remote.len, remote.tx_per_block);
                let txs: Vec<Option<Vec<u8>>> = b
                    .transaction_ids
                    .iter()
                    .map(|id| {
                        remote.calls += 1;
                        if remote.failing_tx.as_deref() == Some(id.as_str()) {
                            None
                        } else {
                            Some(id.as_bytes().to_vec())
                        }
                    })
                    .collect();
                w.on_block(Some(b), txs)
            }
            Request::Stop => return w.phase,
        };
        if let Some(c) = step.commit {
            store.extend(c);
        }
        req = step.next;
    }
}

fn count(store: &[Entry]) -> (usize, usize) {
    let blocks = store.iter().filter(|e| matches!(e.kind, RecordKind::Block { .. })).count();
    (blocks, store.len() - blocks)
}

#[test]
fn three_block_chain_end_to_end() {
    let mut remote = Remote::new(3);
    let mut store = Vec::new();
    assert_eq!(run(&mut remote, &mut store, None), Phase::Done);
    assert_eq!(count(&store), (3, 3));
    assert_eq!(store[0].key, "blockhash: h0");
    assert_eq!(store[1].key, "transaction:t0_0");
    assert_eq!(store[1].value, b"t0_0".to_vec());
    assert_eq!(resolve_watermark(&decoded(&store)), 2);

    let before = store.len();
    remote.calls = 0;
    remote.block_calls = 0;
    assert_eq!(run(&mut remote, &mut store, None), Phase::Failed);
    assert_eq!(remote.calls, 2);
    assert_eq!(remote.block_calls, 0);
    assert_eq!(store.len(), before);
    assert_eq!(resolve_watermark(&decoded(&store)), 2);
}

#[test]
fn watermark_grows_across_runs() {
    let mut remote = Remote::new(5);
    let mut store = Vec::new();
    run(&mut remote, &mut store, None);
    assert_eq!(resolve_watermark(&decoded(&store)), 4);
    remote.len = 12;
    remote.block_calls = 0;
    run(&mut remote, &mut store, None);
    assert_eq!(remote.block_calls, 7);
    assert_eq!(resolve_watermark(&decoded(&store)), 11);
}

#[test]
fn no_gaps_below_watermark() {
    let mut remote = Remote::new(250);
    remote.tx_per_block = 2;
    let mut store = Vec::new();
    run(&mut remote, &mut store, None);
    let mut heights: Vec<i64> = decoded(&store).into_iter().flatten().collect();
    heights.sort();
    assert_eq!(heights, (0..250).collect::<Vec<i64>>());
    assert_eq!(count(&store), (250, 500));
}

#[test]
fn crash_keeps_last_flushed_boundary() {
    let mut remote = Remote::new(300);
    let mut store = Vec::new();
    // Blocks 0..=120 are handed over, then the process dies.
    run(&mut remote, &mut store, Some(121));
    assert_eq!(resolve_watermark(&decoded(&store)), 100);
    assert_eq!(count(&store), (101, 101));
    // The restart resumes just above the boundary and completes.
    remote.block_calls = 0;
    assert_eq!(run(&mut remote, &mut store, None), Phase::Done);
    assert_eq!(remote.block_calls, 199);
    assert_eq!(resolve_watermark(&decoded(&store)), 299);
}

#[test]
fn crash_before_first_boundary_keeps_nothing_new() {
    let mut remote = Remote::new(300);
    let mut store = Vec::new();
    run(&mut remote, &mut store, Some(1));
    assert_eq!(resolve_watermark(&decoded(&store)), 0);
    let mut store2 = Vec::new();
    run(&mut remote, &mut store2, Some(0));
    assert_eq!(store2.len(), 0);
    assert_eq!(resolve_watermark(&decoded(&store2)), -1);
}

#[test]
fn failed_transaction_is_skipped_alone() {
    let mut remote = Remote::new(1);
    remote.tx_per_block = 4;
    remote.failing_tx = Some(String::from("t0_2"));
    let mut store = Vec::new();
    assert_eq!(run(&mut remote, &mut store, None), Phase::Done);
    let keys: Vec<&str> = store.iter().map(|e| e.key.as_str()).collect();
    assert_eq!(keys, vec!["blockhash: h0", "transaction:t0_0", "transaction:t0_1", "transaction:t0_3"]);
}

#[test]
fn enrich_appends_block_then_fetched_transactions() {
    let mut b = WriteBatch::new();
    let block = BlockRecord {
        hash: String::from("bb"),
        height: 7,
        transaction_ids: vec![String::from("x"), String::from("y"), String::from("z")],
        successor_hash: None,
        encoded: vec![9, 9],
    };
    enrich(&mut b, &block, &vec![Some(vec![1]), None, Some(vec![3])]);
    let out = b.take();
    assert_eq!(out.len(), 3);
    assert_eq!(out[0].key, "blockhash: bb");
    assert_eq!(out[0].value, vec![9, 9]);
    assert_eq!(out[0].kind, RecordKind::Block { height: 7 });
    assert_eq!(out[1].key, "transaction:x");
    assert_eq!(out[1].value, vec![1]);
    assert_eq!(out[2].key, "transaction:z");
    assert_eq!(out[2].kind, RecordKind::Transaction);
}

#[test]
fn tip_failure_aborts_run() {
    let mut w = Walker::new();
    let s = w.on_tip_height(None);
    assert!(s.commit.is_none());
    assert!(matches!(s.next, Request::Stop));
    assert_eq!(w.phase, Phase::Failed);
}

#[test]
fn start_is_just_above_watermark() {
    let mut w = Walker::new();
    w.on_tip_height(Some(10));
    let s = w.on_watermark(4);
    assert!(matches!(s.next, Request::HashAtHeight { height: 5 }));
    let mut w = Walker::new();
    w.on_tip_height(Some(10));
    let s = w.on_watermark(-1);
    assert!(matches!(s.next, Request::HashAtHeight { height: 0 }));
}

#[test]
fn largest_watermark_has_nothing_above() {
    let mut w = Walker::new();
    w.on_tip_height(Some(10));
    let s = w.on_watermark(i64::MAX);
    assert!(matches!(s.next, Request::Stop));
    assert_eq!(w.phase, Phase::Failed);
}

#[test]
fn unknown_start_hash_writes_nothing() {
    let mut w = Walker::new();
    w.on_tip_height(Some(3));
    w.on_watermark(3);
    let s = w.on_start_hash(None);
    assert!(s.commit.is_none());
    assert!(matches!(s.next, Request::Stop));
    assert_eq!(w.phase, Phase::Failed);
}

#[test]
fn block_fetch_failure_flushes_pending() {
    let mut w = Walker::new();
    w.on_tip_height(Some(9));
    w.on_watermark(0);
    w.on_start_hash(Some(hash_of(1)));
    let s = w.on_block(Some(block_at(1, 9, 1)), vec![Some(vec![5])]);
    assert!(s.commit.is_none());
    let s = w.on_block(None, vec![]);
    assert!(matches!(s.next, Request::Stop));
    assert_eq!(s.commit.map(|c| c.len()), Some(2));
    assert_eq!(w.phase, Phase::Done);
}

#[test]
fn block_at_unexpected_height_ends_walk() {
    let mut w = Walker::new();
    w.on_tip_height(Some(9));
    w.on_watermark(0);
    w.on_start_hash(Some(hash_of(1)));
    let s = w.on_block(Some(block_at(5, 9, 1)), vec![Some(vec![5])]);
    assert!(matches!(s.next, Request::Stop));
    assert_eq!(s.commit.map(|c| c.len()), Some(0));
}

#[test]
fn boundary_block_commits_batch() {
    let mut w = Walker::new();
    w.on_tip_height(Some(300));
    w.on_watermark(98);
    w.on_start_hash(Some(hash_of(99)));
    let s = w.on_block(Some(block_at(99, 300, 1)), vec![Some(vec![1])]);
    assert!(s.commit.is_none());
    let s = w.on_block(Some(block_at(100, 300, 1)), vec![Some(vec![2])]);
    assert_eq!(s.commit.map(|c| c.len()), Some(4));
    assert!(matches!(s.next, Request::BlockByHash { ref hash } if hash == "h101"));
    assert_eq!(w.height, 101);
}
