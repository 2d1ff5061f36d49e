use chain_indexer::block::{BlockHash, BlockRecord};
use chain_indexer::db::DataStore;
use chain_indexer::db::StorageMode;
use chain_indexer::indexer::{Error, Indexer, HEARTBEAT_INTERVAL};
use chain_indexer::mem_store::MemDataStore;
use chain_indexer::prefetcher::Prefetcher;

fn h(b: u8) -> BlockHash {
    BlockHash { bytes: [b; 32] }
}

fn rec(height: u64, b: u8) -> BlockRecord {
    BlockRecord { height, hash: h(b) }
}

/// The canonical hash this suite pretends the node reports at `height`.
fn node_hash(height: u64) -> BlockHash {
    h((height % 251) as u8)
}

fn node_rec(height: u64) -> BlockRecord {
    BlockRecord { height, hash: node_hash(height) }
}

fn store_with_heights(up_to: u64) -> MemDataStore {
    let mut ds = MemDataStore::new();
    let mut i: u64 = 0;
    while i <= up_to {
        ds.insert(node_rec(i)).unwrap();
        i += 1;
    }
    ds
}

#[test]
fn fresh_store_catch_up_to_five() {
    let ds = MemDataStore::new();
    let mut ix = Indexer::new(5, ds);
    let anchor = ix.prepare_run().unwrap();
    assert!(anchor.is_none());
    // The mode-toggle self-check ends in bulk mode on a fresh store.
    assert_eq!(ix.db.current_mode(), StorageMode::Bulk);
    let mut pf = Prefetcher::new(anchor, 5);
    let mut seen: Vec<u64> = Vec::new();
    while !pf.is_done() {
        while let Some(hh) = pf.next_request() {
            pf.accept(node_rec(hh));
        }
        if let Some(b) = pf.next_ready() {
            seen.push(b.height);
            ix.process_block(b).unwrap();
        }
    }
    assert_eq!(seen, vec![0, 1, 2, 3, 4, 5]);
    let mut i: u64 = 0;
    while i <= 5 {
        let got = ix.db.get_hash_by_height(i).unwrap().unwrap();
        assert_eq!(got.bytes, node_hash(i).bytes);
        i += 1;
    }
    assert_eq!(ix.db.get_max_height().unwrap(), Some(5));
    assert!(ix.db.get_hash_by_height(6).unwrap().is_none());
    assert_eq!(ix.db.current_mode(), StorageMode::Normal);
}

#[test]
fn resume_uses_the_lookback_window() {
    // Heights 0 through 999 stored, node height 1010: the run resumes one
    // lookback window below the last indexed height and the pipeline
    // redelivers everything from there through the node height, in order.
    let ds = store_with_heights(999);
    let mut ix = Indexer::new(1010, ds);
    let anchor = ix.prepare_run().unwrap();
    let (resume, resume_hash) = anchor.unwrap();
    assert_eq!(resume, 899);
    assert_eq!(resume_hash.bytes, node_hash(899).bytes);
    let mut pf = Prefetcher::new(anchor, 1010);
    let mut seen: Vec<u64> = Vec::new();
    while !pf.is_done() {
        while let Some(hh) = pf.next_request() {
            pf.accept(node_rec(hh));
        }
        if let Some(b) = pf.next_ready() {
            seen.push(b.height);
            ix.process_block(b).unwrap();
        }
    }
    let expected: Vec<u64> = (899..=1010).collect();
    assert_eq!(seen, expected);
    assert_eq!(ix.db.get_max_height().unwrap(), Some(1010));
    assert_eq!(ix.db.current_mode(), StorageMode::Normal);
}

#[test]
fn reorg_during_catch_up() {
    // The store holds height 50 with one hash; the node now reports a
    // different hash there and a new block at height 51.
    let ds = store_with_heights(51);
    let mut ix = Indexer::new(51, ds);
    let new_50 = h(200);
    let new_51 = h(201);
    ix.process_block(BlockRecord { height: 50, hash: new_50 }).unwrap();
    assert_eq!(ix.db.get_hash_by_height(50).unwrap().unwrap().bytes, [200u8; 32]);
    // The prior record at height 51 descended from the old branch: gone.
    assert!(ix.db.get_hash_by_height(51).unwrap().is_none());
    ix.process_block(BlockRecord { height: 51, hash: new_51 }).unwrap();
    assert_eq!(ix.db.get_hash_by_height(51).unwrap().unwrap().bytes, [201u8; 32]);
    assert_eq!(ix.db.get_max_height().unwrap(), Some(51));
    // Heights below the fork are untouched.
    assert_eq!(ix.db.get_hash_by_height(49).unwrap().unwrap().bytes, node_hash(49).bytes);
}

#[test]
fn reorg_at_the_tip() {
    // The tip hash changed while the indexer was offline: the lookback
    // redelivery mismatches at the node height observed at start, and the
    // reinsert there is flushed like any other insert past the tip.
    let ds = store_with_heights(50);
    let mut ix = Indexer::new(50, ds);
    let new_tip = h(210);
    ix.process_block(BlockRecord { height: 50, hash: new_tip }).unwrap();
    assert_eq!(ix.db.get_hash_by_height(50).unwrap().unwrap().bytes, [210u8; 32]);
    assert_eq!(ix.db.get_max_height().unwrap(), Some(50));
    assert_eq!(ix.db.get_hash_by_height(49).unwrap().unwrap().bytes, node_hash(49).bytes);
}

#[test]
fn identical_block_is_a_no_op() {
    let ds = store_with_heights(10);
    let mut ix = Indexer::new(10, ds);
    ix.process_block(node_rec(7)).unwrap();
    assert_eq!(ix.db.get_hash_by_height(7).unwrap().unwrap().bytes, node_hash(7).bytes);
    assert_eq!(ix.db.get_max_height().unwrap(), Some(10));
    assert_eq!(ix.db.get_hash_by_height(10).unwrap().unwrap().bytes, node_hash(10).bytes);
}

#[test]
fn near_tip_store_stays_in_normal_mode() {
    // Catch-up distance 5 with node height 100: within a tenth of the
    // node height, so the store is kept query-ready throughout.
    let ds = store_with_heights(95);
    let mut ix = Indexer::new(100, ds);
    let anchor = ix.prepare_run().unwrap();
    let (resume, _) = anchor.unwrap();
    assert_eq!(resume, 0);
    assert_eq!(ix.db.current_mode(), StorageMode::Normal);
    let blocks: Vec<BlockRecord> = (0u64..=100).map(node_rec).collect();
    ix.run_delivered(&blocks).unwrap();
    assert_eq!(ix.db.current_mode(), StorageMode::Normal);
    assert_eq!(ix.db.get_max_height().unwrap(), Some(100));
}

#[test]
fn far_behind_store_is_bulk_until_the_tip() {
    // Catch-up distance 89 with node height 100: well past a tenth, so
    // the store runs in bulk mode until the run reaches the node height
    // observed at start, and in normal mode from then on.
    let ds = store_with_heights(11);
    let mut ix = Indexer::new(100, ds);
    let anchor = ix.prepare_run().unwrap();
    let (resume, _) = anchor.unwrap();
    assert_eq!(resume, 0);
    assert_eq!(ix.db.current_mode(), StorageMode::Bulk);
    let mut hh: u64 = 0;
    while hh <= 99 {
        ix.process_block(node_rec(hh)).unwrap();
        assert_eq!(ix.db.current_mode(), StorageMode::Bulk);
        hh += 1;
    }
    ix.process_block(node_rec(100)).unwrap();
    assert_eq!(ix.db.current_mode(), StorageMode::Normal);
    ix.process_block(node_rec(101)).unwrap();
    assert_eq!(ix.db.current_mode(), StorageMode::Normal);
}

#[test]
fn store_ahead_of_node_is_an_invariant_violation() {
    let ds = store_with_heights(10);
    let mut ix = Indexer::new(5, ds);
    assert_eq!(ix.prepare_run().unwrap_err(), Error::InvariantViolation);
}

#[test]
fn missing_resume_hash_is_an_invariant_violation() {
    // A store whose lookback height is absent is corrupt: resuming from
    // height 150 needs the hash at height 50, which was never written.
    let mut ds = MemDataStore::new();
    ds.insert(rec(150, 1)).unwrap();
    let mut ix = Indexer::new(200, ds);
    assert_eq!(ix.prepare_run().unwrap_err(), Error::InvariantViolation);
}

#[test]
fn empty_delivery_is_a_successful_run() {
    // An empty delivery is a complete, successful run.
    let ds = MemDataStore::new();
    let mut ix = Indexer::new(0, ds);
    let blocks: Vec<BlockRecord> = Vec::new();
    ix.run_delivered(&blocks).unwrap();
    assert_eq!(ix.db.get_max_height().unwrap(), None);
}

#[test]
fn progress_signal_at_tip_and_heartbeat() {
    let ds = MemDataStore::new();
    let ix = Indexer::new(2500, ds);
    assert!(ix.should_report(0));
    assert!(!ix.should_report(1));
    assert!(!ix.should_report(999));
    assert!(ix.should_report(HEARTBEAT_INTERVAL));
    assert!(ix.should_report(2 * HEARTBEAT_INTERVAL));
    assert!(!ix.should_report(2499));
    assert!(ix.should_report(2500));
    assert!(ix.should_report(2501));
}
