use chain_indexer::block::{BlockHash, BlockRecord};
use chain_indexer::db::DataStore;
use chain_indexer::db::StorageMode;
use chain_indexer::mem_store::MemDataStore;

fn h(b: u8) -> BlockHash {
    BlockHash { bytes: [b; 32] }
}

fn rec(height: u64, b: u8) -> BlockRecord {
    BlockRecord { height, hash: h(b) }
}

#[test]
fn hash_equality_is_bytewise() {
    assert!(h(7).eq_hash(&h(7)));
    assert!(!h(7).eq_hash(&h(8)));
    let mut a = h(1);
    let b = h(1);
    assert!(a.eq_hash(&b));
    a.bytes[31] = 2;
    assert!(!a.eq_hash(&b));
}

#[test]
fn fresh_store_is_empty() {
    let ds = MemDataStore::new();
    assert_eq!(ds.get_max_height().unwrap(), None);
    assert!(ds.get_hash_by_height(0).unwrap().is_none());
    assert_eq!(ds.current_mode(), StorageMode::Normal);
}

#[test]
fn insert_then_lookup() {
    let mut ds = MemDataStore::new();
    ds.insert(rec(0, 10)).unwrap();
    ds.insert(rec(1, 11)).unwrap();
    ds.insert(rec(2, 12)).unwrap();
    assert_eq!(ds.get_max_height().unwrap(), Some(2));
    assert_eq!(ds.get_hash_by_height(1).unwrap().unwrap().bytes, [11u8; 32]);
    assert!(ds.get_hash_by_height(3).unwrap().is_none());
}

#[test]
fn reorg_discards_at_and_above() {
    let mut ds = MemDataStore::new();
    for i in 0u64..6 {
        ds.insert(rec(i, i as u8)).unwrap();
    }
    ds.reorg_at_height(3).unwrap();
    assert_eq!(ds.get_max_height().unwrap(), Some(2));
    assert!(ds.get_hash_by_height(3).unwrap().is_none());
    assert!(ds.get_hash_by_height(5).unwrap().is_none());
    assert_eq!(ds.get_hash_by_height(2).unwrap().unwrap().bytes, [2u8; 32]);
}

#[test]
fn reorg_past_everything_is_a_no_op() {
    let mut ds = MemDataStore::new();
    ds.insert(rec(0, 1)).unwrap();
    ds.reorg_at_height(5).unwrap();
    assert_eq!(ds.get_max_height().unwrap(), Some(0));
}

#[test]
fn mode_toggle() {
    let mut ds = MemDataStore::new();
    ds.mode_bulk().unwrap();
    assert_eq!(ds.current_mode(), StorageMode::Bulk);
    ds.mode_normal().unwrap();
    assert_eq!(ds.current_mode(), StorageMode::Normal);
}

#[test]
fn wipe_empties_the_store() {
    let mut ds = MemDataStore::new();
    ds.insert(rec(0, 1)).unwrap();
    ds.insert(rec(1, 2)).unwrap();
    ds.flush().unwrap();
    ds.wipe().unwrap();
    assert_eq!(ds.get_max_height().unwrap(), None);
    assert!(ds.get_hash_by_height(0).unwrap().is_none());
    ds.init().unwrap();
    assert_eq!(ds.get_max_height().unwrap(), None);
}
