use chain_indexer::block::{BlockHash, BlockRecord};
use chain_indexer::prefetcher::{Prefetcher, PIPELINE_DEPTH};

fn rec(height: u64, b: u8) -> BlockRecord {
    BlockRecord { height, hash: BlockHash { bytes: [b; 32] } }
}

#[test]
fn resequences_out_of_order_completions() {
    let mut pf = Prefetcher::new(None, 2);
    assert_eq!(pf.next_request(), Some(0));
    assert_eq!(pf.next_request(), Some(1));
    assert_eq!(pf.next_request(), Some(2));
    assert_eq!(pf.next_request(), None);
    pf.accept(rec(2, 2));
    pf.accept(rec(0, 0));
    pf.accept(rec(1, 1));
    let a = pf.next_ready().unwrap();
    let b = pf.next_ready().unwrap();
    let c = pf.next_ready().unwrap();
    assert_eq!((a.height, b.height, c.height), (0, 1, 2));
    assert_eq!(a.hash.bytes, [0u8; 32]);
    assert!(pf.next_ready().is_none());
    assert!(pf.is_done());
}

#[test]
fn consumer_waits_for_the_lowest_height() {
    let mut pf = Prefetcher::new(None, 3);
    assert_eq!(pf.next_request(), Some(0));
    assert_eq!(pf.next_request(), Some(1));
    pf.accept(rec(1, 1));
    // Height 0 is still in flight: nothing may be released yet.
    assert!(pf.next_ready().is_none());
    pf.accept(rec(0, 0));
    assert_eq!(pf.next_ready().unwrap().height, 0);
    assert_eq!(pf.next_ready().unwrap().height, 1);
    assert!(!pf.is_done());
}

#[test]
fn backpressure_bounds_outstanding_fetches() {
    let mut pf = Prefetcher::new(None, 1000);
    for i in 0..PIPELINE_DEPTH {
        assert_eq!(pf.next_request(), Some(i));
    }
    // The holding area is full: no further height is handed out.
    assert_eq!(pf.next_request(), None);
    pf.accept(rec(0, 0));
    assert_eq!(pf.next_request(), None);
    assert_eq!(pf.next_ready().unwrap().height, 0);
    // One result was consumed: one more height may be fetched ahead.
    assert_eq!(pf.next_request(), Some(PIPELINE_DEPTH));
    assert_eq!(pf.next_request(), None);
}

#[test]
fn anchored_pipeline_redelivers_the_anchor() {
    let anchor = Some((900u64, BlockHash { bytes: [9u8; 32] }));
    let mut pf = Prefetcher::new(anchor, 903);
    let mut seen: Vec<u64> = Vec::new();
    while !pf.is_done() {
        while let Some(hh) = pf.next_request() {
            pf.accept(rec(hh, hh as u8));
        }
        if let Some(b) = pf.next_ready() {
            seen.push(b.height);
        }
    }
    assert_eq!(seen, vec![900, 901, 902, 903]);
}

#[test]
fn empty_range_is_done_immediately() {
    let mut pf = Prefetcher::new(Some((5u64, BlockHash { bytes: [0u8; 32] })), 5);
    assert!(!pf.is_done());
    assert_eq!(pf.next_request(), Some(5));
    assert_eq!(pf.next_request(), None);
    pf.accept(rec(5, 5));
    assert_eq!(pf.next_ready().unwrap().height, 5);
    assert!(pf.is_done());
    assert_eq!(pf.next_request(), None);
}
