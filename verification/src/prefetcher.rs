//! The fetch pipeline's resequencing core.
//!
//! Fetch workers retrieve blocks concurrently and may complete out of
//! order; this state machine hands out the heights to fetch, takes
//! completed results back in any order, and releases blocks to the
//! consumer in strictly ascending, gap-free height order, terminating
//! once the block at the node height observed at construction has been
//! delivered. The buffer of completed, not-yet-released results is
//! bounded: when it is full no further height is handed out
//! (backpressure). The retrieval calls themselves are the caller's
//! concern; a worker's failure is surfaced by the caller as a terminal
//! fetch error at the failed height, never by skipping or reordering.

use vstd::prelude::*;
use crate::block::{BlockHash, BlockRecord};

verus! {

/// Bound on results fetched ahead of consumption: trades memory for
/// latency-hiding depth.
pub const PIPELINE_DEPTH: u64 = 16;

/// The resequencer: heights below `next_emit` have been delivered,
/// heights in `next_emit .. next_fetch` are in flight or buffered, and
/// heights above `end` are never fetched. `emitted` records the delivered
/// sequence for the ordering guarantee.
pub struct Prefetcher {
    pub start: u64,
    pub end: u64,
    pub next_fetch: u64,
    pub next_emit: u64,
    pub buffer: Vec<BlockRecord>,
    pub emitted: Ghost<Seq<BlockRecord>>,
}

impl Prefetcher {
    /// The resequencer's invariant: the cursors are ordered, buffered
    /// results are pending and distinct, and the delivered sequence is
    /// gap-free from `start`.
    pub open spec fn wf(&self) -> bool {
        &&& self.end < u64::MAX
        &&& self.start <= self.next_emit
        &&& self.next_emit <= self.next_fetch
        &&& (self.next_fetch as int) <= self.end as int + 1
        &&& forall|i: int|
            0 <= i < self.buffer@.len() ==> self.next_emit <= (#[trigger] self.buffer@[i]).height
                < self.next_fetch
        &&& forall|i: int, j: int|
            0 <= i < j < self.buffer@.len() ==> (#[trigger] self.buffer@[i]).height != (
            #[trigger] self.buffer@[j]).height
        &&& self.emitted@.len() == self.next_emit - self.start
        &&& forall|i: int|
            0 <= i < self.emitted@.len() ==> ((#[trigger] self.emitted@[i]).height as int)
                == self.start + i
    }

    /// All requested heights have been delivered: the sequence is over.
    pub open spec fn done(&self) -> bool {
        self.next_emit > self.end
    }

    /// A pipeline anchored at `anchor`, fetching up to `node_height`, the
    /// node height its caller observed at construction time. With an
    /// anchor the anchor height itself is redelivered, so the consumer
    /// re-validates it; with none fetching begins at genesis.
    pub fn new(anchor: Option<(u64, BlockHash)>, node_height: u64) -> (r: Self)
        requires
            node_height < u64::MAX,
            anchor matches Some(p) ==> p.0 <= node_height,
        ensures
            r.wf(),
            r.start == (match anchor {
                Some(p) => p.0,
                None => 0,
            }),
            r.end == node_height,
            r.next_emit == r.start,
            r.next_fetch == r.start,
            r.buffer@.len() == 0,
            r.emitted@.len() == 0,
    {
        let start = match anchor {
            Some(p) => p.0,
            None => 0,
        };
        Prefetcher {
            start,
            end: node_height,
            next_fetch: start,
            next_emit: start,
            buffer: Vec::new(),
            emitted: Ghost(Seq::empty()),
        }
    }

    /// The next height a fetch worker should retrieve, or `None` when all
    /// heights up to the end have been handed out or the pipeline is full
    /// (backpressure).
    pub fn next_request(&mut self) -> (r: Option<u64>)
        requires
            old(self).wf(),
        ensures
            final(self).wf(),
            final(self).start == old(self).start,
            final(self).end == old(self).end,
            final(self).next_emit == old(self).next_emit,
            final(self).buffer@ == old(self).buffer@,
            final(self).emitted@ == old(self).emitted@,
            match r {
                Some(h) => h == old(self).next_fetch && old(self).next_fetch <= old(self).end
                    && old(self).next_fetch - old(self).next_emit < PIPELINE_DEPTH
                    && final(self).next_fetch == old(self).next_fetch + 1,
                None => final(self).next_fetch == old(self).next_fetch && (old(self).next_fetch
                    > old(self).end || old(self).next_fetch - old(self).next_emit
                    >= PIPELINE_DEPTH),
            },
    {
        if self.next_fetch <= self.end && self.next_fetch - self.next_emit < PIPELINE_DEPTH {
            let h = self.next_fetch;
            self.next_fetch = self.next_fetch + 1;
            Some(h)
        } else {
            None
        }
    }

    /// Takes back a completed fetch. The result must be pending: at a
    /// height that was handed out and neither delivered nor already
    /// buffered — every worker holds a distinct height, so completions in
    /// any order satisfy this.
    pub fn accept(&mut self, block: BlockRecord)
        requires
            old(self).wf(),
            old(self).next_emit <= block.height < old(self).next_fetch,
            forall|i: int|
                0 <= i < old(self).buffer@.len() ==> (#[trigger] old(self).buffer@[i]).height
                    != block.height,
        ensures
            final(self).wf(),
            final(self).start == old(self).start,
            final(self).end == old(self).end,
            final(self).next_emit == old(self).next_emit,
            final(self).next_fetch == old(self).next_fetch,
            final(self).emitted@ == old(self).emitted@,
            final(self).buffer@ == old(self).buffer@.push(block),
    {
        self.buffer.push(block);
    }

    /// Releases the next in-order block when its fetch has completed:
    /// always the block at the lowest undelivered height, so deliveries
    /// are strictly ascending with no duplicates and no gaps. `None`
    /// while that height is still in flight, and forever once the
    /// pipeline is done.
    pub fn next_ready(&mut self) -> (r: Option<BlockRecord>)
        requires
            old(self).wf(),
        ensures
            final(self).wf(),
            final(self).start == old(self).start,
            final(self).end == old(self).end,
            final(self).next_fetch == old(self).next_fetch,
            match r {
                Some(b) => b.height == old(self).next_emit
                    && final(self).next_emit == old(self).next_emit + 1
                    && final(self).emitted@ == old(self).emitted@.push(b) && (exists|i: int|
                    0 <= i < old(self).buffer@.len() && old(self).buffer@[i] == b
                        && final(self).buffer@ == old(self).buffer@.remove(i)),
                None => final(self).next_emit == old(self).next_emit && final(self).buffer@
                    == old(self).buffer@ && final(self).emitted@ == old(self).emitted@ && (
                forall|i: int|
                    0 <= i < old(self).buffer@.len() ==> (#[trigger] old(self).buffer@[i]).height
                        != old(self).next_emit),
            },
    {
        let n = self.buffer.len();
        let mut i: usize = 0;
        while i < n
            invariant
                old(self).wf(),
                self.start == old(self).start,
                self.end == old(self).end,
                self.next_fetch == old(self).next_fetch,
                self.next_emit == old(self).next_emit,
                self.buffer@ == old(self).buffer@,
                self.emitted@ == old(self).emitted@,
                n == self.buffer@.len(),
                0 <= i <= n,
                forall|j: int|
                    0 <= j < i ==> (#[trigger] self.buffer@[j]).height != self.next_emit,
            decreases n - i,
        {
            if self.buffer[i].height == self.next_emit {
                let b = self.buffer.remove(i);
                self.next_emit = self.next_emit + 1;
                proof {
                    self.emitted@ = self.emitted@.push(b);
                    let s0 = old(self).buffer@;
                    assert(self.buffer@ == s0.remove(i as int));
                    assert forall|p: int, q: int|
                        0 <= p < q < self.buffer@.len() implies (
                    #[trigger] self.buffer@[p]).height != (#[trigger] self.buffer@[q]).height by {
                        if q < i {
                            assert(s0[p] == self.buffer@[p]);
                            assert(s0[q] == self.buffer@[q]);
                        } else if p < i {
                            assert(s0[p] == self.buffer@[p]);
                            assert(s0[q + 1] == self.buffer@[q]);
                        } else {
                            assert(s0[p + 1] == self.buffer@[p]);
                            assert(s0[q + 1] == self.buffer@[q]);
                        }
                    }
                    assert(s0[i as int] == b);
                }
                return Some(b);
            }
            i += 1;
        }
        None
    }

    /// Whether the finite sequence has been fully delivered.
    pub fn is_done(&self) -> (r: bool)
        requires
            self.wf(),
        ensures
            r == self.done(),
    {
        self.next_emit > self.end
    }

    /// The ordering guarantee: the delivered sequence is gap-free from
    /// the anchor, strictly ascending in height, and once the pipeline is
    /// done it is exactly the heights from the anchor through the node
    /// height observed at construction, inclusive.
    pub proof fn lemma_delivery_ordered(&self)
        requires
            self.wf(),
        ensures
            forall|i: int|
                0 <= i < self.emitted@.len() ==> ((#[trigger] self.emitted@[i]).height as int)
                    == self.start + i,
            forall|i: int, j: int|
                0 <= i < j < self.emitted@.len() ==> (#[trigger] self.emitted@[i]).height < (
                #[trigger] self.emitted@[j]).height,
            self.done() ==> self.emitted@.len() == self.end - self.start + 1,
    {
    }
}

} // verus!
