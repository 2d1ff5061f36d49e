//! The reconciliation engine: picks a resume point and a storage mode,
//! and applies each delivered block to the store, detecting and resolving
//! short reorganizations.
//!
//! The per-block step is specified by [`step_model`]; the laws below it
//! state idempotence, reorganization repair, mode selection and flush
//! discipline over that specification.

use vstd::prelude::*;
use crate::block::{BlockHash, BlockRecord};
use crate::db::{discard_from, DataStore, StorageError, StorageMode, StoreEvent, StoreModel};

verus! {

/// Trailing heights reprocessed on resume, to absorb reorganizations that
/// happened while the indexer was offline. A heuristic bound: deeper
/// reorganizations are unhandled and leave the store silently inconsistent.
pub const LOOKBACK_WINDOW: u64 = 100;

/// A progress signal is emitted at every multiple of this height.
pub const HEARTBEAT_INTERVAL: u64 = 1000;

/// A failure that aborts the run. Fail-fast: no error is retried.
#[derive(Clone, Copy, Debug, PartialEq, Eq, Structural)]
pub enum Error {
    /// The node cannot be reached or queried.
    Connection,
    /// Local state claims to be ahead of the node, or an expected
    /// historical hash is missing from the store.
    InvariantViolation,
    /// A store operation failed.
    Storage(StorageError),
    /// A fetch worker's retrieval failed mid-stream.
    Fetch,
}

/// No height is recorded: a fresh store.
pub open spec fn store_is_empty(m: StoreModel) -> bool {
    forall|k: int| !m.records.dom().contains(k)
}

/// `h` is recorded and no recorded height exceeds it.
pub open spec fn is_max_height(records: Map<int, Seq<u8>>, h: int) -> bool {
    records.dom().contains(h) && (forall|k: int| records.dom().contains(k) ==> k <= h)
}

/// The height a run resumes from: the lookback window below the last
/// indexed height, clamped at genesis.
pub open spec fn spec_resume_height(last: int) -> int {
    if last >= LOOKBACK_WINDOW as int {
        last - LOOKBACK_WINDOW as int
    } else {
        0
    }
}

/// The mode chosen for an existing store: `Normal` near the tip (at most a
/// tenth of the node height behind), `Bulk` otherwise.
pub open spec fn catch_up_mode(last: int, start: int) -> StorageMode {
    if start - last <= start / 10 {
        StorageMode::Normal
    } else {
        StorageMode::Bulk
    }
}

/// The store model after one reconciliation step for a block at height `h`
/// with hash `hash`, given the node height `start` observed at engine
/// construction: a no-op on a match, discard-and-reinsert on a mismatch,
/// and a plain insert on a new height. Every insert at or past `start` —
/// the reorganization reinsert included — is flushed at once, and the
/// first new height to reach `start` switches the store to `Normal` mode.
pub open spec fn step_model(m: StoreModel, h: int, hash: Seq<u8>, start: int) -> StoreModel {
    if m.records.dom().contains(h) {
        if m.records[h] == hash {
            m
        } else if h >= start {
            StoreModel {
                records: discard_from(m.records, h).insert(h, hash),
                mode: m.mode,
                log: m.log + seq![
                    StoreEvent::Discard { height: h },
                    StoreEvent::Insert { height: h, hash: hash },
                    StoreEvent::Flush,
                ],
            }
        } else {
            StoreModel {
                records: discard_from(m.records, h).insert(h, hash),
                mode: m.mode,
                log: m.log + seq![
                    StoreEvent::Discard { height: h },
                    StoreEvent::Insert { height: h, hash: hash },
                ],
            }
        }
    } else {
        if h < start {
            StoreModel {
                records: m.records.insert(h, hash),
                mode: m.mode,
                log: m.log + seq![StoreEvent::Insert { height: h, hash: hash }],
            }
        } else if h == start {
            StoreModel {
                records: m.records.insert(h, hash),
                mode: StorageMode::Normal,
                log: m.log + seq![
                    StoreEvent::Insert { height: h, hash: hash },
                    StoreEvent::Flush,
                    StoreEvent::SetMode { mode: StorageMode::Normal },
                ],
            }
        } else {
            StoreModel {
                records: m.records.insert(h, hash),
                mode: m.mode,
                log: m.log + seq![StoreEvent::Insert { height: h, hash: hash }, StoreEvent::Flush],
            }
        }
    }
}

/// The recorded heights are exactly `0 .. n`: a gap-free chain prefix.
pub open spec fn prefix_records(records: Map<int, Seq<u8>>, n: int) -> bool {
    n >= 0 && (forall|k: int| #[trigger] records.dom().contains(k) <==> 0 <= k < n)
}

/// The height of the first block of a delivery, or genesis for none.
pub open spec fn first_height(blocks: Seq<BlockRecord>) -> int {
    if blocks.len() > 0 {
        blocks[0].height as int
    } else {
        0
    }
}

/// The larger of two integers.
pub open spec fn spec_max(a: int, b: int) -> int {
    if a > b {
        a
    } else {
        b
    }
}

/// One step on a gap-free prefix leaves a gap-free prefix: a match keeps
/// the length, a mismatch or a new height makes the block's height the new
/// top. The step records the block's hash at its height, touches no lower
/// height, and adds no height other than the block's.
pub proof fn lemma_step_prefix(m: StoreModel, h: int, hash: Seq<u8>, start: int, n: int)
    requires
        prefix_records(m.records, n),
        0 <= h <= n,
    ensures
        prefix_records(
            step_model(m, h, hash, start).records,
            if m.records.dom().contains(h) && m.records[h] == hash {
                n
            } else {
                h + 1
            },
        ),
        step_model(m, h, hash, start).records.dom().contains(h),
        step_model(m, h, hash, start).records[h] == hash,
        forall|k: int|
            0 <= k < h ==> step_model(m, h, hash, start).records.dom().contains(k)
                && step_model(m, h, hash, start).records[k] == m.records[k],
        forall|k: int|
            step_model(m, h, hash, start).records.dom().contains(k) ==> m.records.dom().contains(
                k,
            ) || k == h,
{
    let r2 = step_model(m, h, hash, start).records;
    if m.records.dom().contains(h) {
        if m.records[h] != hash {
            assert forall|k: int| #[trigger] r2.dom().contains(k) <==> 0 <= k < h + 1 by {
                if 0 <= k < h + 1 {
                    if k < h {
                        assert(m.records.dom().contains(k));
                        assert(discard_from(m.records, h).dom().contains(k));
                    }
                    assert(r2.dom().contains(k));
                }
            }
        }
    } else {
        assert(h == n);
        assert forall|k: int| #[trigger] r2.dom().contains(k) <==> 0 <= k < h + 1 by {}
    }
}

/// Idempotence: reconciling a block identical to what is already stored at
/// its height changes nothing — no write, no flush, no mode change.
pub proof fn lemma_step_idempotent(m: StoreModel, h: int, hash: Seq<u8>, start: int)
    requires
        m.records.dom().contains(h),
        m.records[h] == hash,
    ensures
        step_model(m, h, hash, start) == m,
{
}

/// Reorganization repair: on a mismatch the block's hash replaces the
/// stored one, every record above the block's height is discarded, and
/// every record below it is kept unchanged.
pub proof fn lemma_step_reorg(m: StoreModel, h: int, hash: Seq<u8>, start: int)
    requires
        m.records.dom().contains(h),
        m.records[h] != hash,
    ensures
        step_model(m, h, hash, start).records.dom().contains(h),
        step_model(m, h, hash, start).records[h] == hash,
        forall|k: int| k > h ==> !step_model(m, h, hash, start).records.dom().contains(k),
        forall|k: int|
            k < h ==> (step_model(m, h, hash, start).records.dom().contains(k)
                <==> m.records.dom().contains(k)),
        forall|k: int|
            k < h && m.records.dom().contains(k) ==> step_model(m, h, hash, start).records[k]
                == m.records[k],
{
}

/// Mode selection per step: the only mode change the step ever makes is
/// the switch to `Normal` when a new height first reaches the node height
/// observed at start.
pub proof fn lemma_step_mode(m: StoreModel, h: int, hash: Seq<u8>, start: int)
    ensures
        step_model(m, h, hash, start).mode == (
        if !m.records.dom().contains(h) && h == start {
            StorageMode::Normal
        } else {
            m.mode
        }),
{
}

/// Once the store is in `Normal` mode, reconciliation keeps it there.
pub proof fn lemma_mode_normal_stable(m: StoreModel, h: int, hash: Seq<u8>, start: int)
    requires
        m.mode == StorageMode::Normal,
    ensures
        step_model(m, h, hash, start).mode == StorageMode::Normal,
{
}

/// Every insert of a new height at or past `start` is immediately
/// followed by a flush.
pub open spec fn flush_follows_insert(events: Seq<StoreEvent>, start: int) -> bool {
    forall|i: int|
        0 <= i < events.len() ==> ((#[trigger] events[i]) matches StoreEvent::Insert {
            height,
            ..
        } && height >= start ==> i + 1 < events.len() && events[i + 1] matches StoreEvent::Flush)
}

/// Flush discipline: in the events one step appends, every insert at a
/// height at or past `start` — the reorganization reinsert included — is
/// immediately followed by a flush.
pub proof fn lemma_step_flush_discipline(m: StoreModel, h: int, hash: Seq<u8>, start: int)
    ensures
        flush_follows_insert(
            step_model(m, h, hash, start).log.skip(m.log.len() as int),
            start,
        ),
{
    let log2 = step_model(m, h, hash, start).log;
    let tail = log2.skip(m.log.len() as int);
    if m.records.dom().contains(h) {
        if m.records[h] == hash {
            assert(tail =~= Seq::<StoreEvent>::empty());
        } else if h >= start {
            assert(tail =~= seq![
                StoreEvent::Discard { height: h },
                StoreEvent::Insert { height: h, hash: hash },
                StoreEvent::Flush,
            ]);
        } else {
            assert(tail =~= seq![
                StoreEvent::Discard { height: h },
                StoreEvent::Insert { height: h, hash: hash },
            ]);
        }
    } else {
        if h < start {
            assert(tail =~= seq![StoreEvent::Insert { height: h, hash: hash }]);
        } else if h == start {
            assert(tail =~= seq![
                StoreEvent::Insert { height: h, hash: hash },
                StoreEvent::Flush,
                StoreEvent::SetMode { mode: StorageMode::Normal },
            ]);
        } else {
            assert(tail =~= seq![
                StoreEvent::Insert { height: h, hash: hash },
                StoreEvent::Flush,
            ]);
        }
    }
}

/// Reconciliation only appends to the store's log, and never switches
/// the store back to `Bulk` mode: no appended event is such a switch.
pub proof fn lemma_step_log_append(m: StoreModel, h: int, hash: Seq<u8>, start: int)
    ensures
        m.log.len() <= step_model(m, h, hash, start).log.len(),
        forall|i: int|
            0 <= i < m.log.len() ==> (#[trigger] step_model(m, h, hash, start).log[i])
                == m.log[i],
        forall|i: int|
            m.log.len() <= i < step_model(m, h, hash, start).log.len() ==> !((
            #[trigger] step_model(m, h, hash, start).log[i]) matches StoreEvent::SetMode {
                mode: StorageMode::Bulk,
            }),
{
}

/// The reconciliation engine: owns the store handle for the run's
/// duration, together with the node height snapshotted at construction.
pub struct Indexer<D: DataStore> {
    pub node_starting_height: u64,
    pub db: D,
}

impl<D: DataStore> Indexer<D> {
    /// The engine is usable: its store is.
    pub open spec fn wf(&self) -> bool {
        self.db.inv()
    }

    /// The abstract state of the engine's store.
    pub open spec fn model(&self) -> StoreModel {
        self.db.model()
    }

    /// An engine over `db`, with the node's current height snapshotted as
    /// the run's `start_height`. Querying that height is the caller's
    /// concern; failure to obtain it is fatal before an engine exists.
    pub fn new(node_starting_height: u64, db: D) -> (r: Self)
        requires
            db.inv(),
        ensures
            r.wf(),
            r.db == db,
            r.model() == db.model(),
            r.node_starting_height == node_starting_height,
    {
        Indexer { node_starting_height, db }
    }

    /// Whether a progress signal is owed for `height`: at or past the
    /// node height observed at start, or on a heartbeat multiple.
    pub fn should_report(&self, height: u64) -> (r: bool)
        ensures
            r == (height >= self.node_starting_height || height % HEARTBEAT_INTERVAL == 0),
    {
        height >= self.node_starting_height || height % HEARTBEAT_INTERVAL == 0
    }

    /// Reads the store's state and computes the run's anchor.
    ///
    /// On an existing store: checks that the last indexed height does not
    /// exceed the node height (a fatal invariant violation otherwise),
    /// picks `Normal` or `Bulk` mode by the catch-up distance, and anchors
    /// the run a lookback window below the last indexed height, at the
    /// stored hash there — whose absence is a fatal invariant violation.
    /// On a fresh store: exercises the mode toggle once (`Bulk`, `Normal`,
    /// `Bulk`) as a self-check and anchors at genesis (`None`).
    ///
    /// An invariant violation is fatal and not auto-repaired: on that
    /// error the recorded heights are exactly as they were.
    pub fn prepare_run(&mut self) -> (r: Result<Option<(u64, BlockHash)>, Error>)
        requires
            old(self).wf(),
        ensures
            final(self).wf(),
            final(self).node_starting_height == old(self).node_starting_height,
            final(self).db.infallible() == old(self).db.infallible(),
            old(self).db.infallible() ==> (r matches Err(e) ==> e == Error::InvariantViolation),
            r matches Ok(anchor) ==> ({
                let m = old(self).model();
                let s = old(self).node_starting_height as int;
                if store_is_empty(m) {
                    anchor is None && final(self).model() == (StoreModel {
                        records: m.records,
                        mode: StorageMode::Bulk,
                        log: m.log + seq![
                            StoreEvent::SetMode { mode: StorageMode::Bulk },
                            StoreEvent::SetMode { mode: StorageMode::Normal },
                            StoreEvent::SetMode { mode: StorageMode::Bulk },
                        ],
                    })
                } else {
                    exists|last: int|
                        #[trigger] is_max_height(m.records, last) && last <= s && (
                        anchor matches Some(p) && p.0 as int == spec_resume_height(last)
                            && m.records.dom().contains(spec_resume_height(last)) && p.1@
                            == m.records[spec_resume_height(last)] && final(self).model() == (
                        StoreModel {
                            records: m.records,
                            mode: catch_up_mode(last, s),
                            log: m.log.push(StoreEvent::SetMode {
                                mode: catch_up_mode(last, s),
                            }),
                        }))
                }
            }),
            r matches Err(e) ==> (e matches Error::Storage(_) || e == Error::InvariantViolation),
            r matches Err(e) && e == Error::InvariantViolation ==> final(self).model().records
                == old(self).model().records,
            r matches Err(e) && e == Error::InvariantViolation ==> (!store_is_empty(
                old(self).model(),
            ) && (exists|last: int|
                #[trigger] is_max_height(old(self).model().records, last) && (last > old(
                    self,
                ).node_starting_height as int || !old(self).model().records.dom().contains(
                    spec_resume_height(last),
                )))),
    {
        let last_opt = match self.db.get_max_height() {
            Ok(v) => v,
            Err(e) => {
                return Err(Error::Storage(e));
            },
        };
        match last_opt {
            Some(last) => {
                if last > self.node_starting_height {
                    proof {
                        assert(is_max_height(self.model().records, last as int));
                    }
                    return Err(Error::InvariantViolation);
                }
                let distance = self.node_starting_height - last;
                let r1 = if distance <= self.node_starting_height / 10 {
                    self.db.mode_normal()
                } else {
                    self.db.mode_bulk()
                };
                match r1 {
                    Ok(_) => {},
                    Err(e) => {
                        return Err(Error::Storage(e));
                    },
                }
                let resume = if last >= LOOKBACK_WINDOW {
                    last - LOOKBACK_WINDOW
                } else {
                    0
                };
                match self.db.get_hash_by_height(resume) {
                    Ok(Some(hash)) => {
                        proof {
                            assert(is_max_height(old(self).model().records, last as int));
                        }
                        Ok(Some((resume, hash)))
                    },
                    Ok(None) => {
                        proof {
                            assert(is_max_height(old(self).model().records, last as int));
                        }
                        Err(Error::InvariantViolation)
                    },
                    Err(e) => Err(Error::Storage(e)),
                }
            },
            None => {
                match self.db.mode_bulk() {
                    Ok(_) => {},
                    Err(e) => {
                        return Err(Error::Storage(e));
                    },
                }
                match self.db.mode_normal() {
                    Ok(_) => {},
                    Err(e) => {
                        return Err(Error::Storage(e));
                    },
                }
                match self.db.mode_bulk() {
                    Ok(_) => {},
                    Err(e) => {
                        return Err(Error::Storage(e));
                    },
                }
                proof {
                    assert(self.model().log =~= old(self).model().log + seq![
                        StoreEvent::SetMode { mode: StorageMode::Bulk },
                        StoreEvent::SetMode { mode: StorageMode::Normal },
                        StoreEvent::SetMode { mode: StorageMode::Bulk },
                    ]);
                }
                Ok(None)
            },
        }
    }

    /// Applies one delivered block: a no-op when the stored hash matches,
    /// discard-and-reinsert on a mismatch (a reorganization), and an
    /// insert on a new height. Every insert at or past the node height
    /// observed at start — the reorganization reinsert included — is
    /// flushed immediately, and the first new height to reach that
    /// height switches the store to `Normal` mode.
    ///
    /// The ordering guarantee is load-bearing: the store only ever
    /// observes blocks whose height is either already recorded or above
    /// every recorded height, which the fetch pipeline's gap-free
    /// delivery provides.
    pub fn process_block(&mut self, block: BlockRecord) -> (r: Result<(), Error>)
        requires
            old(self).wf(),
            old(self).model().records.dom().contains(block.height as int) || (forall|k: int|
                old(self).model().records.dom().contains(k) ==> k < block.height as int),
        ensures
            final(self).wf(),
            final(self).node_starting_height == old(self).node_starting_height,
            final(self).db.infallible() == old(self).db.infallible(),
            old(self).db.infallible() ==> r is Ok,
            r matches Ok(_) ==> final(self).model() == step_model(
                old(self).model(),
                block.height as int,
                block.hash@,
                old(self).node_starting_height as int,
            ),
            r matches Err(e) ==> e matches Error::Storage(_),
    {
        let block_height = block.height;
        let stored = match self.db.get_hash_by_height(block_height) {
            Ok(v) => v,
            Err(e) => {
                return Err(Error::Storage(e));
            },
        };
        match stored {
            Some(db_hash) => {
                if db_hash.eq_hash(&block.hash) {
                    // Already correctly indexed: the no-op branch.
                    Ok(())
                } else {
                    // Reorganization: the old branch's descendants are no
                    // longer valid.
                    match self.db.reorg_at_height(block_height) {
                        Ok(_) => {},
                        Err(e) => {
                            return Err(Error::Storage(e));
                        },
                    }
                    match self.db.insert(block) {
                        Ok(_) => {},
                        Err(e) => {
                            return Err(Error::Storage(e));
                        },
                    }
                    if block_height >= self.node_starting_height {
                        // The reinsert is past the original tip: flush it
                        // like any other insert there.
                        match self.db.flush() {
                            Ok(_) => {},
                            Err(e) => {
                                return Err(Error::Storage(e));
                            },
                        }
                        proof {
                            assert(self.model().log =~= old(self).model().log + seq![
                                StoreEvent::Discard { height: block.height as int },
                                StoreEvent::Insert {
                                    height: block.height as int,
                                    hash: block.hash@,
                                },
                                StoreEvent::Flush,
                            ]);
                        }
                    } else {
                        proof {
                            assert(self.model().log =~= old(self).model().log + seq![
                                StoreEvent::Discard { height: block.height as int },
                                StoreEvent::Insert {
                                    height: block.height as int,
                                    hash: block.hash@,
                                },
                            ]);
                        }
                    }
                    Ok(())
                }
            },
            None => {
                match self.db.insert(block) {
                    Ok(_) => {},
                    Err(e) => {
                        return Err(Error::Storage(e));
                    },
                }
                if block_height >= self.node_starting_height {
                    // Caught up to the original tip: everything should
                    // appear immediately, even if it is slower.
                    match self.db.flush() {
                        Ok(_) => {},
                        Err(e) => {
                            return Err(Error::Storage(e));
                        },
                    }
                    if block_height == self.node_starting_height {
                        match self.db.mode_normal() {
                            Ok(_) => {},
                            Err(e) => {
                                return Err(Error::Storage(e));
                            },
                        }
                        proof {
                            assert(self.model().log =~= old(self).model().log + seq![
                                StoreEvent::Insert {
                                    height: block.height as int,
                                    hash: block.hash@,
                                },
                                StoreEvent::Flush,
                                StoreEvent::SetMode { mode: StorageMode::Normal },
                            ]);
                        }
                    } else {
                        proof {
                            assert(self.model().log =~= old(self).model().log + seq![
                                StoreEvent::Insert {
                                    height: block.height as int,
                                    hash: block.hash@,
                                },
                                StoreEvent::Flush,
                            ]);
                        }
                    }
                } else {
                    proof {
                        assert(self.model().log =~= old(self).model().log + seq![
                            StoreEvent::Insert {
                                height: block.height as int,
                                hash: block.hash@,
                            },
                        ]);
                    }
                }
                Ok(())
            },
        }
    }

    /// Applies a strictly height-ordered, gap-free delivery of blocks, in
    /// order, aborting on the first failure.
    ///
    /// Consistency: on success, every delivered height holds exactly the
    /// delivered hash, every height below the delivery window is
    /// untouched, and when the delivery reaches past every previously
    /// stored height the recorded heights are exactly `0 ..` the height
    /// after the last delivered one.
    #[verifier::loop_isolation(false)]
    #[verifier::rlimit(60)]
    pub fn run_delivered(&mut self, blocks: &Vec<BlockRecord>) -> (r: Result<(), Error>)
        requires
            old(self).wf(),
            exists|n: int|
                #[trigger] prefix_records(old(self).model().records, n) && first_height(blocks@)
                    <= n,
            forall|i: int|
                0 <= i < blocks@.len() ==> ((#[trigger] blocks@[i]).height as int) == first_height(
                    blocks@,
                ) + i,
        ensures
            final(self).wf(),
            final(self).node_starting_height == old(self).node_starting_height,
            final(self).db.infallible() == old(self).db.infallible(),
            old(self).db.infallible() ==> r is Ok,
            r matches Err(e) ==> e matches Error::Storage(_),
            r matches Ok(_) ==> ({
                let fr = final(self).model().records;
                let h0 = first_height(blocks@);
                forall|i: int|
                    0 <= i < blocks@.len() ==> fr.dom().contains(h0 + i) && fr[h0 + i] == (
                    #[trigger] blocks@[i]).hash@
            }),
            r matches Ok(_) ==> ({
                let fr = final(self).model().records;
                let or = old(self).model().records;
                let h0 = first_height(blocks@);
                forall|k: int|
                    0 <= k < h0 ==> #[trigger] fr.dom().contains(k) && fr[k] == or[k]
            }),
            r matches Ok(_) ==> ({
                let fr = final(self).model().records;
                let or = old(self).model().records;
                let h0 = first_height(blocks@);
                forall|k: int|
                    #[trigger] fr.dom().contains(k) ==> or.dom().contains(k) || (h0 <= k < h0
                        + blocks@.len())
            }),
            r matches Ok(_) ==> (exists|n: int|
                #[trigger] prefix_records(final(self).model().records, n)),
            r matches Ok(_) ==> ({
                let fr = final(self).model().records;
                let or = old(self).model().records;
                let h0 = first_height(blocks@);
                (forall|k: int| #[trigger] or.dom().contains(k) ==> k < h0 + blocks@.len())
                    ==> (forall|k: int|
                    #[trigger] fr.dom().contains(k) <==> 0 <= k < h0 + blocks@.len())
            }),
            r matches Ok(_) && old(self).model().mode == StorageMode::Normal
                ==> final(self).model().mode == StorageMode::Normal,
            r matches Ok(_) ==> ({
                let fr = final(self).model().records;
                let h0 = first_height(blocks@);
                forall|k: int|
                    #[trigger] fr.dom().contains(k) && h0 <= k < h0 + blocks@.len() ==> fr[k]
                        == blocks@[k - h0].hash@
            }),
            r matches Ok(_) ==> ({
                let lo = old(self).model().log;
                let lf = final(self).model().log;
                lo.len() <= lf.len() && (forall|i: int|
                    0 <= i < lo.len() ==> (#[trigger] lf[i]) == lo[i]) && (forall|i: int|
                    lo.len() <= i < lf.len() ==> !((#[trigger] lf[i]) matches StoreEvent::SetMode {
                        mode: StorageMode::Bulk,
                    }))
            }),
            r matches Ok(_) ==> ({
                let or = old(self).model().records;
                let s = old(self).node_starting_height as int;
                ((forall|k: int| #[trigger] or.dom().contains(k) ==> k < s) && (exists|i: int|
                    0 <= i < blocks@.len() && ((#[trigger] blocks@[i]).height as int) == s))
                    ==> final(self).model().mode == StorageMode::Normal
            }),
    {
        let ghost start_s = old(self).node_starting_height as int;
        let ghost h0 = first_height(blocks@);
        let ghost n0 = choose|n: int|
            #[trigger] prefix_records(old(self).model().records, n) && h0 <= n;
        let mut j: usize = 0;
        while j < blocks.len()
            invariant
                self.wf(),
                self.node_starting_height == old(self).node_starting_height,
                self.db.infallible() == old(self).db.infallible(),
                0 <= j <= blocks@.len(),
                exists|n: int|
                    #[trigger] prefix_records(self.model().records, n) && h0 + j <= n && n
                        <= spec_max(n0, h0 + j),
                forall|i: int|
                    0 <= i < j ==> self.model().records.dom().contains(h0 + i)
                        && self.model().records[h0 + i] == (#[trigger] blocks@[i]).hash@,
                forall|k: int|
                    0 <= k < h0 ==> #[trigger] self.model().records.dom().contains(k)
                        && self.model().records[k] == old(self).model().records[k],
                forall|k: int|
                    #[trigger] self.model().records.dom().contains(k) ==> old(
                        self,
                    ).model().records.dom().contains(k) || (h0 <= k < h0 + j),
                old(self).model().mode == StorageMode::Normal ==> self.model().mode
                    == StorageMode::Normal,
                old(self).model().log.len() <= self.model().log.len(),
                forall|i: int|
                    0 <= i < old(self).model().log.len() ==> (#[trigger] self.model().log[i])
                        == old(self).model().log[i],
                forall|i: int|
                    old(self).model().log.len() <= i < self.model().log.len() ==> !((
                    #[trigger] self.model().log[i]) matches StoreEvent::SetMode {
                        mode: StorageMode::Bulk,
                    }),
                ((forall|k: int|
                    #[trigger] old(self).model().records.dom().contains(k) ==> k < start_s) && (
                exists|i: int|
                    0 <= i < j && ((#[trigger] blocks@[i]).height as int) == start_s))
                    ==> self.model().mode == StorageMode::Normal,
            decreases blocks@.len() - j,
        {
            let b = blocks[j];
            let ghost m_pre = self.model();
            let ghost n_pre = choose|n: int|
                #[trigger] prefix_records(m_pre.records, n) && h0 + j <= n && n <= spec_max(
                    n0,
                    h0 + j,
                );
            proof {
                assert(b.height as int == h0 + j);
                if h0 + j < n_pre {
                    assert(m_pre.records.dom().contains(h0 + j));
                }
            }
            match self.process_block(b) {
                Ok(_) => {},
                Err(e) => {
                    return Err(e);
                },
            }
            proof {
                let h = b.height as int;
                let start = self.node_starting_height as int;
                lemma_step_prefix(m_pre, h, b.hash@, start, n_pre);
                if m_pre.mode == StorageMode::Normal {
                    lemma_mode_normal_stable(m_pre, h, b.hash@, start);
                }
                lemma_step_log_append(m_pre, h, b.hash@, start);
                assert forall|i: int|
                    old(self).model().log.len() <= i < self.model().log.len() implies !((
                #[trigger] self.model().log[i]) matches StoreEvent::SetMode {
                    mode: StorageMode::Bulk,
                }) by {
                    if i < m_pre.log.len() {
                        assert(self.model().log[i] == m_pre.log[i]);
                    }
                }
                if (forall|k: int|
                    #[trigger] old(self).model().records.dom().contains(k) ==> k < start_s) && (
                exists|i: int|
                    0 <= i < j + 1 && ((#[trigger] blocks@[i]).height as int) == start_s) {
                    let wi = choose|i: int|
                        0 <= i < j + 1 && ((#[trigger] blocks@[i]).height as int) == start_s;
                    if wi < j {
                        assert(exists|i: int|
                            0 <= i < j && ((#[trigger] blocks@[i]).height as int) == start_s);
                        assert(m_pre.mode == StorageMode::Normal);
                    } else {
                        assert(h == start_s);
                        if n0 > start_s {
                            assert(prefix_records(old(self).model().records, n0));
                            assert(old(self).model().records.dom().contains(n0 - 1));
                            assert(false);
                        }
                        assert(n_pre == start_s);
                        assert(!m_pre.records.dom().contains(h));
                        lemma_step_mode(m_pre, h, b.hash@, start);
                    }
                    assert(self.model().mode == StorageMode::Normal);
                }
                let n_new: int = if m_pre.records.dom().contains(h) && m_pre.records[h]
                    == b.hash@ {
                    n_pre
                } else {
                    h + 1
                };
                assert(prefix_records(self.model().records, n_new));
                if m_pre.records.dom().contains(h) && m_pre.records[h] == b.hash@ {
                    assert(h < n_pre);
                }
                assert(h0 + (j + 1) <= n_new && n_new <= spec_max(n0, h0 + (j + 1)));
                assert forall|i: int|
                    0 <= i < j + 1 implies self.model().records.dom().contains(h0 + i)
                    && self.model().records[h0 + i] == (#[trigger] blocks@[i]).hash@ by {
                    if i < j {
                        assert(h0 + i < h);
                        assert(m_pre.records.dom().contains(h0 + i));
                        assert(m_pre.records[h0 + i] == blocks@[i].hash@);
                    }
                }
            }
            j += 1;
        }
        proof {
            assert forall|k: int| 0 <= k < h0 implies #[trigger] self.model().records.dom().contains(
                k,
            ) && self.model().records[k] == old(self).model().records[k] by {}
            assert forall|k: int|
                #[trigger] self.model().records.dom().contains(k) && h0 <= k < h0
                    + blocks@.len() implies self.model().records[k] == blocks@[k - h0].hash@ by {
                let i = k - h0;
                assert(self.model().records[h0 + i] == blocks@[i].hash@);
            }
            if forall|k: int|
                #[trigger] old(self).model().records.dom().contains(k) ==> k < h0
                    + blocks@.len() {
                let nf = choose|n: int|
                    #[trigger] prefix_records(self.model().records, n) && h0 + blocks@.len() <= n
                        && n <= spec_max(n0, h0 + blocks@.len());
                if n0 > h0 + blocks@.len() {
                    assert(prefix_records(old(self).model().records, n0));
                    assert(old(self).model().records.dom().contains(n0 - 1));
                    assert(false);
                }
                assert(nf == h0 + blocks@.len());
            }
        }
        Ok(())
    }
}

} // verus!
