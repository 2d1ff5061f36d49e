//! The persistent store's capability set, stated as a trait whose methods
//! carry contracts over an abstract model of the store.
//!
//! The model holds the height-to-hash mapping, the current storage mode,
//! and a log of the operations the store has observed, so that callers can
//! state ordering facts (every insert past the tip is followed by a flush;
//! the mode-toggle self-check runs Bulk, Normal, Bulk) as well as plain
//! state facts. Any backend satisfying this capability set is
//! substitutable; a verified in-memory backend lives in `mem_store`.

use vstd::prelude::*;
use crate::block::{BlockHash, BlockRecord};

verus! {

/// The store's throughput/latency toggle: `Bulk` favors write throughput
/// (e.g. deferred index maintenance), `Normal` favors query freshness.
#[derive(Clone, Copy, Debug, PartialEq, Eq, Structural)]
pub enum StorageMode {
    Bulk,
    Normal,
}

/// A failure of a store operation. Propagated; aborts the run.
#[derive(Clone, Copy, Debug, PartialEq, Eq, Structural)]
pub struct StorageError;

/// One operation the store observed, as recorded in the model's log.
pub enum StoreEvent {
    Insert { height: int, hash: Seq<u8> },
    Discard { height: int },
    Flush,
    SetMode { mode: StorageMode },
}

/// The abstract state of a store: the height-to-hash mapping, the current
/// mode, and the sequence of operations performed so far.
pub struct StoreModel {
    pub records: Map<int, Seq<u8>>,
    pub mode: StorageMode,
    pub log: Seq<StoreEvent>,
}

/// The mapping restricted to heights strictly below `height`: what remains
/// after all records at and above `height` are invalidated.
pub open spec fn discard_from(records: Map<int, Seq<u8>>, height: int) -> Map<int, Seq<u8>> {
    records.restrict(Set::new(|k: int| k < height))
}

/// The persistent store's capability set.
///
/// Mutating operations say on success exactly how the model changes and
/// which event is appended to the log; on failure the run is aborted, so
/// nothing is promised of the state a failing backend leaves behind.
pub trait DataStore: Sized {
    /// The backend's well-formedness; established by its constructor and
    /// preserved by every operation.
    spec fn inv(&self) -> bool;

    /// The abstract state this backend currently represents.
    spec fn model(&self) -> StoreModel;

    /// Whether this backend's operations never fail (the in-memory
    /// backend); a caller may then be owed success.
    spec fn infallible(&self) -> bool;

    /// The highest recorded height, or `None` on a fresh store.
    fn get_max_height(&self) -> (r: Result<Option<u64>, StorageError>)
        requires
            self.inv(),
        ensures
            self.infallible() ==> r is Ok,
            match r {
                Ok(Some(h)) => self.model().records.dom().contains(h as int)
                    && forall|k: int| self.model().records.dom().contains(k) ==> k <= h as int,
                Ok(None) => forall|k: int| !self.model().records.dom().contains(k),
                Err(_) => true,
            },
    ;

    /// The hash recorded at `height`, or `None` if the height is absent.
    fn get_hash_by_height(&self, height: u64) -> (r: Result<Option<BlockHash>, StorageError>)
        requires
            self.inv(),
        ensures
            self.infallible() ==> r is Ok,
            match r {
                Ok(Some(hash)) => self.model().records.dom().contains(height as int)
                    && hash@ == self.model().records[height as int],
                Ok(None) => !self.model().records.dom().contains(height as int),
                Err(_) => true,
            },
    ;

    /// Records `block` at its height. The core only ever appends past every
    /// stored height, which is what a write-optimized backend may rely on.
    fn insert(&mut self, block: BlockRecord) -> (r: Result<(), StorageError>)
        requires
            old(self).inv(),
            forall|k: int| old(self).model().records.dom().contains(k) ==> k < block.height as int,
        ensures
            final(self).inv(),
            final(self).infallible() == old(self).infallible(),
            old(self).infallible() ==> r is Ok,
            match r {
                Ok(_) => final(self).model() == (StoreModel {
                    records: old(self).model().records.insert(
                        block.height as int,
                        block.hash@,
                    ),
                    mode: old(self).model().mode,
                    log: old(self).model().log.push(StoreEvent::Insert {
                        height: block.height as int,
                        hash: block.hash@,
                    }),
                }),
                Err(_) => true,
            },
    ;

    /// Invalidates every record at and above `height`.
    fn reorg_at_height(&mut self, height: u64) -> (r: Result<(), StorageError>)
        requires
            old(self).inv(),
        ensures
            final(self).inv(),
            final(self).infallible() == old(self).infallible(),
            old(self).infallible() ==> r is Ok,
            match r {
                Ok(_) => final(self).model() == (StoreModel {
                    records: discard_from(old(self).model().records, height as int),
                    mode: old(self).model().mode,
                    log: old(self).model().log.push(StoreEvent::Discard {
                        height: height as int,
                    }),
                }),
                Err(_) => true,
            },
    ;

    /// Forces a durable commit of buffered writes.
    fn flush(&mut self) -> (r: Result<(), StorageError>)
        requires
            old(self).inv(),
        ensures
            final(self).inv(),
            final(self).infallible() == old(self).infallible(),
            old(self).infallible() ==> r is Ok,
            match r {
                Ok(_) => final(self).model() == (StoreModel {
                    records: old(self).model().records,
                    mode: old(self).model().mode,
                    log: old(self).model().log.push(StoreEvent::Flush),
                }),
                Err(_) => true,
            },
    ;

    /// Switches the store to throughput-optimized operation.
    fn mode_bulk(&mut self) -> (r: Result<(), StorageError>)
        requires
            old(self).inv(),
        ensures
            final(self).inv(),
            final(self).infallible() == old(self).infallible(),
            old(self).infallible() ==> r is Ok,
            match r {
                Ok(_) => final(self).model() == (StoreModel {
                    records: old(self).model().records,
                    mode: StorageMode::Bulk,
                    log: old(self).model().log.push(StoreEvent::SetMode {
                        mode: StorageMode::Bulk,
                    }),
                }),
                Err(_) => true,
            },
    ;

    /// Switches the store to query-optimized operation.
    fn mode_normal(&mut self) -> (r: Result<(), StorageError>)
        requires
            old(self).inv(),
        ensures
            final(self).inv(),
            final(self).infallible() == old(self).infallible(),
            old(self).infallible() ==> r is Ok,
            match r {
                Ok(_) => final(self).model() == (StoreModel {
                    records: old(self).model().records,
                    mode: StorageMode::Normal,
                    log: old(self).model().log.push(StoreEvent::SetMode {
                        mode: StorageMode::Normal,
                    }),
                }),
                Err(_) => true,
            },
    ;

    /// Administrative reset: drops every record. Invoked only outside a
    /// normal run; the operation log starts over.
    fn wipe(&mut self) -> (r: Result<(), StorageError>)
        requires
            old(self).inv(),
        ensures
            final(self).inv(),
            final(self).infallible() == old(self).infallible(),
            old(self).infallible() ==> r is Ok,
            match r {
                Ok(_) => final(self).model() == (StoreModel {
                    records: Map::empty(),
                    mode: old(self).model().mode,
                    log: Seq::empty(),
                }),
                Err(_) => true,
            },
    ;

    /// Administrative schema creation. Invoked only outside a normal run;
    /// leaves the abstract state as it is.
    fn init(&mut self) -> (r: Result<(), StorageError>)
        requires
            old(self).inv(),
        ensures
            final(self).inv(),
            final(self).infallible() == old(self).infallible(),
            old(self).infallible() ==> r is Ok,
            match r {
                Ok(_) => final(self).model() == old(self).model(),
                Err(_) => true,
            },
    ;
}

} // verus!
