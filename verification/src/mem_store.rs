//! A verified in-memory store: the fast, substitutable backend for the
//! `DataStore` capability set.
//!
//! Records are held as a vector of `(height, hash)` pairs kept in strictly
//! increasing height order; the abstract mapping is read off that vector.

use vstd::prelude::*;
use crate::block::{BlockHash, BlockRecord};
use crate::db::{DataStore, StorageError, StorageMode, StoreEvent, StoreModel};

verus! {

/// Strictly increasing heights: sortedness and distinctness in one.
pub open spec fn heights_strictly_sorted(s: Seq<(u64, BlockHash)>) -> bool {
    forall|i: int, j: int|
        0 <= i < j < s.len() ==> (#[trigger] s[i]).0 < (#[trigger] s[j]).0
}

/// The height-to-hash mapping a sequence of entries represents.
pub open spec fn records_of(s: Seq<(u64, BlockHash)>) -> Map<int, Seq<u8>> {
    Map::new(
        |h: int| exists|i: int| 0 <= i < s.len() && (#[trigger] s[i]).0 as int == h,
        |h: int| s[choose|i: int| 0 <= i < s.len() && (#[trigger] s[i]).0 as int == h].1@,
    )
}

/// With distinct heights, the entry at index `i` is what the mapping holds
/// at its height.
proof fn lemma_records_at(s: Seq<(u64, BlockHash)>, i: int)
    requires
        heights_strictly_sorted(s),
        0 <= i < s.len(),
    ensures
        records_of(s).dom().contains(s[i].0 as int),
        records_of(s)[s[i].0 as int] == s[i].1@,
{
    let h = s[i].0 as int;
    assert(records_of(s).dom().contains(h));
    let j = choose|j: int| 0 <= j < s.len() && (#[trigger] s[j]).0 as int == h;
    if j < i {
        assert(s[j].0 < s[i].0);
    } else if i < j {
        assert(s[i].0 < s[j].0);
    }
    assert(j == i);
}

/// Appending an entry above every stored height inserts exactly that
/// height into the mapping.
proof fn lemma_records_push(s: Seq<(u64, BlockHash)>, e: (u64, BlockHash))
    requires
        heights_strictly_sorted(s),
        forall|i: int| 0 <= i < s.len() ==> (#[trigger] s[i]).0 < e.0,
    ensures
        heights_strictly_sorted(s.push(e)),
        records_of(s.push(e)) == records_of(s).insert(e.0 as int, e.1@),
{
    let t = s.push(e);
    assert forall|i: int, j: int| 0 <= i < j < t.len() implies (#[trigger] t[i]).0 < (
    #[trigger] t[j]).0 by {
        if j < s.len() {
            assert(s[i].0 < s[j].0);
        } else {
            assert(t[j] == e);
            assert(s[i].0 < e.0);
        }
    }
    let a = records_of(t);
    let b = records_of(s).insert(e.0 as int, e.1@);
    assert forall|h: int| a.dom().contains(h) <==> b.dom().contains(h) by {
        if h == e.0 as int {
            assert(t[s.len() as int].0 as int == h);
            assert(a.dom().contains(h));
        } else {
            if a.dom().contains(h) {
                let i = choose|i: int| 0 <= i < t.len() && (#[trigger] t[i]).0 as int == h;
                assert(i < s.len());
                assert(s[i].0 as int == h);
            }
            if b.dom().contains(h) {
                let i = choose|i: int| 0 <= i < s.len() && (#[trigger] s[i]).0 as int == h;
                assert(t[i].0 as int == h);
            }
        }
    }
    assert forall|h: int| a.dom().contains(h) implies a[h] == b[h] by {
        let i = choose|i: int| 0 <= i < t.len() && (#[trigger] t[i]).0 as int == h;
        lemma_records_at(t, i);
        if h == e.0 as int {
            assert(t[s.len() as int].0 as int == h);
            lemma_records_at(t, s.len() as int);
        } else {
            assert(i < s.len());
            lemma_records_at(s, i);
        }
    }
    assert(a =~= b);
}

/// Truncating the entries to those below `height` restricts the mapping to
/// heights below `height`.
proof fn lemma_records_take(s: Seq<(u64, BlockHash)>, m: int, height: int)
    requires
        heights_strictly_sorted(s),
        0 <= m <= s.len(),
        forall|i: int| 0 <= i < m ==> ((#[trigger] s[i]).0 as int) < height,
        forall|i: int| m <= i < s.len() ==> ((#[trigger] s[i]).0 as int) >= height,
    ensures
        heights_strictly_sorted(s.take(m)),
        records_of(s.take(m)) == crate::db::discard_from(records_of(s), height),
{
    let t = s.take(m);
    let a = records_of(t);
    let b = crate::db::discard_from(records_of(s), height);
    assert forall|h: int| a.dom().contains(h) <==> b.dom().contains(h) by {
        if a.dom().contains(h) {
            let i = choose|i: int| 0 <= i < t.len() && (#[trigger] t[i]).0 as int == h;
            assert(s[i].0 as int == h);
            assert(h < height);
        }
        if b.dom().contains(h) {
            let i = choose|i: int| 0 <= i < s.len() && (#[trigger] s[i]).0 as int == h;
            assert(i < m);
            assert(t[i].0 as int == h);
        }
    }
    assert forall|h: int| a.dom().contains(h) implies a[h] == b[h] by {
        let i = choose|i: int| 0 <= i < t.len() && (#[trigger] t[i]).0 as int == h;
        lemma_records_at(t, i);
        assert(s[i].0 as int == h);
        lemma_records_at(s, i);
    }
    assert(a =~= b);
}

/// The in-memory backend: entries in strictly increasing height order, the
/// current mode, and the ghost log of observed operations.
pub struct MemDataStore {
    pub entries: Vec<(u64, BlockHash)>,
    pub mode: StorageMode,
    pub log: Ghost<Seq<StoreEvent>>,
}

impl MemDataStore {
    /// A fresh, empty store in query-optimized mode.
    pub fn new() -> (r: Self)
        ensures
            r.inv(),
            r.model() == (StoreModel {
                records: records_of(Seq::empty()),
                mode: StorageMode::Normal,
                log: Seq::empty(),
            }),
            forall|k: int| !r.model().records.dom().contains(k),
    {
        MemDataStore { entries: Vec::new(), mode: StorageMode::Normal, log: Ghost(Seq::empty()) }
    }

    /// The current storage mode, for callers outside the proof.
    pub fn current_mode(&self) -> (r: StorageMode)
        ensures
            r == self.model().mode,
    {
        self.mode
    }
}

impl DataStore for MemDataStore {
    open spec fn inv(&self) -> bool {
        heights_strictly_sorted(self.entries@)
    }

    open spec fn model(&self) -> StoreModel {
        StoreModel { records: records_of(self.entries@), mode: self.mode, log: self.log@ }
    }

    open spec fn infallible(&self) -> bool {
        true
    }

    fn get_max_height(&self) -> (r: Result<Option<u64>, StorageError>) {
        let n = self.entries.len();
        if n == 0 {
            Ok(None)
        } else {
            let last = self.entries[n - 1].0;
            proof {
                lemma_records_at(self.entries@, n - 1);
                assert forall|k: int| self.model().records.dom().contains(k) implies k
                    <= last as int by {
                    let i = choose|i: int|
                        0 <= i < self.entries@.len() && (#[trigger] self.entries@[i]).0 as int
                            == k;
                    if i < n - 1 {
                        assert(self.entries@[i].0 < self.entries@[n - 1].0);
                    }
                }
            }
            Ok(Some(last))
        }
    }

    fn get_hash_by_height(&self, height: u64) -> (r: Result<Option<BlockHash>, StorageError>) {
        let n = self.entries.len();
        let mut i: usize = 0;
        while i < n
            invariant
                self.inv(),
                n == self.entries@.len(),
                0 <= i <= n,
                forall|j: int| 0 <= j < i ==> (#[trigger] self.entries@[j]).0 != height,
            decreases n - i,
        {
            if self.entries[i].0 == height {
                proof {
                    lemma_records_at(self.entries@, i as int);
                }
                return Ok(Some(self.entries[i].1));
            }
            i += 1;
        }
        Ok(None)
    }

    fn insert(&mut self, block: BlockRecord) -> (r: Result<(), StorageError>) {
        proof {
            assert forall|i: int| 0 <= i < self.entries@.len() implies (
            #[trigger] self.entries@[i]).0 < block.height by {
                lemma_records_at(self.entries@, i);
            }
            lemma_records_push(self.entries@, (block.height, block.hash));
        }
        self.entries.push((block.height, block.hash));
        proof {
            self.log@ = self.log@.push(StoreEvent::Insert {
                height: block.height as int,
                hash: block.hash@,
            });
        }
        Ok(())
    }

    fn reorg_at_height(&mut self, height: u64) -> (r: Result<(), StorageError>) {
        let ghost s0 = self.entries@;
        let ghost mode0 = self.mode;
        let ghost log0 = self.log@;
        proof {
            assert(s0.take(s0.len() as int) =~= s0);
        }
        while self.entries.len() > 0 && self.entries[self.entries.len() - 1].0 >= height
            invariant
                self.mode == mode0,
                self.log@ == log0,
                heights_strictly_sorted(s0),
                self.entries@.len() <= s0.len(),
                self.entries@ == s0.take(self.entries@.len() as int),
                forall|i: int|
                    self.entries@.len() <= i < s0.len() ==> (#[trigger] s0[i]).0 >= height,
            decreases self.entries@.len(),
        {
            proof {
                let m = self.entries@.len() as int;
                assert(self.entries@[m - 1] == s0[m - 1]);
                assert(self.entries@.drop_last() =~= s0.take(m - 1));
            }
            self.entries.pop();
        }
        proof {
            let m = self.entries@.len() as int;
            assert forall|i: int| 0 <= i < m implies ((#[trigger] s0[i]).0 as int) < height by {
                assert(self.entries@[m - 1] == s0[m - 1]);
                if i < m - 1 {
                    assert(s0[i].0 < s0[m - 1].0);
                }
            }
            lemma_records_take(s0, m, height as int);
            self.log@ = self.log@.push(StoreEvent::Discard { height: height as int });
        }
        Ok(())
    }

    fn flush(&mut self) -> (r: Result<(), StorageError>) {
        proof {
            self.log@ = self.log@.push(StoreEvent::Flush);
        }
        Ok(())
    }

    fn mode_bulk(&mut self) -> (r: Result<(), StorageError>) {
        self.mode = StorageMode::Bulk;
        proof {
            self.log@ = self.log@.push(StoreEvent::SetMode { mode: StorageMode::Bulk });
        }
        Ok(())
    }

    fn mode_normal(&mut self) -> (r: Result<(), StorageError>) {
        self.mode = StorageMode::Normal;
        proof {
            self.log@ = self.log@.push(StoreEvent::SetMode { mode: StorageMode::Normal });
        }
        Ok(())
    }

    fn wipe(&mut self) -> (r: Result<(), StorageError>) {
        self.entries = Vec::new();
        proof {
            self.log@ = Seq::empty();
            assert(records_of(self.entries@) =~= Map::<int, Seq<u8>>::empty());
        }
        Ok(())
    }

    fn init(&mut self) -> (r: Result<(), StorageError>) {
        Ok(())
    }
}

} // verus!
