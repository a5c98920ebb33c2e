//! Per-file page bookkeeping: the immutable layout of a written file
//! (`FileMeta`) and the mutable liveness state layered over it (`FileInfo`),
//! which tracks the still-active pages, their aggregate byte size, and the
//! decline-rate metric that ranks files for space reclamation.
use std::sync::Arc;

use vstd::prelude::*;

use crate::addr::index_of;
use crate::addr::split_page_addr;
use crate::bitmap::bitmap_contains;
use crate::bitmap::bitmap_contents;
use crate::bitmap::bitmap_remove;

verus! {

/// Physical location of one page within its file.
#[derive(Clone, Copy, Debug, PartialEq, Eq, Structural)]
pub struct PageHandle {
    pub offset: u32,
    pub size: u32,
}

/// The in-file index packed in the low half of a logical page address.
pub open spec fn page_index(page_addr: u64) -> u32 {
    index_of(page_addr) as u32
}

/// Immutable description of one physical file: its identifier, its total
/// size, and the parallel index/offset table locating each page. Pages sit
/// back to back, so a page's size is the gap to the next offset, and the
/// last page runs to the end of the file.
pub struct FileMeta {
    file_id: u32,
    file_size: u32,
    indexes: Vec<u32>,
    offsets: Vec<u32>,
}

impl FileMeta {
    /// The file's identifier.
    pub closed spec fn spec_file_id(self) -> u32 {
        self.file_id
    }

    /// The file's total size in bytes.
    pub closed spec fn spec_file_size(self) -> u32 {
        self.file_size
    }

    /// The page indices the file holds, in table order.
    pub closed spec fn spec_indexes(self) -> Seq<u32> {
        self.indexes@
    }

    /// The page offsets, parallel to the index table.
    pub closed spec fn spec_offsets(self) -> Seq<u32> {
        self.offsets@
    }

    /// Number of pages in the table.
    pub open spec fn table_len(self) -> int {
        self.spec_indexes().len() as int
    }

    /// A sound table: offsets and indexes are parallel, offsets never step
    /// backwards nor past the end of the file, and no page index repeats.
    pub open spec fn wf(self) -> bool {
        &&& self.spec_offsets().len() == self.spec_indexes().len()
        &&& forall|p: int, q: int|
            0 <= p <= q < self.table_len() ==> self.spec_offsets()[p] <= self.spec_offsets()[q]
        &&& forall|p: int|
            0 <= p < self.table_len() ==> #[trigger] self.spec_offsets()[p]
                <= self.spec_file_size()
        &&& forall|p: int, q: int|
            0 <= p < q < self.table_len() ==> self.spec_indexes()[p] != self.spec_indexes()[q]
    }

    /// Byte size of the page at table position `p`.
    pub open spec fn page_size_at(self, p: int) -> int
        recommends
            0 <= p < self.table_len(),
    {
        if p + 1 < self.table_len() {
            self.spec_offsets()[p + 1] - self.spec_offsets()[p]
        } else {
            self.spec_file_size() - self.spec_offsets()[p]
        }
    }

    /// Whether the file's table holds the page index `idx`.
    pub open spec fn has_index(self, idx: u32) -> bool {
        exists|p: int| 0 <= p < self.table_len() && self.spec_indexes()[p] == idx
    }

    /// The table position of the page index `idx`.
    pub open spec fn pos_of(self, idx: u32) -> int
        recommends
            self.has_index(idx),
    {
        choose|p: int| 0 <= p < self.table_len() && self.spec_indexes()[p] == idx
    }

    /// Byte size of the page with index `idx`.
    pub open spec fn spec_page_size(self, idx: u32) -> int
        recommends
            self.has_index(idx),
    {
        self.page_size_at(self.pos_of(idx))
    }

    /// Builds the description of a freshly written file.
    pub fn new(file_id: u32, file_size: u32, indexes: Vec<u32>, offsets: Vec<u32>) -> (r: Self)
        ensures
            r.spec_file_id() == file_id,
            r.spec_file_size() == file_size,
            r.spec_indexes() == indexes@,
            r.spec_offsets() == offsets@,
    {
        FileMeta { file_id, file_size, indexes, offsets }
    }

    /// The file's identifier.
    pub fn get_file_id(&self) -> (r: u32)
        ensures
            r == self.spec_file_id(),
    {
        self.file_id
    }

    /// Finds the table position of a page index.
    fn find_pos(&self, idx: u32) -> (r: Option<usize>)
        ensures
            match r {
                Some(p) => 0 <= p < self.table_len() && self.spec_indexes()[p as int] == idx,
                None => !self.has_index(idx),
            },
    {
        let n = self.indexes.len();
        let mut p: usize = 0;
        while p < n
            invariant
                n == self.spec_indexes().len(),
                p <= n,
                forall|q: int| 0 <= q < p ==> self.spec_indexes()[q] != idx,
            decreases n - p,
        {
            if self.indexes[p] == idx {
                return Some(p);
            }
            p = p + 1;
        }
        None
    }

    /// Byte size of the page at table position `p`.
    fn size_at_pos(&self, p: usize) -> (r: u32)
        requires
            self.wf(),
            0 <= p < self.table_len(),
        ensures
            r == self.page_size_at(p as int),
    {
        if p < self.indexes.len() - 1 {
            self.offsets[p + 1] - self.offsets[p]
        } else {
            self.file_size - self.offsets[p]
        }
    }

    /// Byte size of the page the address points at. Addresses come only from
    /// the engine itself, so an index outside the file's table is an internal
    /// invariant violation and is ruled out up front.
    pub fn get_page_size(&self, page_addr: u64) -> (r: usize)
        requires
            self.wf(),
            self.has_index(page_index(page_addr)),
        ensures
            r == self.spec_page_size(page_index(page_addr)),
    {
        let (_, index) = split_page_addr(page_addr);
        match self.find_pos(index) {
            Some(p) => {
                proof {
                    let q = self.pos_of(index);
                    assert(self.spec_indexes()[q] == index);
                    assert(q == p as int);
                }
                self.size_at_pos(p) as usize
            },
            None => vstd::pervasive::unreached(),
        }
    }

    /// Sum of all page sizes from table position `p` on, live or not.
    pub open spec fn total_sum(self, p: int) -> int
        decreases self.table_len() - p,
    {
        if p < 0 || p >= self.table_len() {
            0
        } else {
            self.page_size_at(p) + self.total_sum(p + 1)
        }
    }

    /// Sum of the page sizes from table position `p` on whose index is in `s`.
    pub open spec fn active_sum(self, s: Set<u32>, p: int) -> int
        decreases self.table_len() - p,
    {
        if p < 0 || p >= self.table_len() {
            0
        } else {
            (if s.contains(self.spec_indexes()[p]) {
                self.page_size_at(p)
            } else {
                0
            }) + self.active_sum(s, p + 1)
        }
    }

    /// The total page bytes of the file, live pages and dead alike: the
    /// denominator of the decline rate.
    pub fn total_page_size(&self) -> (r: usize)
        requires
            self.wf(),
        ensures
            r == self.total_sum(0),
    {
        let n = self.indexes.len();
        proof {
            self.lemma_total_bounded(0);
        }
        let mut acc: usize = 0;
        let mut p: usize = 0;
        while p < n
            invariant
                self.wf(),
                n == self.table_len(),
                p <= n,
                acc + self.total_sum(p as int) == self.total_sum(0),
                0 <= acc <= self.total_sum(0),
                self.total_sum(0) <= u32::MAX,
            decreases n - p,
        {
            proof {
                self.lemma_total_bounded(p as int);
            }
            let sz = self.size_at_pos(p);
            acc = acc + sz as usize;
            p = p + 1;
        }
        acc
    }

    /// Every suffix sum of page sizes is bounded by the file size, and every
    /// page size is non-negative.
    proof fn lemma_total_bounded(self, p: int)
        requires
            self.wf(),
            0 <= p,
        ensures
            0 <= self.total_sum(p) <= self.spec_file_size(),
            p < self.table_len() ==> self.total_sum(p) == self.spec_file_size()
                - self.spec_offsets()[p],
        decreases self.table_len() - p,
    {
        if p < self.table_len() {
            self.lemma_total_bounded(p + 1);
        }
    }

    /// The live sum is sandwiched between zero and the total.
    proof fn lemma_active_le_total(self, s: Set<u32>, p: int)
        requires
            self.wf(),
            0 <= p,
        ensures
            0 <= self.active_sum(s, p) <= self.total_sum(p),
        decreases self.table_len() - p,
    {
        if p < self.table_len() {
            self.lemma_active_le_total(s, p + 1);
            self.lemma_total_bounded(p);
            if p + 1 < self.table_len() {
                self.lemma_total_bounded(p + 1);
            }
        }
    }

    /// Removing an index that no table position at or past `p` holds, or that
    /// is not in `s`, leaves the live sum unchanged.
    proof fn lemma_active_sum_remove_absent(self, s: Set<u32>, idx: u32, p: int)
        requires
            0 <= p,
            !s.contains(idx) || forall|q: int|
                p <= q < self.table_len() ==> self.spec_indexes()[q] != idx,
        ensures
            self.active_sum(s.remove(idx), p) == self.active_sum(s, p),
        decreases self.table_len() - p,
    {
        if p < self.table_len() {
            self.lemma_active_sum_remove_absent(s, idx, p + 1);
        }
    }

    /// Removing a live index takes exactly that page's size out of the live
    /// sum.
    proof fn lemma_active_sum_remove_present(self, s: Set<u32>, idx: u32, pos: int, p: int)
        requires
            self.wf(),
            0 <= p <= pos < self.table_len(),
            self.spec_indexes()[pos] == idx,
            s.contains(idx),
        ensures
            self.active_sum(s.remove(idx), p) == self.active_sum(s, p) - self.page_size_at(pos),
        decreases self.table_len() - p,
    {
        if p == pos {
            self.lemma_active_sum_remove_absent(s, idx, p + 1);
        } else {
            self.lemma_active_sum_remove_present(s, idx, pos, p + 1);
        }
    }
}

/// The declined fraction of a file's total page bytes, as the exact pair
/// (declined bytes, total page bytes); the rate itself is their quotient.
#[derive(Clone, Copy, Debug, PartialEq, Eq, Structural)]
pub struct DeclineRate {
    pub declined_size: usize,
    pub total_size: usize,
}

/// Mutable liveness state of one live physical file: which page indices are
/// still active, their aggregate byte size, and a shared reference to the
/// file's immutable layout.
pub struct FileInfo {
    active_pages: roaring::RoaringBitmap,
    active_size: usize,
    meta: Arc<FileMeta>,
}

impl FileInfo {
    /// The file's immutable layout.
    pub closed spec fn spec_meta(self) -> FileMeta {
        *self.meta
    }

    /// The set of still-active page indices.
    pub closed spec fn active(self) -> Set<u32> {
        bitmap_contents(self.active_pages)
    }

    /// Aggregate byte size of the still-active pages.
    pub closed spec fn spec_active_size(self) -> int {
        self.active_size as int
    }

    /// The liveness invariant: the layout is sound, every active index is in
    /// the file's table, and `active_size` is exactly the sum of the active
    /// pages' sizes.
    pub open spec fn wf(self) -> bool {
        &&& self.spec_meta().wf()
        &&& forall|idx: u32| self.active().contains(idx) ==> self.spec_meta().has_index(idx)
        &&& self.spec_active_size() == self.spec_meta().active_sum(self.active(), 0)
    }

    /// Builds the liveness state of a freshly written file.
    pub fn new(active_pages: roaring::RoaringBitmap, active_size: usize, meta: Arc<FileMeta>) -> (r:
        Self)
        ensures
            r.active() == bitmap_contents(active_pages),
            r.spec_active_size() == active_size,
            r.spec_meta() == *meta,
    {
        FileInfo { active_pages, active_size, meta }
    }

    /// The owning file's identifier.
    pub fn get_file_id(&self) -> (r: u32)
        ensures
            r == self.spec_meta().spec_file_id(),
    {
        self.meta.get_file_id()
    }

    /// Marks the addressed page as no longer active and takes its size out of
    /// the aggregate; a repeat call on an already-inactive page changes
    /// nothing, so double notifications never double-count. The active size
    /// never grows: the decline rate is monotonically non-decreasing.
    pub fn deactivate_page(&mut self, page_addr: u64)
        requires
            old(self).wf(),
        ensures
            final(self).wf(),
            final(self).spec_meta() == old(self).spec_meta(),
            final(self).active() == old(self).active().remove(page_index(page_addr)),
            final(self).spec_active_size() == old(self).spec_active_size() - (if old(self).active()
                .contains(page_index(page_addr)) {
                old(self).spec_meta().spec_page_size(page_index(page_addr))
            } else {
                0
            }),
            final(self).spec_active_size() <= old(self).spec_active_size(),
    {
        let (_, index) = split_page_addr(page_addr);
        proof {
            assert(index == page_index(page_addr));
        }
        let was_active = bitmap_remove(&mut self.active_pages, index);
        if was_active {
            proof {
                let m = *self.meta;
                let s = old(self).active();
                assert(m.has_index(index));
                let pos = m.pos_of(index);
                assert(m.spec_indexes()[pos] == index);
                m.lemma_active_sum_remove_present(s, index, pos, 0);
                m.lemma_active_le_total(s.remove(index), 0);
                m.lemma_active_le_total(s, 0);
                assert(m.spec_page_size(index) <= old(self).spec_active_size());
            }
            let sz = self.meta.get_page_size(page_addr);
            self.active_size = self.active_size - sz;
        } else {
            proof {
                let m = *self.meta;
                m.lemma_active_sum_remove_absent(old(self).active(), index, 0);
                assert(old(self).active().remove(index) =~= old(self).active());
            }
        }
    }

    /// The physical location of the addressed page, or `None` when the page
    /// is no longer active: the caller must then re-resolve the address
    /// through the up-to-date index rather than retry this stale lookup.
    pub fn get_page_handle(&self, page_addr: u64) -> (r: Option<PageHandle>)
        requires
            self.wf(),
        ensures
            r is Some <==> self.active().contains(page_index(page_addr)),
            r matches Some(h) ==> {
                let m = self.spec_meta();
                let pos = m.pos_of(page_index(page_addr));
                h.offset == m.spec_offsets()[pos] && h.size == m.spec_page_size(
                    page_index(page_addr),
                )
            },
    {
        let (_, index) = split_page_addr(page_addr);
        if bitmap_contains(&self.active_pages, index) {
            match self.meta.find_pos(index) {
                Some(p) => {
                    proof {
                        let m = *self.meta;
                        let q = m.pos_of(index);
                        assert(m.spec_indexes()[q] == index);
                        assert(q == p as int);
                    }
                    let size = self.meta.size_at_pos(p);
                    Some(PageHandle { offset: self.offset_at(p), size })
                },
                None => vstd::pervasive::unreached(),
            }
        } else {
            None
        }
    }

    /// The offset at table position `p`.
    fn offset_at(&self, p: usize) -> (r: u32)
        requires
            self.wf(),
            0 <= p < self.spec_meta().table_len(),
        ensures
            r == self.spec_meta().spec_offsets()[p as int],
    {
        self.meta.offsets[p]
    }

    /// The bytes the engine must still read from this file to reconstruct
    /// every live page: the current aggregate active size.
    pub fn effective_size(&self) -> (r: usize)
        ensures
            r == self.spec_active_size(),
    {
        self.active_size
    }

    /// The declined fraction of the file's total page bytes, as an exact
    /// (declined, total) pair bounded to [0, 1]; files with a higher rate are
    /// better reclamation candidates.
    pub fn decline_rate(&self) -> (r: DeclineRate)
        requires
            self.wf(),
        ensures
            r.declined_size == self.spec_meta().total_sum(0) - self.spec_active_size(),
            r.total_size == self.spec_meta().total_sum(0),
            r.declined_size <= r.total_size,
    {
        proof {
            self.spec_meta().lemma_active_le_total(self.active(), 0);
            self.spec_meta().lemma_total_bounded(0);
        }
        let total = self.meta.total_page_size();
        DeclineRate { declined_size: total - self.active_size, total_size: total }
    }
}

/// Law: for any sequence of page deactivations the decline rate never
/// decreases. Both states share the file layout, so the total is the same
/// denominator; the active size can only have shrunk, so the declined bytes,
/// and with them the declined fraction, can only have grown.
pub proof fn lemma_decline_rate_monotonic(before: FileInfo, after: FileInfo)
    requires
        before.wf(),
        after.wf(),
        after.spec_meta() == before.spec_meta(),
        after.spec_active_size() <= before.spec_active_size(),
    ensures
        before.spec_meta().total_sum(0) - after.spec_active_size() >= before.spec_meta().total_sum(
            0,
        ) - before.spec_active_size(),
        after.spec_active_size() >= 0,
        before.spec_meta().total_sum(0) - before.spec_active_size() >= 0,
{
    before.spec_meta().lemma_active_le_total(before.active(), 0);
    after.spec_meta().lemma_active_le_total(after.active(), 0);
}

} // verus!
