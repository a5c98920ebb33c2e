//! Consolidation iterators over merged page entries: a range-bounded wrapper,
//! the multi-version leaf consolidator, and the inner-page separator
//! consolidator. Each replays its full output after a rewind.
use vstd::prelude::*;

use crate::bytes::bytes_eq;
use crate::bytes::clone_bytes;
use crate::bytes::lex_ge_bytes;
use crate::bytes::lex_le;
use crate::bytes::lex_lt;
use crate::bytes::lex_lt_bytes;
use crate::bytes::lemma_lex_lt_irrefl;
use crate::merge::merge_seqs;
use crate::merge::MergingIter;
use crate::merge::SortedPageKey;
use crate::merge::SortedPageValue;

verus! {

/// The id that no page ever carries: the marker of a placeholder index.
pub const NAN_ID: u64 = 0;

/// A bounding key interval: inclusive start, optional exclusive end.
#[derive(Clone, Copy, Debug)]
pub struct KeyRange<'a> {
    pub start: &'a [u8],
    pub end: Option<&'a [u8]>,
}

/// Related information of a page, borrowed for the duration of one
/// consolidation pass: its logical id, its address, its decoded content, and
/// the key interval that governs it, if any.
#[derive(Clone, Copy, Debug)]
pub struct PageView<'a> {
    pub id: u64,
    pub addr: u64,
    pub page: &'a [u8],
    pub range: Option<KeyRange<'a>>,
}

/// A leaf-page key as contracts see it: raw user key and version stamp.
pub struct KeyView {
    pub raw: Seq<u8>,
    pub lsn: u64,
}

/// A leaf-page key: the raw user key plus the version stamp (LSN) of this
/// entry. Keys order by raw key ascending, then LSN descending, so the
/// newest version of a key comes first.
#[derive(Clone, Debug, PartialEq, Eq)]
pub struct Key {
    pub raw: Vec<u8>,
    pub lsn: u64,
}

impl View for Key {
    type V = KeyView;

    open spec fn view(&self) -> KeyView {
        KeyView { raw: self.raw@, lsn: self.lsn }
    }
}

impl Key {
    /// Bundles a raw key with a version stamp.
    pub fn new(raw: Vec<u8>, lsn: u64) -> (r: Self)
        ensures
            r@.raw == raw@,
            r@.lsn == lsn,
    {
        Key { raw, lsn }
    }
}

impl SortedPageKey for Key {
    open spec fn key_lt(a: KeyView, b: KeyView) -> bool {
        lex_lt(a.raw, b.raw) || (a.raw == b.raw && a.lsn > b.lsn)
    }

    open spec fn raw_part(a: KeyView) -> Seq<u8> {
        a.raw
    }

    fn lt(&self, other: &Self) -> (r: bool) {
        if bytes_eq(self.raw.as_slice(), other.raw.as_slice()) {
            proof {
                lemma_lex_lt_irrefl(self.raw@);
            }
            self.lsn > other.lsn
        } else {
            lex_lt_bytes(self.raw.as_slice(), other.raw.as_slice())
        }
    }

    fn as_raw(&self) -> (r: &[u8]) {
        self.raw.as_slice()
    }

    fn dup(&self) -> (r: Self) {
        Key { raw: clone_bytes(&self.raw), lsn: self.lsn }
    }
}

/// A leaf-page value as contracts see it.
pub enum ValueView {
    Put(Seq<u8>),
    Delete,
}

/// A leaf-page value: a written value, or the tombstone of a deleted key.
#[derive(Clone, Debug, PartialEq, Eq)]
pub enum Value {
    Put(Vec<u8>),
    Delete,
}

impl View for Value {
    type V = ValueView;

    open spec fn view(&self) -> ValueView {
        match self {
            Value::Put(v) => ValueView::Put(v@),
            Value::Delete => ValueView::Delete,
        }
    }
}

impl SortedPageValue for Value {
    fn dup(&self) -> (r: Self) {
        match self {
            Value::Put(v) => Value::Put(clone_bytes(v)),
            Value::Delete => Value::Delete,
        }
    }
}

/// Inner pages use the raw separator byte string itself as the key.
impl SortedPageKey for Vec<u8> {
    open spec fn key_lt(a: Seq<u8>, b: Seq<u8>) -> bool {
        lex_lt(a, b)
    }

    open spec fn raw_part(a: Seq<u8>) -> Seq<u8> {
        a
    }

    fn lt(&self, other: &Self) -> (r: bool) {
        lex_lt_bytes(self.as_slice(), other.as_slice())
    }

    fn as_raw(&self) -> (r: &[u8]) {
        self.as_slice()
    }

    fn dup(&self) -> (r: Self) {
        clone_bytes(self)
    }
}

/// An inner-page routing entry: the child page's id and epoch.
#[derive(Clone, Copy, Debug, PartialEq, Eq, Structural)]
pub struct Index {
    pub id: u64,
    pub epoch: u64,
}

/// The placeholder routing entry: a separator logically removed by a later
/// delta routes nowhere.
pub open spec fn null_index() -> Index {
    Index { id: NAN_ID, epoch: 0 }
}

impl View for Index {
    type V = Index;

    open spec fn view(&self) -> Index {
        *self
    }
}

impl Index {
    /// Bundles a child id with an epoch.
    pub fn new(id: u64, epoch: u64) -> (r: Self)
        ensures
            r == (Index { id, epoch }),
    {
        Index { id, epoch }
    }

    /// The placeholder routing entry.
    pub fn null() -> (r: Self)
        ensures
            r == null_index(),
    {
        Index { id: NAN_ID, epoch: 0 }
    }
}

impl SortedPageValue for Index {
    fn dup(&self) -> (r: Self) {
        *self
    }
}

/// `s` cut off at the first entry whose raw key reaches the exclusive upper
/// bound, when there is one.
pub open spec fn bounded_by<K: SortedPageKey, VV>(
    s: Seq<(K::V, VV)>,
    limit: Option<Seq<u8>>,
) -> Seq<(K::V, VV)>
    decreases s.len(),
{
    if s.len() == 0 {
        Seq::empty()
    } else {
        match limit {
            Some(l) => if lex_le(l, K::raw_part(s[0].0)) {
                Seq::empty()
            } else {
                seq![s[0]] + bounded_by::<K, VV>(s.skip(1), limit)
            },
            None => seq![s[0]] + bounded_by::<K, VV>(s.skip(1), limit),
        }
    }
}

/// Wraps a merge with an optional exclusive upper bound on the raw key: once
/// a produced key reaches the bound, iteration ends early.
pub struct MergingPageIter<K: SortedPageKey, V: SortedPageValue> {
    iter: MergingIter<K, V>,
    range_limit: Option<Vec<u8>>,
}

impl<K: SortedPageKey, V: SortedPageValue> MergingPageIter<K, V> {
    /// The full entry sequences of the source pages.
    pub closed spec fn inputs(self) -> Seq<Seq<(K::V, V::V)>> {
        self.iter.inputs()
    }

    /// The exclusive upper bound on raw keys, if any.
    pub closed spec fn limit(self) -> Option<Seq<u8>> {
        match self.range_limit {
            Some(l) => Some(l@),
            None => None,
        }
    }

    /// The wrapped merge is well formed.
    pub closed spec fn wf(self) -> bool {
        self.iter.wf()
    }

    /// What the wrapped merge has yet to emit.
    pub closed spec fn rem_merged(self) -> Seq<(K::V, V::V)> {
        self.iter.merged()
    }

    /// How many entries the wrapped merge has yet to emit.
    pub open spec fn rem_count(self) -> nat {
        self.rem_merged().len()
    }

    /// The bounded sequence still to be emitted.
    pub open spec fn out(self) -> Seq<(K::V, V::V)> {
        bounded_by::<K, V::V>(self.rem_merged(), self.limit())
    }

    /// The bounded sequence a freshly built or rewound iterator emits.
    pub open spec fn full_out(self) -> Seq<(K::V, V::V)> {
        bounded_by::<K, V::V>(merge_seqs::<K, V::V>(self.inputs()), self.limit())
    }

    /// Bounds a merge by an optional exclusive upper raw key.
    pub fn new(iter: MergingIter<K, V>, range_limit: Option<Vec<u8>>) -> (r: Self)
        ensures
            r.inputs() == iter.inputs(),
            r.limit() == range_limit.deep_view(),
            r.rem_merged() == iter.merged(),
            iter.wf() ==> r.wf(),
    {
        MergingPageIter { iter, range_limit }
    }

    /// Emits the next merged entry under the bound; an entry at or past the
    /// bound ends the iteration.
    pub fn next(&mut self) -> (r: Option<(K, V)>)
        requires
            old(self).wf(),
        ensures
            final(self).wf(),
            final(self).inputs() == old(self).inputs(),
            final(self).limit() == old(self).limit(),
            final(self).rem_count() <= old(self).rem_count(),
            r is Some ==> final(self).rem_count() < old(self).rem_count(),
            old(self).out().len() > 0 ==> {
                &&& r matches Some(e) && (e.0@, e.1@) == old(self).out()[0]
                &&& final(self).out() == old(self).out().skip(1)
            },
            old(self).out().len() == 0 ==> r is None,
    {
        let ghost pre = self.rem_merged();
        let ghost lim = self.limit();
        match self.iter.next() {
            None => {
                proof {
                    assert(pre.len() == 0);
                }
                None
            },
            Some((k, v)) => {
                proof {
                    assert(pre.len() > 0);
                    assert((k@, v@) == pre[0]);
                    assert(self.rem_merged() == pre.skip(1));
                }
                let over = match &self.range_limit {
                    Some(limit) => lex_ge_bytes(k.as_raw(), limit.as_slice()),
                    None => false,
                };
                if over {
                    proof {
                        assert(lim matches Some(l) && lex_le(l, K::raw_part(pre[0].0)));
                        assert(bounded_by::<K, V::V>(pre, lim) == Seq::<(K::V, V::V)>::empty());
                    }
                    None
                } else {
                    proof {
                        assert(bounded_by::<K, V::V>(pre, lim) == seq![pre[0]] + bounded_by::<
                            K,
                            V::V,
                        >(pre.skip(1), lim));
                        assert(bounded_by::<K, V::V>(pre, lim)[0] == pre[0]);
                        assert(bounded_by::<K, V::V>(pre, lim).skip(1) =~= bounded_by::<K, V::V>(
                            pre.skip(1),
                            lim,
                        ));
                    }
                    Some((k, v))
                }
            },
        }
    }

    /// Restarts the bounded iteration from the first merged entry.
    pub fn rewind(&mut self)
        requires
            old(self).wf(),
        ensures
            final(self).wf(),
            final(self).inputs() == old(self).inputs(),
            final(self).limit() == old(self).limit(),
            final(self).out() == final(self).full_out(),
    {
        self.iter.rewind();
    }
}

/// The leaf consolidation of `s` at the safe-LSN watermark, continuing from a
/// state that has last seen raw key `last` (with `skip` set once the oldest
/// visible version of that key has passed): every version newer than the
/// watermark survives, plus the single newest version at or below it unless
/// that floor version is a tombstone.
pub open spec fn leaf_consolidated(
    s: Seq<(KeyView, ValueView)>,
    safe_lsn: u64,
    last: Option<Seq<u8>>,
    skip: bool,
) -> Seq<(KeyView, ValueView)>
    decreases s.len(),
{
    if s.len() == 0 {
        Seq::empty()
    } else {
        let k = s[0].0;
        let v = s[0].1;
        let rest = s.skip(1);
        if last matches Some(l) && k.raw == l {
            if skip {
                leaf_consolidated(rest, safe_lsn, last, true)
            } else if k.lsn > safe_lsn {
                seq![s[0]] + leaf_consolidated(rest, safe_lsn, last, false)
            } else if v is Put {
                seq![s[0]] + leaf_consolidated(rest, safe_lsn, last, true)
            } else {
                leaf_consolidated(rest, safe_lsn, last, true)
            }
        } else {
            let nskip = k.lsn <= safe_lsn;
            if v is Delete && k.lsn <= safe_lsn {
                leaf_consolidated(rest, safe_lsn, Some(k.raw), nskip)
            } else {
                seq![s[0]] + leaf_consolidated(rest, safe_lsn, Some(k.raw), nskip)
            }
        }
    }
}

/// Merges and consolidates leaf pages: keeps every version still visible
/// above the safe LSN and at most one floor version per key at or below it,
/// dropping that floor when it is a tombstone.
pub struct MergingLeafPageIter {
    iter: MergingPageIter<Key, Value>,
    safe_lsn: u64,
    last_raw: Option<Vec<u8>>,
    skip_same_raw: bool,
}

impl MergingLeafPageIter {
    /// The full entry sequences of the source pages.
    pub closed spec fn inputs(self) -> Seq<Seq<(KeyView, ValueView)>> {
        self.iter.inputs()
    }

    /// The exclusive upper bound on raw keys, if any.
    pub closed spec fn limit(self) -> Option<Seq<u8>> {
        self.iter.limit()
    }

    /// The safe-LSN watermark.
    pub closed spec fn safe(self) -> u64 {
        self.safe_lsn
    }

    /// The raw key of the last emitted-or-considered entry.
    pub closed spec fn last(self) -> Option<Seq<u8>> {
        match self.last_raw {
            Some(l) => Some(l@),
            None => None,
        }
    }

    /// Whether every further version of `last` is superseded garbage.
    pub closed spec fn skip_flag(self) -> bool {
        self.skip_same_raw
    }

    /// The wrapped bounded merge is well formed.
    pub closed spec fn wf(self) -> bool {
        self.iter.wf()
    }

    /// What the wrapped bounded merge has yet to emit.
    pub closed spec fn iter_out(self) -> Seq<(KeyView, ValueView)> {
        self.iter.out()
    }

    /// The consolidated sequence still to be emitted.
    pub open spec fn out(self) -> Seq<(KeyView, ValueView)> {
        leaf_consolidated(self.iter_out(), self.safe(), self.last(), self.skip_flag())
    }

    /// The consolidated sequence a freshly built or rewound iterator emits: a
    /// function of the source pages, the bound and the safe LSN alone.
    pub closed spec fn full_out(self) -> Seq<(KeyView, ValueView)> {
        leaf_consolidated(self.iter.full_out(), self.safe_lsn, None, false)
    }

    /// Consolidates a bounded merge of leaf pages at a safe-LSN watermark.
    pub fn new(iter: MergingPageIter<Key, Value>, safe_lsn: u64) -> (r: Self)
        ensures
            r.inputs() == iter.inputs(),
            r.limit() == iter.limit(),
            r.safe() == safe_lsn,
            r.out() == leaf_consolidated(iter.out(), safe_lsn, None, false),
            iter.wf() ==> r.wf(),
    {
        MergingLeafPageIter { iter, safe_lsn, last_raw: None, skip_same_raw: false }
    }

    /// Emits the next surviving version.
    pub fn next(&mut self) -> (r: Option<(Key, Value)>)
        requires
            old(self).wf(),
        ensures
            final(self).wf(),
            final(self).inputs() == old(self).inputs(),
            final(self).limit() == old(self).limit(),
            final(self).safe() == old(self).safe(),
            old(self).out().len() > 0 ==> {
                &&& r matches Some(e) && (e.0@, e.1@) == old(self).out()[0]
                &&& final(self).out() == old(self).out().skip(1)
            },
            old(self).out().len() == 0 ==> r is None,
    {
        loop
            invariant
                self.wf(),
                self.inputs() == old(self).inputs(),
                self.limit() == old(self).limit(),
                self.safe() == old(self).safe(),
                self.out() == old(self).out(),
            decreases self.iter.rem_count(),
        {
            let ghost pre = self.iter.out();
            let ghost plast = self.last();
            let ghost pskip = self.skip_same_raw;
            match self.iter.next() {
                None => {
                    proof {
                        assert(pre.len() == 0);
                    }
                    return None;
                },
                Some((k, v)) => {
                    proof {
                        assert(pre.len() > 0);
                        assert((k@, v@) == pre[0]);
                        assert(self.iter.out() == pre.skip(1));
                    }
                    let same = match &self.last_raw {
                        Some(l) => bytes_eq(k.raw.as_slice(), l.as_slice()),
                        None => false,
                    };
                    if same {
                        if self.skip_same_raw {
                            proof {
                                assert(self.out() == leaf_consolidated(
                                    pre,
                                    self.safe_lsn,
                                    plast,
                                    pskip,
                                ));
                            }
                        } else if k.lsn > self.safe_lsn {
                            proof {
                                assert(leaf_consolidated(pre, self.safe_lsn, plast, pskip)
                                    == seq![pre[0]] + self.out());
                                assert(leaf_consolidated(pre, self.safe_lsn, plast, pskip).skip(1)
                                    =~= self.out());
                            }
                            return Some((k, v));
                        } else {
                            self.skip_same_raw = true;
                            match &v {
                                Value::Put(_) => {
                                    proof {
                                        assert(leaf_consolidated(pre, self.safe_lsn, plast, pskip)
                                            == seq![pre[0]] + self.out());
                                        assert(leaf_consolidated(
                                            pre,
                                            self.safe_lsn,
                                            plast,
                                            pskip,
                                        ).skip(1) =~= self.out());
                                    }
                                    return Some((k, v));
                                },
                                Value::Delete => {
                                    proof {
                                        assert(self.out() == leaf_consolidated(
                                            pre,
                                            self.safe_lsn,
                                            plast,
                                            pskip,
                                        ));
                                    }
                                },
                            }
                        }
                    } else {
                        let below = k.lsn <= self.safe_lsn;
                        self.skip_same_raw = below;
                        self.last_raw = Some(clone_bytes(&k.raw));
                        let drop_it = below && (match &v {
                            Value::Delete => true,
                            Value::Put(_) => false,
                        });
                        if !drop_it {
                            proof {
                                assert(leaf_consolidated(pre, self.safe_lsn, plast, pskip)
                                    == seq![pre[0]] + self.out());
                                assert(leaf_consolidated(pre, self.safe_lsn, plast, pskip).skip(1)
                                    =~= self.out());
                            }
                            return Some((k, v));
                        }
                        proof {
                            assert(self.out() == leaf_consolidated(
                                pre,
                                self.safe_lsn,
                                plast,
                                pskip,
                            ));
                        }
                    }
                },
            }
        }
    }

    /// Restarts consolidation from the first merged entry; the full
    /// consolidated sequence replays unchanged.
    pub fn rewind(&mut self)
        requires
            old(self).wf(),
        ensures
            final(self).wf(),
            final(self).inputs() == old(self).inputs(),
            final(self).limit() == old(self).limit(),
            final(self).safe() == old(self).safe(),
            final(self).out() == final(self).full_out(),
    {
        self.iter.rewind();
        self.last_raw = None;
        self.skip_same_raw = false;
    }
}

/// The inner-page consolidation of `s`, continuing from a state that has
/// last emitted the separator `last`: placeholder entries vanish, and of the
/// surviving duplicates of each separator only the first (the newest delta's
/// routing entry) remains.
pub open spec fn inner_consolidated(
    s: Seq<(Seq<u8>, Index)>,
    last: Option<Seq<u8>>,
) -> Seq<(Seq<u8>, Index)>
    decreases s.len(),
{
    if s.len() == 0 {
        Seq::empty()
    } else {
        let rest = s.skip(1);
        if s[0].1 == null_index() {
            inner_consolidated(rest, last)
        } else if last matches Some(l) && s[0].0 == l {
            inner_consolidated(rest, last)
        } else {
            seq![s[0]] + inner_consolidated(rest, Some(s[0].0))
        }
    }
}

/// Merges and consolidates inner pages: drops placeholder routing entries
/// and keeps one routing entry per separator, the newest delta's.
pub struct MergingInnerPageIter {
    iter: MergingPageIter<Vec<u8>, Index>,
    last_raw: Option<Vec<u8>>,
}

impl MergingInnerPageIter {
    /// The full entry sequences of the source pages.
    pub closed spec fn inputs(self) -> Seq<Seq<(Seq<u8>, Index)>> {
        self.iter.inputs()
    }

    /// The exclusive upper bound on separators, if any.
    pub closed spec fn limit(self) -> Option<Seq<u8>> {
        self.iter.limit()
    }

    /// The last emitted separator.
    pub closed spec fn last(self) -> Option<Seq<u8>> {
        match self.last_raw {
            Some(l) => Some(l@),
            None => None,
        }
    }

    /// The wrapped bounded merge is well formed.
    pub closed spec fn wf(self) -> bool {
        self.iter.wf()
    }

    /// What the wrapped bounded merge has yet to emit.
    pub closed spec fn iter_out(self) -> Seq<(Seq<u8>, Index)> {
        self.iter.out()
    }

    /// The consolidated sequence still to be emitted.
    pub open spec fn out(self) -> Seq<(Seq<u8>, Index)> {
        inner_consolidated(self.iter_out(), self.last())
    }

    /// The consolidated sequence a freshly built or rewound iterator emits: a
    /// function of the source pages and the bound alone.
    pub closed spec fn full_out(self) -> Seq<(Seq<u8>, Index)> {
        inner_consolidated(self.iter.full_out(), None)
    }

    /// Consolidates a bounded merge of inner pages.
    pub fn new(iter: MergingPageIter<Vec<u8>, Index>) -> (r: Self)
        ensures
            r.inputs() == iter.inputs(),
            r.limit() == iter.limit(),
            r.out() == inner_consolidated(iter.out(), None),
            iter.wf() ==> r.wf(),
    {
        MergingInnerPageIter { iter, last_raw: None }
    }

    /// Emits the next surviving routing entry.
    pub fn next(&mut self) -> (r: Option<(Vec<u8>, Index)>)
        requires
            old(self).wf(),
        ensures
            final(self).wf(),
            final(self).inputs() == old(self).inputs(),
            final(self).limit() == old(self).limit(),
            old(self).out().len() > 0 ==> {
                &&& r matches Some(e) && (e.0@, e.1) == old(self).out()[0]
                &&& final(self).out() == old(self).out().skip(1)
            },
            old(self).out().len() == 0 ==> r is None,
    {
        loop
            invariant
                self.wf(),
                self.inputs() == old(self).inputs(),
                self.limit() == old(self).limit(),
                self.out() == old(self).out(),
            decreases self.iter.rem_count(),
        {
            let ghost pre = self.iter.out();
            let ghost plast = self.last();
            match self.iter.next() {
                None => {
                    proof {
                        assert(pre.len() == 0);
                    }
                    return None;
                },
                Some((start, index)) => {
                    proof {
                        assert(pre.len() > 0);
                        assert((start@, index) == pre[0]);
                        assert(self.iter.out() == pre.skip(1));
                    }
                    if index == Index::null() {
                        proof {
                            assert(self.out() == inner_consolidated(pre, plast));
                        }
                    } else {
                        let same = match &self.last_raw {
                            Some(l) => bytes_eq(start.as_slice(), l.as_slice()),
                            None => false,
                        };
                        if same {
                            proof {
                                assert(self.out() == inner_consolidated(pre, plast));
                            }
                        } else {
                            self.last_raw = Some(clone_bytes(&start));
                            proof {
                                assert(inner_consolidated(pre, plast) == seq![pre[0]]
                                    + self.out());
                                assert(inner_consolidated(pre, plast).skip(1) =~= self.out());
                            }
                            return Some((start, index));
                        }
                    }
                },
            }
        }
    }

    /// Restarts consolidation from the first merged entry; the full
    /// consolidated sequence replays unchanged.
    pub fn rewind(&mut self)
        requires
            old(self).wf(),
        ensures
            final(self).wf(),
            final(self).inputs() == old(self).inputs(),
            final(self).limit() == old(self).limit(),
            final(self).out() == final(self).full_out(),
    {
        self.iter.rewind();
        self.last_raw = None;
    }
}

/// Law: rewinding a range-bounded merge replays identical output: its full
/// output is a function of the source pages and the bound alone.
pub proof fn lemma_page_iter_replays<K: SortedPageKey, V: SortedPageValue>(
    a: MergingPageIter<K, V>,
    b: MergingPageIter<K, V>,
)
    requires
        a.inputs() == b.inputs(),
        a.limit() == b.limit(),
    ensures
        a.full_out() == b.full_out(),
{
}

/// Law: rewinding a leaf consolidation replays identical output: its full
/// output is a function of the source pages, the bound and the safe LSN
/// alone.
pub proof fn lemma_leaf_iter_replays(a: MergingLeafPageIter, b: MergingLeafPageIter)
    requires
        a.inputs() == b.inputs(),
        a.limit() == b.limit(),
        a.safe() == b.safe(),
    ensures
        a.full_out() == b.full_out(),
{
}

/// Law: rewinding an inner consolidation replays identical output: its full
/// output is a function of the source pages and the bound alone.
pub proof fn lemma_inner_iter_replays(a: MergingInnerPageIter, b: MergingInnerPageIter)
    requires
        a.inputs() == b.inputs(),
        a.limit() == b.limit(),
    ensures
        a.full_out() == b.full_out(),
{
}

} // verus!
