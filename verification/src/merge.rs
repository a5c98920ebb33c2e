//! Generic k-way merge over already-sorted page entry sequences.
//!
//! `MergingIter` merges the entries of several decoded pages into one
//! sequence, selecting at each step the least key under the key type's
//! order; among equal keys the page that was added first wins, so the
//! newest delta's entry is emitted ahead of older ones.
use vstd::prelude::*;

verus! {

/// A key of a sorted page entry: ordered for merging, and carrying a raw
/// byte-string part that range bounds compare against.
pub trait SortedPageKey: View + Sized {
    /// The merge order on key views: `a` strictly before `b`.
    spec fn key_lt(a: Self::V, b: Self::V) -> bool;

    /// The raw byte-string part of a key view.
    spec fn raw_part(a: Self::V) -> Seq<u8>;

    /// Decides the merge order on two keys.
    fn lt(&self, other: &Self) -> (r: bool)
        ensures
            r == Self::key_lt(self@, other@),
    ;

    /// The raw byte-string part of this key.
    fn as_raw(&self) -> (r: &[u8])
        ensures
            r@ == Self::raw_part(self@),
    ;

    /// An owned copy with the same view.
    fn dup(&self) -> (r: Self)
        ensures
            r@ == self@,
    ;
}

/// A value of a sorted page entry.
pub trait SortedPageValue: View + Sized {
    /// An owned copy with the same view.
    fn dup(&self) -> (r: Self)
        ensures
            r@ == self@,
    ;
}

/// The sorted entries of one decoded page, in page order.
pub struct SortedPageIter<K, V> {
    entries: Vec<(K, V)>,
}

impl<K: SortedPageKey, V: SortedPageValue> View for SortedPageIter<K, V> {
    type V = Seq<(K::V, V::V)>;

    closed spec fn view(&self) -> Seq<(K::V, V::V)> {
        self.entries@.map(|i: int, e: (K, V)| (e.0@, e.1@))
    }
}

impl<K: SortedPageKey, V: SortedPageValue> SortedPageIter<K, V> {
    /// Wraps the entries of one decoded page.
    pub fn new(entries: Vec<(K, V)>) -> (r: Self)
        ensures
            r@ == entries@.map(|i: int, e: (K, V)| (e.0@, e.1@)),
    {
        SortedPageIter { entries }
    }
}

/// Sum of the lengths of all the sequences.
pub open spec fn total_len<T>(ss: Seq<Seq<T>>) -> nat
    decreases ss.len(),
{
    if ss.len() == 0 {
        0
    } else {
        ss[0].len() + total_len(ss.skip(1))
    }
}

proof fn lemma_total_len_update<T>(ss: Seq<Seq<T>>, i: int, t: Seq<T>)
    requires
        0 <= i < ss.len(),
    ensures
        total_len(ss.update(i, t)) == total_len(ss) - ss[i].len() + t.len(),
    decreases ss.len(),
{
    if i == 0 {
        assert(ss.update(0, t).skip(1) =~= ss.skip(1));
        assert(ss.update(0, t)[0] == t);
    } else {
        lemma_total_len_update(ss.skip(1), i - 1, t);
        assert(ss.update(i, t).skip(1) =~= ss.skip(1).update(i - 1, t));
        assert(ss.update(i, t)[0] == ss[0]);
    }
}

/// The index of the source whose head entry the merge emits next, found by a
/// left-to-right scan from position `j` with `best` the best source so far:
/// a later source displaces the best only with a strictly smaller key, so
/// among equal keys the earliest-added source wins. Negative when every
/// source from `j` on is exhausted and `best` is negative.
pub open spec fn pick_from<K: SortedPageKey, VV>(
    ss: Seq<Seq<(K::V, VV)>>,
    j: int,
    best: int,
) -> int
    decreases ss.len() - j,
{
    if j < 0 || j >= ss.len() {
        best
    } else if ss[j].len() == 0 {
        pick_from::<K, VV>(ss, j + 1, best)
    } else if best < 0 || ss[best].len() == 0 {
        pick_from::<K, VV>(ss, j + 1, j)
    } else if K::key_lt(ss[j][0].0, ss[best][0].0) {
        pick_from::<K, VV>(ss, j + 1, j)
    } else {
        pick_from::<K, VV>(ss, j + 1, best)
    }
}

/// The source the merge draws from next, or negative when all are exhausted.
pub open spec fn pick<K: SortedPageKey, VV>(ss: Seq<Seq<(K::V, VV)>>) -> int {
    pick_from::<K, VV>(ss, 0, -1)
}

proof fn lemma_pick_from_range<K: SortedPageKey, VV>(ss: Seq<Seq<(K::V, VV)>>, j: int, best: int)
    requires
        0 <= j <= ss.len(),
        best < ss.len(),
        best >= 0 ==> ss[best].len() > 0,
    ensures
        pick_from::<K, VV>(ss, j, best) < ss.len(),
        pick_from::<K, VV>(ss, j, best) >= 0 ==> ss[pick_from::<K, VV>(ss, j, best)].len() > 0,
        pick_from::<K, VV>(ss, j, best) >= 0 || best < 0,
    decreases ss.len() - j,
{
    if j < ss.len() {
        if ss[j].len() == 0 {
            lemma_pick_from_range::<K, VV>(ss, j + 1, best);
        } else if best < 0 || ss[best].len() == 0 {
            lemma_pick_from_range::<K, VV>(ss, j + 1, j);
        } else if K::key_lt(ss[j][0].0, ss[best][0].0) {
            lemma_pick_from_range::<K, VV>(ss, j + 1, j);
        } else {
            lemma_pick_from_range::<K, VV>(ss, j + 1, best);
        }
    }
}

/// The merged sequence: repeatedly emit the head entry of the picked source.
pub open spec fn merge_seqs<K: SortedPageKey, VV>(ss: Seq<Seq<(K::V, VV)>>) -> Seq<(K::V, VV)>
    decreases total_len(ss),
    via merge_seqs_decreases::<K, VV>
{
    let i = pick::<K, VV>(ss);
    if i < 0 {
        Seq::empty()
    } else {
        seq![ss[i][0]] + merge_seqs::<K, VV>(ss.update(i, ss[i].skip(1)))
    }
}

#[via_fn]
proof fn merge_seqs_decreases<K: SortedPageKey, VV>(ss: Seq<Seq<(K::V, VV)>>) {
    let i = pick::<K, VV>(ss);
    if i >= 0 {
        lemma_pick_from_range::<K, VV>(ss, 0, -1);
        lemma_total_len_update(ss, i, ss[i].skip(1));
    }
}

/// Collects the per-page iterators whose entries one `MergingIter` merges.
pub struct MergingIterBuilder<K, V> {
    children: Vec<SortedPageIter<K, V>>,
}

impl<K: SortedPageKey, V: SortedPageValue> MergingIterBuilder<K, V> {
    /// The collected pages' entry sequences, in the order they were added.
    pub closed spec fn pages(self) -> Seq<Seq<(K::V, V::V)>> {
        self.children@.map(|i: int, c: SortedPageIter<K, V>| c@)
    }

    /// An empty builder.
    pub fn new() -> (r: Self)
        ensures
            r.pages() == Seq::<Seq<(K::V, V::V)>>::empty(),
    {
        let r = MergingIterBuilder::<K, V> { children: Vec::new() };
        proof {
            assert(r.pages() =~= Seq::<Seq<(K::V, V::V)>>::empty());
        }
        r
    }

    /// Adds one page's sorted entries; earlier additions take priority among
    /// equal keys, so pages are added newest delta first.
    pub fn add(&mut self, child: SortedPageIter<K, V>)
        ensures
            final(self).pages() == old(self).pages().push(child@),
    {
        let ghost c = child@;
        self.children.push(child);
        proof {
            assert(self.pages() =~= old(self).pages().push(c));
        }
    }

    /// Builds the merging iterator, positioned at the start.
    pub fn build(self) -> (r: MergingIter<K, V>)
        ensures
            r.wf(),
            r.inputs() == self.pages(),
            r.merged() == merge_seqs::<K, V::V>(self.pages()),
    {
        let ghost pages = self.pages();
        let mut cursors: Vec<usize> = Vec::new();
        let n = self.children.len();
        let mut i: usize = 0;
        while i < n
            invariant
                i <= n,
                cursors@.len() == i,
                forall|j: int| 0 <= j < i ==> cursors@[j] == 0usize,
            decreases n - i,
        {
            cursors.push(0);
            i = i + 1;
        }
        let r = MergingIter { children: self.children, cursors };
        proof {
            assert(r.inputs() =~~= pages);
            assert(r.rems() =~~= r.inputs());
        }
        r
    }
}

/// Merges the entries of several sorted pages into one globally ordered
/// sequence, with equal keys emitted in the order their pages were added.
/// Rewinding replays the same merged sequence from the start without
/// re-reading the pages.
pub struct MergingIter<K, V> {
    children: Vec<SortedPageIter<K, V>>,
    cursors: Vec<usize>,
}

impl<K: SortedPageKey, V: SortedPageValue> MergingIter<K, V> {
    /// One cursor per source page, none past its page's end.
    pub closed spec fn wf(self) -> bool {
        &&& self.cursors@.len() == self.children@.len()
        &&& forall|i: int|
            0 <= i < self.children@.len() ==> self.cursors@[i] <= (#[trigger] self.children@[i])@.len()
    }

    /// The full entry sequences of the source pages.
    pub closed spec fn inputs(self) -> Seq<Seq<(K::V, V::V)>> {
        self.children@.map(|i: int, c: SortedPageIter<K, V>| c@)
    }

    /// What remains of each source past its cursor.
    pub closed spec fn rems(self) -> Seq<Seq<(K::V, V::V)>> {
        Seq::new(
            self.children@.len(),
            |i: int| self.children@[i]@.skip(self.cursors@[i] as int),
        )
    }

    /// The merged sequence still to be emitted.
    pub open spec fn merged(self) -> Seq<(K::V, V::V)> {
        merge_seqs::<K, V::V>(self.rems())
    }

    /// Emits the next entry of the merged sequence: the least remaining head
    /// key, from the earliest-added source among ties.
    pub fn next(&mut self) -> (r: Option<(K, V)>)
        requires
            old(self).wf(),
        ensures
            final(self).wf(),
            final(self).inputs() == old(self).inputs(),
            old(self).merged().len() == 0 ==> r is None && *final(self) == *old(self),
            old(self).merged().len() > 0 ==> {
                &&& r matches Some(e) && (e.0@, e.1@) == old(self).merged()[0]
                &&& final(self).merged() == old(self).merged().skip(1)
                &&& final(self).merged().len() == old(self).merged().len() - 1
            },
    {
        let ghost orems = self.rems();
        let n = self.children.len();
        let mut best: usize = 0;
        let mut found: bool = false;
        let mut j: usize = 0;
        while j < n
            invariant
                self.wf(),
                n == self.children@.len(),
                j <= n,
                found ==> best < j && orems[best as int].len() > 0,
                !found ==> pick::<K, V::V>(orems) == pick_from::<K, V::V>(orems, j as int, -1),
                found ==> pick::<K, V::V>(orems) == pick_from::<K, V::V>(
                    orems,
                    j as int,
                    best as int,
                ),
                orems == self.rems(),
                orems.len() == n,
            decreases n - j,
        {
            let cur = self.cursors[j];
            proof {
                assert(orems[j as int] == self.children@[j as int]@.skip(cur as int));
            }
            if cur < self.children[j].entries.len() {
                proof {
                    assert(orems[j as int].len() > 0);
                    assert(orems[j as int][0] == (
                        self.children@[j as int].entries@[cur as int].0@,
                        self.children@[j as int].entries@[cur as int].1@,
                    ));
                }
                if !found {
                    best = j;
                    found = true;
                } else {
                    let bcur = self.cursors[best];
                    proof {
                        assert(orems[best as int][0] == (
                            self.children@[best as int].entries@[bcur as int].0@,
                            self.children@[best as int].entries@[bcur as int].1@,
                        ));
                    }
                    if self.children[j].entries[cur].0.lt(&self.children[best].entries[bcur].0) {
                        best = j;
                    }
                }
            } else {
                proof {
                    assert(orems[j as int].len() == 0);
                }
            }
            j = j + 1;
        }
        if !found {
            proof {
                assert(pick::<K, V::V>(orems) == -1);
                assert(self.merged().len() == 0);
            }
            return None;
        }
        proof {
            assert(pick::<K, V::V>(orems) == best as int);
        }
        let cur = self.cursors[best];
        proof {
            assert(orems[best as int].len() > 0);
            assert(orems[best as int] == self.children@[best as int]@.skip(cur as int));
            assert(self.children@[best as int]@.len() == self.children@[
                best as int
            ].entries@.len());
            assert(cur < self.children@[best as int].entries@.len());
        }
        let elen = self.children[best].entries.len();
        proof {
            assert(cur < elen);
        }
        let k = self.children[best].entries[cur].0.dup();
        let v = self.children[best].entries[cur].1.dup();
        self.cursors[best] = cur + 1;
        proof {
            let b = best as int;
            assert(self.rems()[b] =~= orems[b].skip(1)) by {
                assert(self.children@[b]@.skip(cur as int).skip(1) =~= self.children@[b]@.skip(
                    cur as int + 1,
                ));
            }
            assert(self.rems() =~~= orems.update(b, orems[b].skip(1)));
            assert((k@, v@) == orems[b][0]);
            assert(merge_seqs::<K, V::V>(orems) == seq![orems[b][0]] + merge_seqs::<K, V::V>(
                orems.update(b, orems[b].skip(1)),
            ));
            assert(merge_seqs::<K, V::V>(orems)[0] == orems[b][0]);
            assert(merge_seqs::<K, V::V>(orems).skip(1) =~= merge_seqs::<K, V::V>(self.rems()));
            assert(self.inputs() =~~= old(self).inputs());
        }
        Some((k, v))
    }

    /// Restarts the merge: every source is rewound to its first entry and the
    /// full merged sequence replays.
    pub fn rewind(&mut self)
        requires
            old(self).wf(),
        ensures
            final(self).wf(),
            final(self).inputs() == old(self).inputs(),
            final(self).merged() == merge_seqs::<K, V::V>(old(self).inputs()),
    {
        let n = self.cursors.len();
        let mut i: usize = 0;
        while i < n
            invariant
                old(self).wf(),
                n == self.cursors@.len(),
                i <= n,
                self.children == old(self).children,
                self.cursors@.len() == n,
                forall|j: int| 0 <= j < i ==> self.cursors@[j] == 0usize,
                forall|j: int| i <= j < n ==> self.cursors@[j] == old(self).cursors@[j],
            decreases n - i,
        {
            self.cursors[i] = 0;
            i = i + 1;
        }
        proof {
            assert(self.rems() =~~= self.inputs());
            assert(self.inputs() =~~= old(self).inputs());
        }
    }
}

} // verus!
