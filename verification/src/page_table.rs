//! The page table of one address space.
//!
//! Maps virtual page numbers to physical frames together with the
//! permission the mapping carries. Abstractly the table is a finite map
//! from page number to `(frame, permission)`; the executable form is a
//! list of entries with pairwise distinct page numbers.

use vstd::prelude::*;
use crate::frame::frame_in_range;
use crate::perm::MapPermission;

verus! {

/// One installed mapping: a virtual page backed by a physical frame.
#[derive(Clone, Copy, PartialEq, Eq, Structural, Debug)]
pub struct PageTableEntry {
    /// Virtual page number.
    pub vpn: usize,
    /// Physical frame number backing the page.
    pub ppn: usize,
    /// Permission of the mapping.
    pub perm: MapPermission,
}

/// Page table: virtual page number to physical frame and permission.
pub struct PageTable {
    entries: Vec<PageTableEntry>,
}

impl PageTable {
    /// The entries as stored.
    pub closed spec fn entries_seq(&self) -> Seq<PageTableEntry> {
        self.entries@
    }

    /// Entries carry pairwise distinct page numbers, and every frame in the
    /// table is small enough that its byte addresses fit in `usize`.
    pub open spec fn wf(&self) -> bool {
        &&& forall|i: int, j: int|
            0 <= i < j < self.entries_seq().len() ==> self.entries_seq()[i].vpn
                != self.entries_seq()[j].vpn
        &&& forall|i: int|
            0 <= i < self.entries_seq().len() ==> frame_in_range(
                #[trigger] self.entries_seq()[i].ppn,
            )
    }

    /// The abstract mapping the table denotes.
    pub open spec fn mapping(&self) -> Map<usize, (usize, MapPermission)> {
        Map::new(
            |vpn: usize|
                exists|i: int|
                    0 <= i < self.entries_seq().len() && #[trigger] self.entries_seq()[i].vpn
                        == vpn,
            |vpn: usize|
                {
                    let i = choose|i: int|
                        0 <= i < self.entries_seq().len() && #[trigger] self.entries_seq()[i].vpn
                            == vpn;
                    (self.entries_seq()[i].ppn, self.entries_seq()[i].perm)
                },
        )
    }

    /// No two mapped pages share a backing frame.
    pub open spec fn frames_injective(&self) -> bool {
        forall|v1: usize, v2: usize|
            self.mapping().contains_key(v1) && self.mapping().contains_key(v2) && v1 != v2
                ==> (#[trigger] self.mapping()[v1]).0 != (#[trigger] self.mapping()[v2]).0
    }

    /// Frame `f` backs some mapped page.
    pub open spec fn frame_mapped(&self, f: usize) -> bool {
        exists|v: usize| self.mapping().contains_key(v) && (#[trigger] self.mapping()[v]).0 == f
    }

    /// An empty page table.
    pub fn new() -> (r: PageTable)
        ensures
            r.wf(),
            r.mapping() =~= Map::<usize, (usize, MapPermission)>::empty(),
            r.frames_injective(),
    {
        let table = PageTable { entries: Vec::new() };
        proof {
            assert(table.mapping() =~= Map::<usize, (usize, MapPermission)>::empty());
        }
        table
    }

    /// The entry at `vpn`, when one is installed.
    pub fn lookup(&self, vpn: usize) -> (r: Option<(usize, MapPermission)>)
        requires
            self.wf(),
        ensures
            match r {
                Some(entry) => self.mapping().contains_key(vpn) && self.mapping()[vpn] == entry,
                None => !self.mapping().contains_key(vpn),
            },
    {
        let n = self.entries.len();
        let mut i: usize = 0;
        while i < n
            invariant
                self.wf(),
                n == self.entries_seq().len(),
                i <= n,
                forall|k: int| 0 <= k < i ==> (#[trigger] self.entries_seq()[k]).vpn != vpn,
            decreases n - i,
        {
            let e = self.entries[i];
            if e.vpn == vpn {
                proof {
                    self.lemma_entry_value(i as int);
                }
                return Some((e.ppn, e.perm));
            }
            i = i + 1;
        }
        proof {
            assert(!self.mapping().contains_key(vpn));
        }
        None
    }

    /// The mapping value at an entry's page number is that entry's frame
    /// and permission.
    pub proof fn lemma_entry_value(&self, i: int)
        requires
            self.wf(),
            0 <= i < self.entries_seq().len(),
        ensures
            self.mapping().contains_key(self.entries_seq()[i].vpn),
            self.mapping()[self.entries_seq()[i].vpn] == (
                self.entries_seq()[i].ppn,
                self.entries_seq()[i].perm,
            ),
    {
        let vpn = self.entries_seq()[i].vpn;
        assert(self.mapping().contains_key(vpn));
        let j = choose|j: int|
            0 <= j < self.entries_seq().len() && #[trigger] self.entries_seq()[j].vpn == vpn;
        if i < j {
            assert(self.entries_seq()[i].vpn != self.entries_seq()[j].vpn);
        } else if j < i {
            assert(self.entries_seq()[j].vpn != self.entries_seq()[i].vpn);
        }
        assert(j == i);
    }

    /// A mapped page's frame is in range: its byte addresses fit `usize`.
    pub proof fn lemma_mapped_frame_in_range(&self, vpn: usize)
        requires
            self.wf(),
            self.mapping().contains_key(vpn),
        ensures
            frame_in_range(self.mapping()[vpn].0),
    {
        let i = choose|i: int|
            0 <= i < self.entries_seq().len() && #[trigger] self.entries_seq()[i].vpn == vpn;
        self.lemma_entry_value(i);
    }

    /// Installs a mapping for a page that is not yet mapped.
    pub fn insert(&mut self, vpn: usize, ppn: usize, perm: MapPermission)
        requires
            old(self).wf(),
            !old(self).mapping().contains_key(vpn),
            frame_in_range(ppn),
        ensures
            final(self).wf(),
            final(self).mapping() == old(self).mapping().insert(vpn, (ppn, perm)),
    {
        let ghost pre = *self;
        self.entries.push(PageTableEntry { vpn, ppn, perm });
        proof {
            let olds = pre.entries_seq();
            let news = self.entries_seq();
            assert(news == olds.push(PageTableEntry { vpn, ppn, perm }));
            assert forall|k: int| 0 <= k < olds.len() implies (#[trigger] olds[k]).vpn != vpn by {
                if olds[k].vpn == vpn {
                    assert(pre.mapping().contains_key(vpn));
                }
            }
            assert forall|i: int, j: int|
                0 <= i < j < news.len() implies news[i].vpn != news[j].vpn by {
                if j == olds.len() {
                    assert(news[i] == olds[i]);
                    assert(news[j].vpn == vpn);
                }
            }
            assert forall|i: int| 0 <= i < news.len() implies frame_in_range(
                #[trigger] news[i].ppn,
            ) by {
                if i < olds.len() {
                    assert(news[i] == olds[i]);
                }
            }
            assert(self.wf());
            let target = pre.mapping().insert(vpn, (ppn, perm));
            assert forall|v: usize| self.mapping().contains_key(v) implies target.contains_key(v)
                && self.mapping()[v] == target[v] by {
                let i = choose|i: int|
                    0 <= i < news.len() && #[trigger] news[i].vpn == v;
                self.lemma_entry_value(i);
                if i < olds.len() {
                    assert(olds[i].vpn == v);
                    assert(pre.mapping().contains_key(v));
                    pre.lemma_entry_value(i);
                    assert(v != vpn);
                } else {
                    assert(v == vpn);
                }
            }
            assert forall|v: usize| target.contains_key(v) implies self.mapping().contains_key(
                v,
            ) by {
                if v == vpn {
                    assert(news[olds.len() as int].vpn == v);
                } else {
                    let i = choose|i: int|
                        0 <= i < olds.len() && #[trigger] olds[i].vpn == v;
                    assert(news[i].vpn == v);
                }
            }
            assert(self.mapping() =~= target);
        }
    }

    /// Removes the mapping of a currently mapped page.
    #[verifier::loop_isolation(false)]
    pub fn remove(&mut self, vpn: usize)
        requires
            old(self).wf(),
            old(self).mapping().contains_key(vpn),
        ensures
            final(self).wf(),
            final(self).mapping() == old(self).mapping().remove(vpn),
    {
        let ghost pre = *self;
        let n = self.entries.len();
        let mut i: usize = 0;
        while i < n
            invariant
                *self == pre,
                pre.wf(),
                pre.mapping().contains_key(vpn),
                n == pre.entries_seq().len(),
                i <= n,
                forall|k: int| 0 <= k < i ==> (#[trigger] pre.entries_seq()[k]).vpn != vpn,
            decreases n - i,
        {
            if self.entries[i].vpn == vpn {
                self.entries.swap_remove(i);
                proof {
                    let olds = pre.entries_seq();
                    let news = self.entries_seq();
                    assert(news == olds.update(i as int, olds.last()).drop_last());
                    assert forall|k: int| 0 <= k < news.len() implies news[k] == olds[
                        spec_src_index(olds.len() as int, i as int, k)
                    ] by {}
                    assert forall|p: int, q: int|
                        0 <= p < q < news.len() implies news[p].vpn != news[q].vpn by {
                        let sp = spec_src_index(olds.len() as int, i as int, p);
                        let sq = spec_src_index(olds.len() as int, i as int, q);
                        assert(news[p] == olds[sp] && news[q] == olds[sq]);
                        if sp < sq {
                            assert(olds[sp].vpn != olds[sq].vpn);
                        } else {
                            assert(olds[sq].vpn != olds[sp].vpn);
                        }
                    }
                    assert forall|k: int| 0 <= k < news.len() implies frame_in_range(
                        #[trigger] news[k].ppn,
                    ) by {
                        let sk = spec_src_index(olds.len() as int, i as int, k);
                        assert(news[k] == olds[sk]);
                    }
                    assert(self.wf());
                    let target = pre.mapping().remove(vpn);
                    assert forall|v: usize| self.mapping().contains_key(v) implies
                        target.contains_key(v) && self.mapping()[v] == target[v] by {
                        let k = choose|k: int|
                            0 <= k < news.len() && #[trigger] news[k].vpn == v;
                        self.lemma_entry_value(k);
                        let sk = spec_src_index(olds.len() as int, i as int, k);
                        assert(news[k] == olds[sk]);
                        pre.lemma_entry_value(sk);
                        if sk < i as int {
                            assert(olds[sk].vpn != olds[i as int].vpn);
                        } else if (i as int) < sk {
                            assert(olds[i as int].vpn != olds[sk].vpn);
                        }
                        assert(v != vpn);
                    }
                    assert forall|v: usize| target.contains_key(v) implies
                        self.mapping().contains_key(v) by {
                        let k = choose|k: int|
                            0 <= k < olds.len() && #[trigger] olds[k].vpn == v;
                        assert(v != vpn);
                        if k != i as int {
                            assert(olds[k].vpn != olds[i as int].vpn || k == i as int);
                            let dst = if k == olds.len() - 1 {
                                i as int
                            } else {
                                k
                            };
                            assert(news[dst] == olds[spec_src_index(
                                olds.len() as int,
                                i as int,
                                dst,
                            )]);
                            assert(news[dst].vpn == v);
                        }
                    }
                    assert(self.mapping() =~= target);
                }
                return ;
            }
            i = i + 1;
        }
        proof {
            assert(!pre.mapping().contains_key(vpn));
        }
    }
}

/// For a `swap_remove` at position `i` in a sequence of length `n`, the
/// source position in the old sequence of the element now at position `k`.
pub open spec fn spec_src_index(n: int, i: int, k: int) -> int {
    if k == i && i != n - 1 {
        n - 1
    } else {
        k
    }
}

} // verus!
