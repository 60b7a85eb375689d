//! The physical frame allocator.
//!
//! A frame is a fixed-size unit of physical memory, named here by its frame
//! number. The allocator owns the pool of currently free frames; mapping a
//! page takes a frame out of the pool and unmapping puts it back. The free
//! pool never holds a frame twice, and every frame it hands out is small
//! enough that any byte address inside the frame fits in `usize`.

use vstd::prelude::*;
use crate::addr::PAGE_SIZE;

verus! {

/// Every byte address inside frame `f` (that is, `f * PAGE_SIZE + offset`
/// with `offset < PAGE_SIZE`) fits in `usize`.
pub open spec fn frame_in_range(f: usize) -> bool {
    (f as int + 1) * (PAGE_SIZE as int) <= usize::MAX as int + 1
}

/// Allocator for physical frames, shared by all address spaces.
pub struct FrameAllocator {
    free: Vec<usize>,
}

impl FrameAllocator {
    /// The pool of free frames, most recently freed last.
    pub closed spec fn free_list(&self) -> Seq<usize> {
        self.free@
    }

    /// The free pool holds no frame twice and only frames whose byte
    /// addresses fit in `usize`.
    pub open spec fn wf(&self) -> bool {
        &&& self.free_list().no_duplicates()
        &&& forall|i: int|
            0 <= i < self.free_list().len() ==> frame_in_range(#[trigger] self.free_list()[i])
    }

    /// An allocator whose pool is the frames `0 .. frames`.
    pub fn new(frames: usize) -> (r: FrameAllocator)
        requires
            frames as int * PAGE_SIZE as int <= usize::MAX as int + 1,
        ensures
            r.wf(),
            r.free_list().len() == frames,
            forall|i: int| 0 <= i < frames ==> #[trigger] r.free_list()[i] == i,
    {
        let mut free: Vec<usize> = Vec::new();
        let mut f: usize = 0;
        while f < frames
            invariant
                f <= frames,
                frames as int * PAGE_SIZE as int <= usize::MAX as int + 1,
                free@.len() == f,
                forall|i: int| 0 <= i < f ==> #[trigger] free@[i] == i,
            decreases frames - f,
        {
            free.push(f);
            f = f + 1;
        }
        proof {
            assert forall|i: int, j: int|
                0 <= i < j < free@.len() implies free@[i] != free@[j] by {
                assert(free@[i] == i && free@[j] == j);
            }
            assert forall|i: int| 0 <= i < free@.len() implies frame_in_range(
                #[trigger] free@[i],
            ) by {
                assert(free@[i] == i && i < frames);
                assert((i + 1) * (PAGE_SIZE as int) <= frames as int * PAGE_SIZE as int) by (
                nonlinear_arith)
                    requires
                        i + 1 <= frames as int,
                        PAGE_SIZE as int > 0,
                ;
            }
        }
        FrameAllocator { free }
    }

    /// Takes one frame out of the pool; `None` when the pool is empty.
    pub fn alloc_frame(&mut self) -> (r: Option<usize>)
        ensures
            old(self).free_list().len() == 0 ==> r is None && final(self).free_list()
                == old(self).free_list(),
            old(self).free_list().len() > 0 ==> r == Some(old(self).free_list().last())
                && final(self).free_list() == old(self).free_list().drop_last(),
    {
        self.free.pop()
    }

    /// Returns a frame to the pool. The caller must own the frame, so it
    /// cannot already be free.
    pub fn free_frame(&mut self, frame: usize)
        requires
            !old(self).free_list().contains(frame),
        ensures
            final(self).free_list() == old(self).free_list().push(frame),
    {
        self.free.push(frame);
    }

    /// How many frames are currently free.
    pub fn free_count(&self) -> (r: usize)
        ensures
            r == self.free_list().len(),
    {
        self.free.len()
    }
}

/// Appending an element that is not present keeps a duplicate-free sequence
/// duplicate-free.
pub proof fn lemma_no_duplicates_push(s: Seq<usize>, f: usize)
    requires
        s.no_duplicates(),
        !s.contains(f),
    ensures
        s.push(f).no_duplicates(),
{
    assert forall|i: int, j: int|
        0 <= i < j < s.push(f).len() implies s.push(f)[i] != s.push(f)[j] by {
        if j < s.len() {
        } else {
            assert(s.push(f)[j] == f);
            assert(s.push(f)[i] == s[i]);
            assert(s.contains(s[i]));
        }
    }
}

} // verus!
