//! Reordering finished frames: workers finish frames in any order, and the
//! encoder must receive them strictly by frame index.
use vstd::prelude::*;

verus! {

/// Holds frames that finished early until every earlier frame has been
/// handed on, then releases them in index order.
pub struct FrameCollector<T> {
    slots: Vec<Option<T>>,
    next: usize,
    accepted: Ghost<Map<int, T>>,
    released: Ghost<Seq<T>>,
}

impl<T> FrameCollector<T> {
    /// How many frames the render has.
    pub closed spec fn frame_count(&self) -> nat {
        self.slots@.len()
    }

    /// The index of the next frame to release.
    pub closed spec fn next_index(&self) -> nat {
        self.next as nat
    }

    /// Every frame accepted so far, by index.
    pub closed spec fn accepted(&self) -> Map<int, T> {
        self.accepted@
    }

    /// Every frame released so far, in release order.
    pub closed spec fn released(&self) -> Seq<T> {
        self.released@
    }

    pub closed spec fn wf(&self) -> bool {
        &&& self.next <= self.slots@.len()
        &&& self.released@.len() == self.next
        &&& forall|i: int| 0 <= i < self.next ==> #[trigger] self.accepted@.contains_key(i)
            && self.released@[i] == self.accepted@[i]
        &&& forall|i: int| #[trigger] self.accepted@.contains_key(i) ==> 0 <= i < self.slots@.len()
        &&& forall|i: int|
            self.next <= i < self.slots@.len() ==> (#[trigger] self.slots@[i] matches Some(f) ==> (
            self.accepted@.contains_key(i) && self.accepted@[i] == f)) && (self.slots@[i].is_none()
                ==> !self.accepted@.contains_key(i))
    }

    /// A collector for `frame_count` frames, none of them finished.
    pub fn new(frame_count: usize) -> (c: FrameCollector<T>)
        ensures
            c.wf(),
            c.frame_count() == frame_count,
            c.next_index() == 0,
            c.accepted() == Map::<int, T>::empty(),
            c.released() == Seq::<T>::empty(),
    {
        let mut slots: Vec<Option<T>> = Vec::new();
        let mut i: usize = 0;
        while i < frame_count
            invariant
                i <= frame_count,
                slots@.len() == i,
                forall|k: int| 0 <= k < i ==> slots@[k].is_none(),
            decreases frame_count - i,
        {
            slots.push(None);
            i = i + 1;
        }
        FrameCollector { slots, next: 0, accepted: Ghost(Map::empty()), released: Ghost(Seq::empty()) }
    }

    /// Takes in frame `index`. A frame outside the render, or one that was
    /// already taken in, is refused and `false` returned.
    pub fn accept(&mut self, index: usize, frame: T) -> (ok: bool)
        requires
            old(self).wf(),
        ensures
            final(self).wf(),
            ok == (index < old(self).frame_count() && !old(self).accepted().contains_key(index as int)),
            ok ==> final(self).accepted() == old(self).accepted().insert(index as int, frame),
            !ok ==> final(self).accepted() == old(self).accepted(),
            final(self).frame_count() == old(self).frame_count(),
            final(self).next_index() == old(self).next_index(),
            final(self).released() == old(self).released(),
    {
        if index >= self.slots.len() || index < self.next || self.slots[index].is_some() {
            proof {
                if index < self.slots@.len() && index < self.next {
                    assert(self.accepted@.contains_key(index as int));
                }
            }
            return false;
        }
        self.slots.set(index, Some(frame));
        self.accepted = Ghost(self.accepted@.insert(index as int, frame));
        proof {
            assert forall|i: int| 0 <= i < self.next implies #[trigger] self.accepted@.contains_key(i)
                && self.released@[i] == self.accepted@[i] by {
                assert(old(self).accepted@.contains_key(i));
            }
        }
        true
    }

    /// The next frame in index order, once it has been taken in.
    pub fn pop_ready(&mut self) -> (r: Option<T>)
        requires
            old(self).wf(),
        ensures
            final(self).wf(),
            r == (if old(self).next_index() < old(self).frame_count() && old(self).accepted().contains_key(
                old(self).next_index() as int,
            ) {
                Some(old(self).accepted()[old(self).next_index() as int])
            } else {
                None
            }),
            r matches Some(f) ==> final(self).next_index() == old(self).next_index() + 1
                && final(self).released() == old(self).released().push(f),
            r is None ==> final(self).next_index() == old(self).next_index() && final(self).released()
                == old(self).released(),
            final(self).accepted() == old(self).accepted(),
            final(self).frame_count() == old(self).frame_count(),
    {
        if self.next >= self.slots.len() {
            return None;
        }
        let i = self.next;
        let slot = self.slots[i].take();
        match slot {
            Some(f) => {
                self.next = i + 1;
                self.released = Ghost(self.released@.push(f));
                proof {
                    assert forall|j: int| 0 <= j < self.next implies #[trigger] self.accepted@.contains_key(j)
                        && self.released@[j] == self.accepted@[j] by {
                        if j < i {
                            assert(old(self).accepted@.contains_key(j));
                        }
                    }
                }
                Some(f)
            },
            None => {
                proof {
                    assert(self.slots@ =~= old(self).slots@);
                }
                None
            },
        }
    }

    /// The index of the frame the collector waits for next.
    pub fn waiting_for(&self) -> (r: usize)
        ensures
            r == self.next_index(),
    {
        self.next
    }

    /// Whether every frame has been released.
    pub fn is_done(&self) -> (b: bool)
        requires
            self.wf(),
        ensures
            b == (self.next_index() == self.frame_count()),
    {
        self.next == self.slots.len()
    }
}

/// Frames reach the encoder in index order whatever order the workers
/// finish them in: once a collector has released every frame, what it
/// released is exactly the accepted frames by index, so two renders that
/// produced the same frames hand the encoder the same sequence.
pub proof fn lemma_release_order<T>(a: FrameCollector<T>, b: FrameCollector<T>)
    requires
        a.wf(),
        b.wf(),
        a.next_index() == a.frame_count(),
        b.next_index() == b.frame_count(),
        a.frame_count() == b.frame_count(),
        a.accepted() == b.accepted(),
    ensures
        a.released() == Seq::new(a.frame_count(), |i: int| a.accepted()[i]),
        a.released() == b.released(),
{
    assert forall|i: int| 0 <= i < a.frame_count() implies a.released()[i] == a.accepted()[i]
        && b.released()[i] == b.accepted()[i] by {
        assert(a.accepted@.contains_key(i));
        assert(b.accepted@.contains_key(i));
    }
    assert(a.released() =~= Seq::new(a.frame_count(), |i: int| a.accepted()[i]));
    assert(b.released() =~= Seq::new(b.frame_count(), |i: int| b.accepted()[i]));
}

} // verus!
