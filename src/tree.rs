//! An arena that owns the fibers of a tree by identity handle. Links between
//! fibers are handles, so tearing down a fiber never leaves a dangling
//! reference behind.
use vstd::prelude::*;
use crate::allocator::Alloc;
use crate::fiber::{Fiber, Work};

verus! {

/// `f` with its parent and next-sibling links set.
pub open spec fn linked(f: Fiber, parent: Option<usize>, sibling: Option<usize>) -> Fiber {
    Fiber { parent: parent, sibling: sibling, ..f }
}

/// `f` with its first-child link set.
pub open spec fn with_child(f: Fiber, child: Option<usize>) -> Fiber {
    Fiber { child: child, ..f }
}

/// The handle of the child after position `m`, if any.
pub open spec fn next_of(hs: Seq<usize>, m: int) -> Option<usize> {
    if m + 1 < hs.len() {
        Some(hs[m + 1])
    } else {
        None
    }
}

/// `t` holds what `t0` held, unchanged, and the children from position `k`
/// on under distinct fresh handles `hs`, linked to `parent` and to their
/// next sibling.
#[verifier::opaque]
spec fn attached(
    t: FiberTree,
    t0: FiberTree,
    hs: Seq<usize>,
    k: int,
    orig: Seq<Fiber>,
    parent: Option<usize>,
) -> bool {
    let n = hs.len();
    &&& forall|m: int| k <= m < n ==> !t0.handles().contains(#[trigger] hs[m] as int)
    &&& forall|m: int| k <= m < n ==> t.handles().contains(#[trigger] hs[m] as int)
    &&& forall|a: int, b: int| k <= a < b < n ==> hs[a] != hs[b]
    &&& forall|g: int| #[trigger]
        t.handles().contains(g) <==> t0.handles().contains(g) || exists|m: int|
            k <= m < n && hs[m] as int == g
    &&& forall|m: int|
        k <= m < n ==> t.fiber(#[trigger] hs[m] as int) == linked(orig[m], parent, next_of(hs, m))
    &&& forall|g: int| #[trigger] t0.handles().contains(g) ==> t.fiber(g) == t0.fiber(g)
}

proof fn lemma_attach_step(
    before: FiberTree,
    after: FiberTree,
    t0: FiberTree,
    hs0: Seq<usize>,
    hs: Seq<usize>,
    k: int,
    h: usize,
    orig: Seq<Fiber>,
    parent: Option<usize>,
)
    requires
        0 <= k < hs0.len(),
        orig.len() == hs0.len(),
        hs == hs0.update(k, h),
        attached(before, t0, hs0, k + 1, orig, parent),
        !before.handles().contains(h as int),
        after.handles() == before.handles().insert(h as int),
        after.fiber(h as int) == linked(orig[k], parent, next_of(hs0, k)),
        forall|g: int| #[trigger]
            before.handles().contains(g) ==> after.fiber(g) == before.fiber(g),
    ensures
        attached(after, t0, hs, k, orig, parent),
{
    reveal(attached);
    let n = hs.len();
    assert forall|m: int| k <= m < n implies !t0.handles().contains(#[trigger] hs[m] as int) by {
        if m > k {
            assert(hs[m] == hs0[m]);
        }
    }
    assert forall|m: int| k <= m < n implies after.handles().contains(#[trigger] hs[m] as int) by {
        if m > k {
            assert(hs[m] == hs0[m]);
        }
    }
    assert forall|a: int, b: int| k <= a < b < n implies hs[a] != hs[b] by {
        assert(hs[b] == hs0[b]);
        if a > k {
            assert(hs[a] == hs0[a]);
        } else {
            assert(before.handles().contains(hs0[b] as int));
        }
    }
    assert forall|g: int| #[trigger]
        after.handles().contains(g) <==> t0.handles().contains(g) || exists|m: int|
            k <= m < n && hs[m] as int == g by {
        if g == h as int {
            assert(hs[k] as int == g);
        }
        if exists|m: int| k + 1 <= m < n && hs0[m] as int == g {
            let w = choose|m: int| k + 1 <= m < n && hs0[m] as int == g;
            assert(hs[w] == hs0[w]);
        }
        if exists|m: int| k <= m < n && hs[m] as int == g {
            let w = choose|m: int| k <= m < n && hs[m] as int == g;
            if w > k {
                assert(hs[w] == hs0[w]);
            }
        }
    }
    assert forall|m: int|
        k <= m < n implies after.fiber(#[trigger] hs[m] as int) == linked(orig[m], parent, next_of(hs, m)) by {
        if m + 1 < n {
            assert(hs[m + 1] == hs0[m + 1]);
        }
        if m > k {
            assert(hs[m] == hs0[m]);
            assert(before.handles().contains(hs0[m] as int));
        }
    }
    assert forall|g: int| #[trigger] t0.handles().contains(g) implies after.fiber(g) == t0.fiber(g) by {
        assert(before.handles().contains(g));
    }
}

/// `f` classified as a deletion.
pub open spec fn as_deletion(f: Fiber) -> Fiber {
    Fiber { work_type: Work::Deletion, ..f }
}

/// Fibers stored under the handles that an allocator issued.
pub struct FiberTree {
    ids: Alloc,
    slots: Vec<Option<Fiber>>,
}

impl FiberTree {
    /// A slot exists for every handle issued so far, and holds a fiber
    /// exactly when its handle is live.
    pub closed spec fn wf(&self) -> bool {
        &&& self.ids.wf()
        &&& self.ids@.wf()
        &&& self.slots@.len() == self.ids@.fresh
        &&& forall|h: int|
            0 <= h < self.slots@.len() ==> (#[trigger] self.slots@[h] is Some
                <==> self.ids@.live.contains(h))
    }

    /// The handles of the fibers held.
    pub closed spec fn handles(&self) -> Set<int> {
        self.ids@.live
    }

    /// The fiber held under handle `h`.
    pub closed spec fn fiber(&self, h: int) -> Fiber {
        self.slots@[h].unwrap()
    }

    /// How many more handles can be minted.
    pub closed spec fn room(&self) -> int {
        i32::MAX - self.ids@.fresh
    }

    /// An empty arena.
    pub fn new() -> (r: Self)
        ensures
            r.wf(),
            r.handles() == Set::<int>::empty(),
            r.room() == i32::MAX - 1,
    {
        let ids = Alloc::new();
        let mut slots: Vec<Option<Fiber>> = Vec::new();
        slots.push(None);
        FiberTree { ids, slots }
    }

    /// Stores `f` under a handle that was not live, and returns the handle.
    pub fn insert(&mut self, f: Fiber) -> (h: usize)
        requires
            old(self).wf(),
            old(self).room() > 0,
        ensures
            final(self).wf(),
            !old(self).handles().contains(h as int),
            final(self).handles() == old(self).handles().insert(h as int),
            final(self).fiber(h as int) == f,
            forall|g: int| #[trigger]
                old(self).handles().contains(g) ==> final(self).fiber(g) == old(self).fiber(g),
            final(self).room() >= old(self).room() - 1,
    {
        let ghost s0 = self.ids@;
        let id = self.ids.allocate();
        proof {
            if s0.free.len() > 0 {
                assert(s0.free[s0.free.len() - 1] == s0.free.last());
            }
        }
        let loc = id as usize;
        if loc == self.slots.len() {
            self.slots.push(Some(f));
        } else {
            self.slots[loc] = Some(f);
        }
        loc
    }

    /// The fiber under handle `h`, if `h` is live.
    pub fn get(&self, h: usize) -> (r: Option<&Fiber>)
        requires
            self.wf(),
        ensures
            r is Some <==> self.handles().contains(h as int),
            r is Some ==> *r.unwrap() == self.fiber(h as int),
    {
        if h >= self.slots.len() {
            return None;
        }
        match &self.slots[h] {
            Some(f) => Some(f),
            None => None,
        }
    }

    /// Takes the fiber under handle `h` out of the arena and releases the
    /// handle. Returns `None` and changes nothing if `h` is not live.
    pub fn remove(&mut self, h: usize) -> (r: Option<Fiber>)
        requires
            old(self).wf(),
        ensures
            final(self).wf(),
            r is Some <==> old(self).handles().contains(h as int),
            r is Some ==> r.unwrap() == old(self).fiber(h as int) && final(self).handles()
                == old(self).handles().remove(h as int),
            r is None ==> final(self).handles() == old(self).handles(),
            forall|g: int| #[trigger]
                final(self).handles().contains(g) ==> final(self).fiber(g) == old(self).fiber(g),
            final(self).room() == old(self).room(),
    {
        if h >= self.slots.len() {
            return None;
        }
        if self.slots[h].is_none() {
            return None;
        }
        proof {
            self.ids.lemma_fresh_fits();
        }
        let released = self.ids.free(h as i32);
        assert(released);
        let r = self.slots[h].take();
        proof {
            assert(self.ids@.live =~= old(self).ids@.live.remove(h as int));
        }
        r
    }

    /// Classifies the fiber under handle `h` as a deletion. Returns whether
    /// `h` was live; nothing changes when it was not.
    pub fn mark_deleted(&mut self, h: usize) -> (r: bool)
        requires
            old(self).wf(),
        ensures
            final(self).wf(),
            r == old(self).handles().contains(h as int),
            final(self).handles() == old(self).handles(),
            r ==> final(self).fiber(h as int) == as_deletion(old(self).fiber(h as int)),
            forall|g: int| #[trigger]
                final(self).handles().contains(g) && g != h ==> final(self).fiber(g) == old(
                    self,
                ).fiber(g),
            final(self).room() == old(self).room(),
    {
        if h >= self.slots.len() {
            return false;
        }
        let taken = self.slots[h].take();
        match taken {
            Some(mut f) => {
                f.work_type = Work::Deletion;
                self.slots[h] = Some(f);
                true
            },
            None => false,
        }
    }

    /// Sets the first-child link of the fiber under handle `h`.
    pub fn set_child(&mut self, h: usize, child: Option<usize>)
        requires
            old(self).wf(),
            old(self).handles().contains(h as int),
        ensures
            final(self).wf(),
            final(self).handles() == old(self).handles(),
            final(self).fiber(h as int) == with_child(old(self).fiber(h as int), child),
            forall|g: int| #[trigger]
                final(self).handles().contains(g) && g != h ==> final(self).fiber(g) == old(
                    self,
                ).fiber(g),
            final(self).room() == old(self).room(),
    {
        let taken = self.slots[h].take();
        match taken {
            Some(mut f) => {
                f.child = child;
                self.slots[h] = Some(f);
            },
            None => {},
        }
    }

    /// Stores one level of reconciled children under fresh handles, in
    /// order: each gets `parent` as its parent and the handle of the next
    /// child as its sibling, the last none. When the parent is held here,
    /// its first-child link becomes the first child's handle. Returns the
    /// handles, in the children's order.
    pub fn attach_children(&mut self, parent: Option<usize>, fibers: Vec<Fiber>) -> (hs: Vec<usize>)
        requires
            old(self).wf(),
            old(self).room() >= fibers@.len(),
        ensures
            final(self).wf(),
            hs@.len() == fibers@.len(),
            forall|k: int| 0 <= k < hs@.len() ==> !old(self).handles().contains(#[trigger] hs@[k] as int),
            forall|a: int, b: int| 0 <= a < b < hs@.len() ==> hs@[a] != hs@[b],
            forall|g: int| #[trigger]
                final(self).handles().contains(g) <==> old(self).handles().contains(g) || exists|k: int|
                    0 <= k < hs@.len() && hs@[k] as int == g,
            forall|k: int|
                0 <= k < hs@.len() ==> final(self).fiber(#[trigger] hs@[k] as int) == linked(
                    fibers@[k],
                    parent,
                    next_of(hs@, k),
                ),
            forall|g: int| #[trigger]
                old(self).handles().contains(g) && Some(g as usize) != parent ==> final(self).fiber(g)
                    == old(self).fiber(g),
            match parent {
                Some(p) => old(self).handles().contains(p as int) ==> final(self).fiber(p as int)
                    == with_child(
                    old(self).fiber(p as int),
                    if hs@.len() > 0 {
                        Some(hs@[0])
                    } else {
                        None
                    },
                ),
                None => true,
            },
    {
        let ghost orig = fibers@;
        let ghost t0 = *self;
        let parent_live = match parent {
            Some(p) => p < self.slots.len() && self.slots[p].is_some(),
            None => false,
        };
        let n = fibers.len();
        let mut fibers = fibers;
        let mut hs: Vec<usize> = Vec::new();
        let mut i: usize = 0;
        while i < n
            invariant
                i <= n,
                hs@.len() == i,
            decreases n - i,
        {
            hs.push(0);
            i += 1;
        }
        let mut next: Option<usize> = None;
        let mut k: usize = n;
        proof {
            reveal(attached);
        }
        while k > 0
            invariant
                k <= n == orig.len(),
                fibers@ == orig.subrange(0, k as int),
                hs@.len() == n,
                self.wf(),
                self.room() >= t0.room() - (n - k),
                t0.room() >= n,
                next == next_of(hs@, k as int - 1),
                attached(*self, t0, hs@, k as int, orig, parent),
            decreases k,
        {
            let ghost before = *self;
            let ghost hs0 = hs@;
            let mut f = fibers.pop().unwrap();
            assert(f == orig[k - 1]);
            f.parent = parent;
            f.sibling = next;
            let h = self.insert(f);
            hs.set(k - 1, h);
            next = Some(h);
            k -= 1;
            proof {
                lemma_attach_step(before, *self, t0, hs0, hs@, k as int, h, orig, parent);
            }
        }
        proof {
            reveal(attached);
        }
        let ghost t1 = *self;
        match parent {
            Some(p) => {
                if parent_live {
                    let first = if n > 0 {
                        Some(hs[0])
                    } else {
                        None
                    };
                    assert(t0.handles().contains(p as int));
                    self.set_child(p, first);
                }
            },
            None => {},
        }
        proof {
            assert forall|m: int|
                0 <= m < n implies self.fiber(#[trigger] hs@[m] as int) == linked(
                    orig[m],
                    parent,
                    next_of(hs@, m),
                ) by {
                assert(t1.handles().contains(hs@[m] as int));
                assert(!t0.handles().contains(hs@[m] as int));
            }
            assert forall|g: int| #[trigger]
                t0.handles().contains(g) && Some(g as usize) != parent implies self.fiber(g)
                    == t0.fiber(g) by {
                assert(t1.handles().contains(g));
                assert(0 <= g < t0.slots@.len());
            }
        }
        hs
    }
}

} // verus!
