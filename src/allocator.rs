//! Issues and recycles small integer handles that name live fibers.
use vstd::prelude::*;

verus! {

/// The allocator's abstract state: which handles are live, the released
/// handles in the order they will be reused (last first), and the next handle
/// that has never been issued.
pub struct AllocState {
    pub live: Set<int>,
    pub free: Seq<int>,
    pub fresh: int,
}

impl AllocState {
    /// Live handles and released handles lie in `[1, fresh)`; a released
    /// handle is not live and appears once in the free list.
    pub open spec fn wf(self) -> bool {
        &&& self.fresh >= 1
        &&& forall|h: int| #[trigger] self.live.contains(h) ==> 1 <= h < self.fresh
        &&& self.free.no_duplicates()
        &&& forall|i: int|
            0 <= i < self.free.len() ==> 1 <= #[trigger] self.free[i] < self.fresh
                && !self.live.contains(self.free[i])
    }
}

/// The handle that an allocation returns: the most recently released one if
/// any, else a new handle one past the highest ever issued.
pub open spec fn alloc_result(s: AllocState) -> int {
    if s.free.len() > 0 {
        s.free.last()
    } else {
        s.fresh
    }
}

/// The state after an allocation.
pub open spec fn alloc_post(s: AllocState) -> AllocState {
    if s.free.len() > 0 {
        AllocState { live: s.live.insert(s.free.last()), free: s.free.drop_last(), fresh: s.fresh }
    } else {
        AllocState { live: s.live.insert(s.fresh), free: s.free, fresh: s.fresh + 1 }
    }
}

/// The state after releasing `h`, and whether the release succeeded: only a
/// live handle is released; any other leaves the state as it was.
pub open spec fn release_post(s: AllocState, h: int) -> (AllocState, bool) {
    if s.live.contains(h) {
        (AllocState { live: s.live.remove(h), free: s.free.push(h), fresh: s.fresh }, true)
    } else {
        (s, false)
    }
}

/// One operation on an allocator, as its abstract effect.
pub enum AllocOp {
    Allocate,
    Release(int),
}

/// The state after one operation.
pub open spec fn step(s: AllocState, op: AllocOp) -> AllocState {
    match op {
        AllocOp::Allocate => alloc_post(s),
        AllocOp::Release(h) => release_post(s, h).0,
    }
}

/// The state after a sequence of operations.
pub open spec fn run(s: AllocState, ops: Seq<AllocOp>) -> AllocState
    decreases ops.len(),
{
    if ops.len() == 0 {
        s
    } else {
        run(step(s, ops[0]), ops.drop_first())
    }
}

/// Whether some allocation among `ops`, run from `s`, returns `h`.
pub open spec fn allocates(s: AllocState, ops: Seq<AllocOp>, h: int) -> bool
    decreases ops.len(),
{
    ops.len() > 0 && ((ops[0] == AllocOp::Allocate && alloc_result(s) == h) || allocates(
        step(s, ops[0]),
        ops.drop_first(),
        h,
    ))
}

/// Whether `ops` holds a release of `h`.
pub open spec fn releases(ops: Seq<AllocOp>, h: int) -> bool {
    exists|i: int| 0 <= i < ops.len() && ops[i] == AllocOp::Release(h)
}

/// Every operation keeps the allocator's invariant, and an allocation never
/// returns a handle that is already live.
pub proof fn lemma_step_wf(s: AllocState, op: AllocOp)
    requires
        s.wf(),
    ensures
        step(s, op).wf(),
        op == AllocOp::Allocate ==> !s.live.contains(alloc_result(s)),
{
    if s.free.len() > 0 {
        assert(s.free[s.free.len() - 1] == s.free.last());
    }
    let t = step(s, op);
    match op {
        AllocOp::Allocate => {
            if s.free.len() > 0 {
                assert forall|i: int| 0 <= i < t.free.len() implies !t.live.contains(
                    #[trigger] t.free[i],
                ) by {
                    assert(t.free[i] == s.free[i]);
                    assert(s.free[i] != s.free[s.free.len() - 1]);
                }
            }
        },
        AllocOp::Release(h) => {
            if s.live.contains(h) {
                assert forall|i: int, j: int|
                    0 <= i < t.free.len() && 0 <= j < t.free.len() && i != j implies t.free[i]
                    != t.free[j] by {
                    if i < s.free.len() {
                        assert(t.free[i] == s.free[i]);
                    }
                    if j < s.free.len() {
                        assert(t.free[j] == s.free[j]);
                    }
                }
                assert forall|i: int| 0 <= i < t.free.len() implies 1 <= #[trigger] t.free[i]
                    < t.fresh && !t.live.contains(t.free[i]) by {
                    if i < s.free.len() {
                        assert(t.free[i] == s.free[i]);
                    }
                }
            }
        },
    }
}

/// Any sequence of operations keeps the allocator's invariant.
pub proof fn lemma_run_wf(s: AllocState, ops: Seq<AllocOp>)
    requires
        s.wf(),
    ensures
        run(s, ops).wf(),
    decreases ops.len(),
{
    if ops.len() > 0 {
        lemma_step_wf(s, ops[0]);
        lemma_run_wf(step(s, ops[0]), ops.drop_first());
    }
}

/// A live handle stays live through any operations that do not release it.
pub proof fn lemma_live_until_released(s: AllocState, ops: Seq<AllocOp>, h: int)
    requires
        s.live.contains(h),
        !releases(ops, h),
    ensures
        run(s, ops).live.contains(h),
    decreases ops.len(),
{
    if ops.len() > 0 {
        assert(ops[0] != AllocOp::Release(h));
        let rest = ops.drop_first();
        assert forall|i: int| 0 <= i < rest.len() implies rest[i] != AllocOp::Release(h) by {
            assert(rest[i] == ops[i + 1]);
        }
        lemma_live_until_released(step(s, ops[0]), rest, h);
    }
}

/// A handle that is not live stays so through any operations in which no
/// allocation returns it.
pub proof fn lemma_dead_until_allocated(s: AllocState, ops: Seq<AllocOp>, h: int)
    requires
        !s.live.contains(h),
        !allocates(s, ops, h),
    ensures
        !run(s, ops).live.contains(h),
    decreases ops.len(),
{
    if ops.len() > 0 {
        lemma_dead_until_allocated(step(s, ops[0]), ops.drop_first(), h);
    }
}

/// Round trip: the handle that an allocation returns was not live before,
/// is live after it and after every prefix of later operations that release
/// nothing of it, is released successfully by its matching release, and is
/// not live afterwards until some allocation returns it again.
pub proof fn lemma_round_trip(
    s: AllocState,
    ops: Seq<AllocOp>,
    later: Seq<AllocOp>,
)
    requires
        s.wf(),
        !releases(ops, alloc_result(s)),
        !allocates(
            release_post(run(alloc_post(s), ops), alloc_result(s)).0,
            later,
            alloc_result(s),
        ),
    ensures
        !s.live.contains(alloc_result(s)),
        forall|k: int|
            0 <= k <= ops.len() ==> #[trigger] run(alloc_post(s), ops.take(k)).live.contains(
                alloc_result(s),
            ),
        release_post(run(alloc_post(s), ops), alloc_result(s)).1,
        !run(release_post(run(alloc_post(s), ops), alloc_result(s)).0, later).live.contains(
            alloc_result(s),
        ),
{
    let h = alloc_result(s);
    let s1 = alloc_post(s);
    lemma_step_wf(s, AllocOp::Allocate);
    assert forall|k: int| 0 <= k <= ops.len() implies #[trigger] run(s1, ops.take(k)).live.contains(
        h,
    ) by {
        let pre = ops.take(k);
        assert forall|i: int| 0 <= i < pre.len() implies pre[i] != AllocOp::Release(h) by {
            assert(pre[i] == ops[i]);
        }
        lemma_live_until_released(s1, pre, h);
    }
    lemma_live_until_released(s1, ops, h);
    let s2 = release_post(run(s1, ops), h).0;
    lemma_dead_until_allocated(s2, later, h);
}

/// Reuse: after a live handle is released, the next allocation returns that
/// same handle rather than a new one.
pub proof fn lemma_release_then_allocate(s: AllocState, h: int)
    requires
        s.live.contains(h),
    ensures
        alloc_result(release_post(s, h).0) == h,
        alloc_post(release_post(s, h).0).fresh == s.fresh,
{
}

/// Double release: the first release of a live handle succeeds; a second
/// release of it fails and changes nothing.
pub proof fn lemma_double_release(s: AllocState, h: int)
    requires
        s.live.contains(h),
    ensures
        release_post(s, h).1,
        !release_post(release_post(s, h).0, h).1,
        release_post(release_post(s, h).0, h).0 == release_post(s, h).0,
        !release_post(s, h).0.live.contains(h),
{
}

/// A free-list of handles with a flat validity record.
pub struct Alloc {
    stack: Vec<i32>,
    valid: Vec<bool>,
}

impl View for Alloc {
    type V = AllocState;

    closed spec fn view(&self) -> AllocState {
        AllocState {
            live: Set::new(|h: int| 0 <= h < self.valid@.len() && self.valid@[h]),
            free: self.stack@.subrange(1, self.stack@.len() as int).map_values(|x: i32| x as int),
            fresh: self.stack@[0] as int,
        }
    }
}

impl Alloc {
    /// The bottom of the stack is the next never-issued handle, which equals
    /// the length of the validity record once it is non-empty; the rest of
    /// the stack holds distinct released handles.
    pub closed spec fn wf(&self) -> bool {
        let n = self.valid@.len();
        &&& self.stack@.len() >= 1
        &&& self.stack@[0] as int == if n == 0 { 1 } else { n as int }
        &&& n > 0 ==> !self.valid@[0]
        &&& forall|i: int|
            1 <= i < self.stack@.len() ==> 1 <= #[trigger] self.stack@[i] < n
                && !self.valid@[self.stack@[i] as int]
        &&& forall|i: int, j: int|
            1 <= i < j < self.stack@.len() ==> self.stack@[i] != self.stack@[j]
    }

    proof fn lemma_view_wf(&self)
        requires
            self.wf(),
        ensures
            self@.wf(),
    {
        let v = self@;
        assert forall|i: int, j: int| 0 <= i < v.free.len() && 0 <= j < v.free.len() && i != j
            implies v.free[i] != v.free[j] by {
            assert(self.stack@[i + 1] != self.stack@[j + 1]);
        }
        assert forall|i: int| 0 <= i < v.free.len() implies 1 <= #[trigger] v.free[i] < v.fresh
            && !v.live.contains(v.free[i]) by {
            assert(self.stack@[i + 1] == v.free[i]);
        }
    }

    /// Every handle issued so far fits in an `i32`.
    pub proof fn lemma_fresh_fits(&self)
        requires
            self.wf(),
        ensures
            self@.fresh <= i32::MAX,
    {
    }

    /// An allocator with no live handles; the first allocation returns 1.
    pub fn new() -> (r: Self)
        ensures
            r.wf(),
            r@.wf(),
            r@.live == Set::<int>::empty(),
            r@.free == Seq::<int>::empty(),
            r@.fresh == 1,
    {
        let mut stack: Vec<i32> = Vec::new();
        let valid: Vec<bool> = Vec::new();
        stack.push(1);
        let r = Alloc { stack: stack, valid: valid };
        proof {
            assert(r@.live =~= Set::<int>::empty());
            assert(r@.free =~= Seq::<int>::empty());
            r.lemma_view_wf();
        }
        r
    }

    /// Takes the top of the stack, or 0 when the stack is empty.
    fn get(&mut self) -> (r: i32)
        ensures
            old(self).stack@.len() == 0 ==> r == 0 && final(self).stack@ == old(self).stack@
                && final(self).valid@ == old(self).valid@,
            old(self).stack@.len() > 0 ==> r == old(self).stack@.last()
                && final(self).stack@ == old(self).stack@.drop_last()
                && final(self).valid@ == old(self).valid@,
    {
        match self.stack.pop() {
            Some(index) => index,
            None => 0,
        }
    }

    /// Whether `index` is a currently allocated handle. Out-of-range and
    /// negative handles are not.
    pub fn is_valid(&self, index: i32) -> (r: bool)
        requires
            self.wf(),
        ensures
            r == self@.live.contains(index as int),
    {
        if index < 0 {
            return false;
        }
        let loc = index as usize;
        if loc >= self.valid.len() {
            return false;
        }
        self.valid[loc]
    }

    /// Allocates a handle: a released one if any (last released first), else
    /// a new one one past the highest ever issued.
    pub fn allocate(&mut self) -> (r: i32)
        requires
            old(self).wf(),
            old(self)@.fresh < i32::MAX,
        ensures
            final(self).wf(),
            final(self)@.wf(),
            r as int == alloc_result(old(self)@),
            final(self)@ == alloc_post(old(self)@),
            !old(self)@.live.contains(r as int),
            final(self)@.live.contains(r as int),
    {
        let ghost s0 = self@;
        let ghost st0 = self.stack@;
        let bottom = self.get();
        if self.stack.len() == 0 {
            self.stack.push(bottom + 1);
            self.valid.resize((bottom + 1) as usize, false);
        }
        assert(0 <= bottom < self.valid.len());
        self.valid.set(bottom as usize, true);
        proof {
            let s1 = self@;
            let expect = alloc_post(s0);
            if st0.len() > 1 {
                assert(s0.free.last() == bottom as int);
                assert(s1.free =~= s0.free.drop_last());
            } else {
                assert(s1.free =~= s0.free);
            }
            assert(s1.live =~= expect.live);
            assert forall|i: int, j: int|
                1 <= i < j < self.stack@.len() implies self.stack@[i] != self.stack@[j] by {
                assert(self.stack@[i] == st0[i]);
                assert(self.stack@[j] == st0[j]);
            }
            assert forall|i: int| 1 <= i < self.stack@.len() implies 1 <= #[trigger] self.stack@[i]
                < self.valid@.len() && !self.valid@[self.stack@[i] as int] by {
                assert(self.stack@[i] == st0[i]);
                if st0.len() > 1 {
                    assert(st0[i] != st0[st0.len() - 1]);
                }
            }
            self.lemma_view_wf();
        }
        bottom
    }

    /// Releases `index`. Returns true and puts the handle on the free list if
    /// it was allocated; otherwise returns false and changes nothing.
    pub fn free(&mut self, index: i32) -> (r: bool)
        requires
            old(self).wf(),
        ensures
            final(self).wf(),
            final(self)@.wf(),
            r == old(self)@.live.contains(index as int),
            (final(self)@, r) == release_post(old(self)@, index as int),
    {
        if self.is_valid(index) {
            let ghost st0 = self.stack@;
            self.stack.push(index);
            self.valid.set(index as usize, false);
            proof {
                let s0 = old(self)@;
                assert(self@.live =~= s0.live.remove(index as int));
                assert(self@.free =~= s0.free.push(index as int));
                assert forall|i: int| 1 <= i < self.stack@.len() implies 1 <= #[trigger] self.stack@[i]
                    < self.valid@.len() && !self.valid@[self.stack@[i] as int] by {
                    if i < st0.len() {
                        assert(self.stack@[i] == st0[i]);
                    }
                }
                assert forall|i: int, j: int|
                    1 <= i < j < self.stack@.len() implies self.stack@[i] != self.stack@[j] by {
                    assert(self.stack@[i] == st0[i]);
                    if j < st0.len() {
                        assert(self.stack@[j] == st0[j]);
                    }
                }
                self.lemma_view_wf();
            }
            return true;
        }
        proof {
            self.lemma_view_wf();
        }
        return false;
    }
}

} // verus!
