//! Fiber records and the reconciliation of one level of children: each new
//! child is paired with an old sibling by key, or by position when unkeyed,
//! and classified as an update or a placement; old siblings left unpaired
//! are scheduled for deletion.
use vstd::prelude::*;
use crate::components::{Type, Node, RenderError, Fundamental, key_view, clone_key};

verus! {

/// The work that a pass assigns to a fiber.
#[derive(Clone, Copy, Debug, PartialEq, Eq, Structural)]
pub enum Work {
    NoWork,
    Placement,
    Update,
    Deletion,
}

/// One component instance in a work pass. Links name other fibers by their
/// position in the arena that holds them; `alternate` names the fiber of the
/// previous committed pass that stands for the same logical node.
pub struct Fiber {
    pub work_type: Work,
    pub component_type: Type,
    pub parent: Option<usize>,
    pub child: Option<usize>,
    pub sibling: Option<usize>,
    pub alternate: Option<usize>,
    /// Position among its siblings.
    pub index: Option<usize>,
    /// The author-supplied key of its node.
    pub key: Option<String>,
    /// Failures raised by this fiber's own render step.
    pub errors: Vec<RenderError>,
    /// Hook slots, in the order the component's render uses them.
    pub hooks: Vec<u64>,
}

impl Fiber {
    /// A fiber with no work, no kind, no links, no key and empty registries.
    pub fn new() -> (r: Fiber)
        ensures
            r.work_type == Work::NoWork,
            r.component_type == Type::NoType,
            r.parent is None,
            r.child is None,
            r.sibling is None,
            r.alternate is None,
            r.index is None,
            r.key is None,
            r.errors@.len() == 0,
            r.hooks@.len() == 0,
    {
        Fiber {
            work_type: Work::NoWork,
            component_type: Type::NoType,
            parent: None,
            child: None,
            sibling: None,
            alternate: None,
            index: None,
            key: None,
            errors: Vec::new(),
            hooks: Vec::new(),
        }
    }
}

impl Fiber {
    /// Records a failure of this fiber's own render step.
    pub fn record_error(&mut self, e: RenderError)
        ensures
            final(self).errors@ == old(self).errors@.push(e),
            final(self).work_type == old(self).work_type,
            final(self).component_type == old(self).component_type,
            final(self).parent == old(self).parent,
            final(self).child == old(self).child,
            final(self).sibling == old(self).sibling,
            final(self).alternate == old(self).alternate,
            final(self).index == old(self).index,
            final(self).key == old(self).key,
            final(self).hooks@ == old(self).hooks@,
    {
        self.errors.push(e);
    }

    /// Whether a failure was recorded on this fiber.
    pub fn has_errors(&self) -> (r: bool)
        ensures
            r == (self.errors@.len() > 0),
    {
        self.errors.len() > 0
    }
}

/// The keys of a list of fibers.
pub open spec fn fiber_keys(fs: Seq<Fiber>) -> Seq<Option<Seq<char>>> {
    fs.map_values(|f: Fiber| key_view(f.key))
}

/// The keys of a list of nodes.
pub open spec fn node_keys(ns: Seq<Node>) -> Seq<Option<Seq<char>>> {
    ns.map_values(|n: Node| n.spec_key())
}

/// `i` is the first position in `keys` that holds `k`.
pub open spec fn first_index(keys: Seq<Option<Seq<char>>>, k: Option<Seq<char>>, i: int) -> bool {
    &&& 0 <= i < keys.len()
    &&& keys[i] == k
    &&& forall|i2: int| 0 <= i2 < i ==> keys[i2] != k
}

/// The old sibling that new child `j` pairs with. A keyed child pairs with
/// the first old sibling of the same key, and only the first new child of a
/// key pairs at all. An unkeyed child pairs with the unkeyed old sibling at
/// its own position.
pub open spec fn match_of(
    old: Seq<Option<Seq<char>>>,
    new: Seq<Option<Seq<char>>>,
    j: int,
) -> Option<int> {
    match new[j] {
        Some(k) => if first_index(new, Some(k), j) && exists|i: int| first_index(old, Some(k), i) {
            Some(choose|i: int| first_index(old, Some(k), i))
        } else {
            None
        },
        None => if j < old.len() && old[j] is None {
            Some(j)
        } else {
            None
        },
    }
}

/// Some new child pairs with old sibling `i`.
pub open spec fn is_matched(
    old: Seq<Option<Seq<char>>>,
    new: Seq<Option<Seq<char>>>,
    i: int,
) -> bool {
    exists|j: int| 0 <= j < new.len() && match_of(old, new, j) == Some(i)
}

/// The fiber that reconciliation makes for child `j`: its kind, key and
/// position; update with the paired old sibling as alternate, or placement;
/// hook slots carried over from the alternate for a Component, none
/// otherwise; and the render failure of that child alone in its registry.
pub open spec fn child_fiber(
    f: Fiber,
    parent: Option<usize>,
    old: Seq<Fiber>,
    children: Seq<Node>,
    j: int,
) -> bool {
    let m = match_of(fiber_keys(old), node_keys(children), j);
    let n = children[j];
    &&& f.work_type == (if m is Some {
        Work::Update
    } else {
        Work::Placement
    })
    &&& (f.alternate is Some <==> m is Some)
    &&& m is Some ==> f.alternate.unwrap() as int == m.unwrap()
    &&& f.component_type == n.spec_type()
    &&& key_view(f.key) == n.spec_key()
    &&& f.index == Some(j as usize)
    &&& f.parent == parent
    &&& f.child is None
    &&& f.sibling is None
    &&& f.hooks@ == (if n.spec_type() == Type::Component && m is Some {
        old[m.unwrap()].hooks@
    } else {
        Seq::<u64>::empty()
    })
    &&& match n.spec_render() {
        Err(e) => f.errors@.len() == 1 && f.errors@[0].message@ == e.message@,
        Ok(_) => f.errors@.len() == 0,
    }
}

/// The outcome of reconciling one level of children: one fiber per new
/// child, in order, and the positions of the old siblings to tear down, in
/// increasing order.
pub struct Reconciliation {
    pub fibers: Vec<Fiber>,
    pub deletions: Vec<usize>,
}

proof fn lemma_first_index_unique(keys: Seq<Option<Seq<char>>>, k: Option<Seq<char>>, i: int, i2: int)
    requires
        first_index(keys, k, i),
        first_index(keys, k, i2),
    ensures
        i == i2,
{
    if i < i2 {
        assert(keys[i] != k);
    } else if i2 < i {
        assert(keys[i2] != k);
    }
}

/// Whether two optional keys are equal.
fn same_key(a: &Option<String>, b: &Option<String>) -> (r: bool)
    ensures
        r == (key_view(*a) == key_view(*b)),
{
    match (a, b) {
        (Some(x), Some(y)) => x.eq(y),
        (None, None) => true,
        _ => false,
    }
}

/// The first old sibling whose key is `k`.
fn find_in_old(old: &Vec<Fiber>, k: &Option<String>) -> (r: Option<usize>)
    ensures
        match r {
            Some(i) => first_index(fiber_keys(old@), key_view(*k), i as int),
            None => forall|i: int| 0 <= i < old@.len() ==> fiber_keys(old@)[i] != key_view(*k),
        },
{
    let ghost keys = fiber_keys(old@);
    let mut i: usize = 0;
    while i < old.len()
        invariant
            i <= old@.len(),
            keys == fiber_keys(old@),
            forall|i2: int| 0 <= i2 < i ==> keys[i2] != key_view(*k),
        decreases old@.len() - i,
    {
        if same_key(&old[i].key, k) {
            return Some(i);
        }
        i += 1;
    }
    None
}

/// Whether no child before position `j` has key `k`.
fn first_in_new(children: &Vec<Node>, j: usize, k: &Option<String>) -> (r: bool)
    requires
        j <= children@.len(),
    ensures
        r == forall|j2: int| 0 <= j2 < j ==> node_keys(children@)[j2] != key_view(*k),
{
    let ghost keys = node_keys(children@);
    let mut i: usize = 0;
    while i < j
        invariant
            i <= j <= children@.len(),
            keys == node_keys(children@),
            forall|i2: int| 0 <= i2 < i ==> keys[i2] != key_view(*k),
        decreases j - i,
    {
        let ki = children[i].get_key();
        assert(keys[i as int] == key_view(ki));
        if same_key(&ki, k) {
            return false;
        }
        i += 1;
    }
    true
}

/// A copy of a list of hook slots.
fn copy_hooks(h: &Vec<u64>) -> (r: Vec<u64>)
    ensures
        r@ == h@,
{
    let mut r: Vec<u64> = Vec::new();
    let mut i: usize = 0;
    while i < h.len()
        invariant
            i <= h@.len(),
            r@ == h@.subrange(0, i as int),
        decreases h@.len() - i,
    {
        r.push(h[i]);
        i += 1;
    }
    assert(r@ =~= h@);
    r
}

/// The old sibling that child `j` pairs with, as `match_of` states.
fn pair_child(old: &Vec<Fiber>, children: &Vec<Node>, j: usize) -> (r: Option<usize>)
    requires
        j < children@.len(),
    ensures
        match_of(fiber_keys(old@), node_keys(children@), j as int) == match r {
            Some(i) => Some(i as int),
            None => None::<int>,
        },
        r is Some ==> r.unwrap() < old@.len(),
{
    let ghost okeys = fiber_keys(old@);
    let ghost nkeys = node_keys(children@);
    let key = children[j].get_key();
    assert(nkeys[j as int] == key_view(key));
    match &key {
        Some(_) => {
            if first_in_new(children, j, &key) {
                let found = find_in_old(old, &key);
                proof {
                    assert(first_index(nkeys, key_view(key), j as int));
                    match found {
                        Some(i) => {
                            let c = choose|i2: int| first_index(okeys, key_view(key), i2);
                            lemma_first_index_unique(okeys, key_view(key), i as int, c);
                        },
                        None => {},
                    }
                }
                found
            } else {
                None
            }
        },
        None => {
            if j < old.len() && old[j].key.is_none() {
                Some(j)
            } else {
                None
            }
        },
    }
}

/// Reconciles the new children of a parent against the children of its
/// previous fiber (`old`, in sibling order). Every child gets a fiber as
/// `child_fiber` states; a render failure is recorded on that child's fiber
/// alone. The deletions are exactly the old siblings that no child pairs
/// with, each once, in increasing order.
pub fn reconcile_children(
    parent: Option<usize>,
    old: &Vec<Fiber>,
    children: &Vec<Node>,
) -> (r: Reconciliation)
    ensures
        r.fibers@.len() == children@.len(),
        forall|j: int|
            0 <= j < children@.len() ==> child_fiber(#[trigger] r.fibers@[j], parent, old@, children@, j),
        forall|i: usize|
            #![trigger r.deletions@.contains(i)]
            r.deletions@.contains(i) <==> i < old@.len() && !is_matched(
                fiber_keys(old@),
                node_keys(children@),
                i as int,
            ),
        forall|a: int, b: int|
            0 <= a < b < r.deletions@.len() ==> r.deletions@[a] < r.deletions@[b],
        forall|j: int, d: usize|
            0 <= j < children@.len() && #[trigger] r.deletions@.contains(d) ==> #[trigger] r.fibers@[j].alternate
                != Some(d),
        forall|j: int|
            0 <= j < children@.len() ==> (#[trigger] r.fibers@[j].errors@.len() > 0
                <==> children@[j].spec_render() is Err),
{
    let ghost okeys = fiber_keys(old@);
    let ghost nkeys = node_keys(children@);
    let mut matched: Vec<bool> = Vec::new();
    let mut i: usize = 0;
    while i < old.len()
        invariant
            i <= old@.len(),
            matched@.len() == i,
            forall|i2: int| 0 <= i2 < i ==> !matched@[i2],
        decreases old@.len() - i,
    {
        matched.push(false);
        i += 1;
    }
    let mut fibers: Vec<Fiber> = Vec::new();
    let mut j: usize = 0;
    while j < children.len()
        invariant
            j <= children@.len(),
            okeys == fiber_keys(old@),
            nkeys == node_keys(children@),
            matched@.len() == old@.len(),
            fibers@.len() == j,
            forall|j2: int| 0 <= j2 < j ==> child_fiber(#[trigger] fibers@[j2], parent, old@, children@, j2),
            forall|i2: int|
                0 <= i2 < old@.len() ==> (#[trigger] matched@[i2] <==> exists|j2: int|
                    0 <= j2 < j && match_of(okeys, nkeys, j2) == Some(i2)),
        decreases children@.len() - j,
    {
        let m = pair_child(old, children, j);
        let node = &children[j];
        let mut f = Fiber::new();
        f.component_type = node.get_type();
        f.key = node.get_key();
        f.index = Some(j);
        f.parent = parent;
        match m {
            Some(p) => {
                f.work_type = Work::Update;
                f.alternate = Some(p);
                if f.component_type == Type::Component {
                    f.hooks = copy_hooks(&old[p].hooks);
                } else {
                    assert(f.hooks@ =~= Seq::<u64>::empty());
                }
                matched.set(p, true);
            },
            None => {
                f.work_type = Work::Placement;
                assert(f.hooks@ =~= Seq::<u64>::empty());
            },
        }
        match node.render() {
            Err(e) => {
                f.errors.push(e.duplicate());
            },
            Ok(_) => {},
        }
        let ghost jj = j as int;
        assert(nkeys[jj] == children@[jj].spec_key());
        assert(child_fiber(f, parent, old@, children@, jj));
        fibers.push(f);
        j += 1;
        proof {
            assert forall|i2: int| 0 <= i2 < old@.len() implies (#[trigger] matched@[i2] <==> exists|j2: int|
                0 <= j2 < j && match_of(okeys, nkeys, j2) == Some(i2)) by {
                if matched@[i2] {
                    if match_of(okeys, nkeys, jj) != Some(i2) {
                        let w = choose|j2: int| 0 <= j2 < jj && match_of(okeys, nkeys, j2) == Some(i2);
                        assert(0 <= w < j && match_of(okeys, nkeys, w) == Some(i2));
                    }
                }
                if exists|j2: int| 0 <= j2 < j && match_of(okeys, nkeys, j2) == Some(i2) {
                    let w = choose|j2: int| 0 <= j2 < j && match_of(okeys, nkeys, j2) == Some(i2);
                    if w < jj {
                        assert(exists|j2: int| 0 <= j2 < jj && match_of(okeys, nkeys, j2) == Some(i2));
                    }
                }
            }
        }
    }
    let mut deletions: Vec<usize> = Vec::new();
    let mut i: usize = 0;
    while i < old.len()
        invariant
            i <= old@.len(),
            okeys == fiber_keys(old@),
            nkeys == node_keys(children@),
            matched@.len() == old@.len(),
            forall|i2: int|
                0 <= i2 < old@.len() ==> (#[trigger] matched@[i2] <==> is_matched(okeys, nkeys, i2)),
            forall|d: usize|
                #![trigger deletions@.contains(d)]
                deletions@.contains(d) <==> d < i && !is_matched(okeys, nkeys, d as int),
            forall|a: int, b: int| 0 <= a < b < deletions@.len() ==> deletions@[a] < deletions@[b],
            forall|a: int| 0 <= a < deletions@.len() ==> deletions@[a] < i,
        decreases old@.len() - i,
    {
        if !matched[i] {
            let ghost d0 = deletions@;
            deletions.push(i);
            proof {
                assert forall|d: usize| #![trigger deletions@.contains(d)]
                    deletions@.contains(d) <==> d < i + 1 && !is_matched(okeys, nkeys, d as int) by {
                    if deletions@.contains(d) && d != i {
                        let w = choose|w: int| 0 <= w < deletions@.len() && deletions@[w] == d;
                        assert(d0[w] == d);
                        assert(d0.contains(d));
                    }
                    if d < i && !is_matched(okeys, nkeys, d as int) {
                        assert(d0.contains(d));
                        let w = choose|w: int| 0 <= w < d0.len() && d0[w] == d;
                        assert(deletions@[w] == d);
                    }
                    if d == i {
                        assert(deletions@[deletions@.len() - 1] == d);
                    }
                }
            }
        } else {
            proof {
                assert forall|d: usize| #![trigger deletions@.contains(d)]
                    deletions@.contains(d) <==> d < i + 1 && !is_matched(okeys, nkeys, d as int) by {
                    if deletions@.contains(d) {
                        let w = choose|w: int| 0 <= w < deletions@.len() && deletions@[w] == d;
                        assert(deletions@[w] < i);
                    }
                }
            }
        }
        i += 1;
    }
    proof {
        assert forall|j: int, d: usize|
            0 <= j < children@.len() && #[trigger] deletions@.contains(d) implies #[trigger] fibers@[j].alternate
                != Some(d) by {
            assert(child_fiber(fibers@[j], parent, old@, children@, j));
            if fibers@[j].alternate == Some(d) {
                assert(match_of(okeys, nkeys, j) == Some(d as int));
                assert(is_matched(okeys, nkeys, d as int));
            }
        }
        assert forall|j: int|
            0 <= j < children@.len() implies (#[trigger] fibers@[j].errors@.len() > 0
                <==> children@[j].spec_render() is Err) by {
            assert(child_fiber(fibers@[j], parent, old@, children@, j));
        }
    }
    Reconciliation { fibers, deletions }
}

/// Key-stable matching: a keyed child pairs with the old sibling of the same
/// key wherever either stands, when each is the first of that key among its
/// siblings.
pub proof fn lemma_key_stable(
    old: Seq<Option<Seq<char>>>,
    new: Seq<Option<Seq<char>>>,
    k: Seq<char>,
    i: int,
    j: int,
)
    requires
        first_index(old, Some(k), i),
        first_index(new, Some(k), j),
    ensures
        match_of(old, new, j) == Some(i),
{
    let c = choose|i2: int| first_index(old, Some(k), i2);
    lemma_first_index_unique(old, Some(k), i, c);
}

/// Unkeyed positional matching: an unkeyed child pairs with the unkeyed old
/// sibling at its own position, and is a placement where the old list has no
/// such position.
pub proof fn lemma_unkeyed_positional(
    old: Seq<Option<Seq<char>>>,
    new: Seq<Option<Seq<char>>>,
    j: int,
)
    requires
        0 <= j < new.len(),
        new[j] is None,
    ensures
        j < old.len() && old[j] is None ==> match_of(old, new, j) == Some(j),
        j >= old.len() ==> match_of(old, new, j) is None,
{
}

/// No old sibling pairs with two new children, so the update classification
/// hands each old fiber, and its hook slots, to at most one new fiber.
pub proof fn lemma_match_injective(
    old: Seq<Option<Seq<char>>>,
    new: Seq<Option<Seq<char>>>,
    j1: int,
    j2: int,
)
    requires
        0 <= j1 < new.len(),
        0 <= j2 < new.len(),
        match_of(old, new, j1) is Some,
        match_of(old, new, j1) == match_of(old, new, j2),
    ensures
        j1 == j2,
{
    let i = match_of(old, new, j1).unwrap();
    match (new[j1], new[j2]) {
        (Some(k1), Some(k2)) => {
            let c1 = choose|x: int| first_index(old, Some(k1), x);
            let c2 = choose|x: int| first_index(old, Some(k2), x);
            assert(old[c1] == Some(k1));
            assert(old[c2] == Some(k2));
            lemma_first_index_unique(new, Some(k1), j1, j2);
        },
        (Some(k1), None) => {
            let c1 = choose|x: int| first_index(old, Some(k1), x);
            assert(old[c1] == Some(k1));
        },
        (None, Some(k2)) => {
            let c2 = choose|x: int| first_index(old, Some(k2), x);
            assert(old[c2] == Some(k2));
        },
        (None, None) => {},
    }
}

} // verus!
