use fiber_core::components::{ComponentNode, Host, Node, RenderError, Type};
use fiber_core::fiber::{reconcile_children, Fiber, Work};

fn keyed(key: &str) -> Node {
    Node::Component(ComponentNode { key: Some(key.to_string()), output: Ok(None) })
}

fn unkeyed() -> Node {
    Node::Component(ComponentNode { key: None, output: Ok(None) })
}

fn failing() -> Node {
    Node::Component(ComponentNode { key: None, output: Err(RenderError::new("bad".to_string())) })
}

fn old_fiber(key: Option<&str>, hook: u64) -> Fiber {
    let mut f = Fiber::new();
    f.key = key.map(|k| k.to_string());
    f.component_type = Type::Component;
    f.hooks = vec![hook];
    f
}

#[test]
fn new_fiber_is_blank() {
    let f = Fiber::new();
    assert_eq!(f.work_type, Work::NoWork);
    assert_eq!(f.component_type, Type::NoType);
    assert!(f.parent.is_none() && f.child.is_none() && f.sibling.is_none());
    assert!(f.alternate.is_none() && f.index.is_none() && f.key.is_none());
    assert!(f.errors.is_empty() && f.hooks.is_empty());
}

#[test]
fn keyed_children_pair_by_key_after_reorder() {
    let old = vec![old_fiber(Some("a"), 10), old_fiber(Some("b"), 11), old_fiber(Some("c"), 12)];
    let new = vec![keyed("c"), keyed("a"), keyed("b")];
    let r = reconcile_children(Some(7), &old, &new);
    let alts: Vec<Option<usize>> = r.fibers.iter().map(|f| f.alternate).collect();
    assert_eq!(alts, vec![Some(2), Some(0), Some(1)]);
    for f in r.fibers.iter() {
        assert_eq!(f.work_type, Work::Update);
        assert_eq!(f.parent, Some(7));
    }
    assert_eq!(r.fibers[0].hooks, vec![12]);
    assert_eq!(r.fibers[1].hooks, vec![10]);
    assert_eq!(r.fibers[2].hooks, vec![11]);
    assert_eq!(r.fibers[0].index, Some(0));
    assert_eq!(r.fibers[0].key, Some("c".to_string()));
    assert!(r.deletions.is_empty());
}

#[test]
fn unkeyed_children_pair_by_position_and_place_the_extra() {
    let old = vec![old_fiber(None, 1), old_fiber(None, 2)];
    let new = vec![unkeyed(), unkeyed(), unkeyed()];
    let r = reconcile_children(None, &old, &new);
    assert_eq!(r.fibers[0].alternate, Some(0));
    assert_eq!(r.fibers[1].alternate, Some(1));
    assert_eq!(r.fibers[2].alternate, None);
    assert_eq!(r.fibers[0].work_type, Work::Update);
    assert_eq!(r.fibers[1].work_type, Work::Update);
    assert_eq!(r.fibers[2].work_type, Work::Placement);
    assert!(r.fibers[2].hooks.is_empty());
    assert!(r.deletions.is_empty());
}

#[test]
fn shrinking_unkeyed_list_updates_position_zero_and_deletes_the_rest() {
    let old = vec![old_fiber(None, 1), old_fiber(None, 2)];
    let new = vec![unkeyed()];
    let r = reconcile_children(None, &old, &new);
    assert_eq!(r.fibers.len(), 1);
    assert_eq!(r.fibers[0].work_type, Work::Update);
    assert_eq!(r.fibers[0].alternate, Some(0));
    assert_eq!(r.fibers[0].hooks, vec![1]);
    assert_eq!(r.deletions, vec![1]);
}

#[test]
fn unmatched_old_fibers_are_deleted_once_in_order() {
    let old = vec![
        old_fiber(Some("a"), 1),
        old_fiber(Some("b"), 2),
        old_fiber(None, 3),
        old_fiber(Some("d"), 4),
    ];
    let new = vec![keyed("b"), keyed("z")];
    let r = reconcile_children(None, &old, &new);
    assert_eq!(r.fibers[0].alternate, Some(1));
    assert_eq!(r.fibers[1].work_type, Work::Placement);
    assert_eq!(r.deletions, vec![0, 2, 3]);
    for f in r.fibers.iter() {
        if let Some(a) = f.alternate {
            assert!(!r.deletions.contains(&a));
        }
    }
}

#[test]
fn all_old_deleted_when_no_children() {
    let old = vec![old_fiber(Some("a"), 1), old_fiber(None, 2)];
    let new: Vec<Node> = vec![];
    let r = reconcile_children(None, &old, &new);
    assert!(r.fibers.is_empty());
    assert_eq!(r.deletions, vec![0, 1]);
}

#[test]
fn fresh_mount_places_every_child() {
    let old: Vec<Fiber> = vec![];
    let new = vec![keyed("a"), unkeyed()];
    let r = reconcile_children(None, &old, &new);
    assert_eq!(r.fibers.len(), 2);
    for f in r.fibers.iter() {
        assert_eq!(f.work_type, Work::Placement);
        assert!(f.alternate.is_none());
        assert!(f.hooks.is_empty());
    }
    assert!(r.deletions.is_empty());
}

#[test]
fn duplicate_new_key_pairs_only_the_first() {
    let old = vec![old_fiber(Some("a"), 1)];
    let new = vec![keyed("a"), keyed("a")];
    let r = reconcile_children(None, &old, &new);
    assert_eq!(r.fibers[0].alternate, Some(0));
    assert_eq!(r.fibers[1].alternate, None);
    assert_eq!(r.fibers[1].work_type, Work::Placement);
}

#[test]
fn keyed_child_does_not_pair_with_unkeyed_old() {
    let old = vec![old_fiber(None, 1)];
    let new = vec![keyed("a")];
    let r = reconcile_children(None, &old, &new);
    assert_eq!(r.fibers[0].work_type, Work::Placement);
    assert_eq!(r.deletions, vec![0]);
}

#[test]
fn render_failure_stays_on_its_own_fiber() {
    let old = vec![old_fiber(None, 1), old_fiber(None, 2), old_fiber(None, 3)];
    let new = vec![unkeyed(), failing(), unkeyed()];
    let r = reconcile_children(None, &old, &new);
    assert_eq!(r.fibers.len(), 3);
    assert!(r.fibers[0].errors.is_empty());
    assert_eq!(r.fibers[1].errors.len(), 1);
    assert_eq!(r.fibers[1].errors[0].message, "bad");
    assert!(r.fibers[2].errors.is_empty());
    for f in r.fibers.iter() {
        assert_eq!(f.work_type, Work::Update);
    }
}

#[test]
fn non_component_kinds_carry_no_hooks() {
    let old = vec![old_fiber(Some("h"), 9)];
    let new = vec![Node::Host(Host { key: Some("h".to_string()) })];
    let r = reconcile_children(None, &old, &new);
    assert_eq!(r.fibers[0].work_type, Work::Update);
    assert_eq!(r.fibers[0].component_type, Type::Host);
    assert!(r.fibers[0].hooks.is_empty());
}
