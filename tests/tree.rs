use fiber_core::components::{ComponentNode, Node, RenderError};
use fiber_core::fiber::{reconcile_children, Fiber, Work};
use fiber_core::tree::FiberTree;

fn keyed(key: &str) -> Node {
    Node::Component(ComponentNode { key: Some(key.to_string()), output: Ok(None) })
}

#[test]
fn insert_get_remove_round_trip() {
    let mut t = FiberTree::new();
    assert!(t.get(0).is_none());
    assert!(t.get(1).is_none());
    let mut f = Fiber::new();
    f.work_type = Work::Placement;
    let h = t.insert(f);
    assert_eq!(h, 1);
    assert_eq!(t.get(h).unwrap().work_type, Work::Placement);
    let back = t.remove(h).unwrap();
    assert_eq!(back.work_type, Work::Placement);
    assert!(t.get(h).is_none());
    assert!(t.remove(h).is_none());
    assert!(t.remove(99).is_none());
}

#[test]
fn removed_handle_is_reused_by_the_arena() {
    let mut t = FiberTree::new();
    let a = t.insert(Fiber::new());
    let b = t.insert(Fiber::new());
    assert_ne!(a, b);
    assert!(t.remove(a).is_some());
    let c = t.insert(Fiber::new());
    assert_eq!(c, a);
    assert!(t.get(b).is_some());
}

#[test]
fn attached_children_are_linked_in_order() {
    let mut t = FiberTree::new();
    let root = t.insert(Fiber::new());
    let old: Vec<Fiber> = vec![];
    let new = vec![keyed("a"), keyed("b"), keyed("c")];
    let r = reconcile_children(Some(root), &old, &new);
    let hs = t.attach_children(Some(root), r.fibers);
    assert_eq!(hs.len(), 3);
    assert_eq!(t.get(root).unwrap().child, Some(hs[0]));
    assert_eq!(t.get(hs[0]).unwrap().sibling, Some(hs[1]));
    assert_eq!(t.get(hs[1]).unwrap().sibling, Some(hs[2]));
    assert_eq!(t.get(hs[2]).unwrap().sibling, None);
    for (i, h) in hs.iter().enumerate() {
        let f = t.get(*h).unwrap();
        assert_eq!(f.parent, Some(root));
        assert_eq!(f.index, Some(i));
        assert_eq!(f.work_type, Work::Placement);
    }
    assert_eq!(t.get(hs[1]).unwrap().key, Some("b".to_string()));
}

#[test]
fn attaching_no_children_clears_the_child_link() {
    let mut t = FiberTree::new();
    let mut p = Fiber::new();
    p.child = Some(42);
    let root = t.insert(p);
    let hs = t.attach_children(Some(root), vec![]);
    assert!(hs.is_empty());
    assert_eq!(t.get(root).unwrap().child, None);
}

#[test]
fn attaching_under_an_unknown_parent_links_only_the_children() {
    let mut t = FiberTree::new();
    let hs = t.attach_children(Some(50), vec![Fiber::new(), Fiber::new()]);
    assert_eq!(hs.len(), 2);
    assert_eq!(t.get(hs[0]).unwrap().parent, Some(50));
    assert_eq!(t.get(hs[0]).unwrap().sibling, Some(hs[1]));
    assert!(t.get(50).is_none());
}

#[test]
fn error_registry_records_failures() {
    let mut f = Fiber::new();
    assert!(!f.has_errors());
    f.record_error(RenderError::new("first".to_string()));
    assert!(f.has_errors());
    f.record_error(RenderError::new("second".to_string()));
    assert_eq!(f.errors.len(), 2);
    assert_eq!(f.errors[1].message, "second");
    let copy = f.errors[0].duplicate();
    assert_eq!(copy.message, "first");
}

#[test]
fn unmatched_old_children_are_marked_for_deletion() {
    let mut t = FiberTree::new();
    let old_new = vec![keyed("a"), keyed("b")];
    let first = reconcile_children(None, &vec![], &old_new);
    let old_hs = t.attach_children(None, first.fibers);
    let mut old: Vec<Fiber> = Vec::new();
    for h in old_hs.iter() {
        let mut f = Fiber::new();
        f.key = t.get(*h).unwrap().key.clone();
        old.push(f);
    }
    let second = reconcile_children(None, &old, &vec![keyed("b")]);
    assert_eq!(second.deletions, vec![0]);
    for d in second.deletions.iter() {
        assert!(t.mark_deleted(old_hs[*d]));
    }
    assert_eq!(t.get(old_hs[0]).unwrap().work_type, Work::Deletion);
    assert_eq!(t.get(old_hs[1]).unwrap().work_type, Work::Placement);
    assert!(!t.mark_deleted(77));
}
