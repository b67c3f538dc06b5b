use fiber_core::components::{
    BasicComponent, BasicNode, Component, ComponentNode, Fragment, Fundamental, Host, Node,
    RenderError, Type,
};

fn host(key: &str) -> Node {
    Node::Host(Host { key: Some(key.to_string()) })
}

fn key_of(n: &Node) -> Option<String> {
    Fundamental::get_key(n)
}

#[test]
fn fragment_exposes_its_children_in_order() {
    let f = Fragment { key: Some("f".to_string()), children: vec![host("a"), host("b"), host("c")] };
    let children = Fundamental::get_children(&f).unwrap();
    let keys: Vec<Option<String>> = children.iter().map(key_of).collect();
    assert_eq!(
        keys,
        vec![Some("a".to_string()), Some("b".to_string()), Some("c".to_string())]
    );
    assert!(matches!(Fundamental::render(&f), Ok(None)));
    assert_eq!(Fundamental::get_type(&f), Type::Fragment);
    assert_eq!(Fundamental::get_key(&f), Some("f".to_string()));
}

#[test]
fn empty_fragment_exposes_empty_children() {
    let f = Node::Fragment(Fragment { key: None, children: vec![] });
    assert_eq!(f.get_children().unwrap().len(), 0);
    assert!(matches!(f.render(), Ok(None)));
    assert_eq!(f.get_key(), None);
}

#[test]
fn basic_component_tags_and_render() {
    let b = BasicNode { key: Some("k".to_string()), output: Ok(Some(Box::new(host("leaf")))) };
    assert_eq!(BasicComponent::get_type(&b), Type::Basic);
    assert!(BasicComponent::get_children(&b).is_none());
    assert_eq!(Fundamental::get_type(&b), Type::Basic);
    assert!(Fundamental::get_children(&b).is_none());
    assert_eq!(BasicComponent::get_key(&b), Some("k".to_string()));
    match BasicComponent::render(&b) {
        Ok(Some(n)) => assert_eq!(key_of(n), Some("leaf".to_string())),
        _ => panic!("expected a rendered child"),
    }
}

#[test]
fn component_tags_and_failed_render() {
    let c = ComponentNode { key: None, output: Err(RenderError::new("boom".to_string())) };
    assert_eq!(Component::get_type(&c), Type::Component);
    assert!(Component::get_children(&c).is_none());
    assert_eq!(Fundamental::get_type(&c), Type::Component);
    match Component::render(&c) {
        Err(e) => assert_eq!(e.message, "boom"),
        _ => panic!("expected a failure"),
    }
    let n = Node::Component(c);
    assert_eq!(n.get_type(), Type::Component);
    assert!(n.render().is_err());
}

#[test]
fn host_is_a_leaf() {
    let h = host("h");
    assert_eq!(h.get_type(), Type::Host);
    assert!(matches!(h.render(), Ok(None)));
    assert!(h.get_children().is_none());
}
