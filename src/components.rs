//! The node kinds of an authored tree, and the capability contract that the
//! tree walker queries on every node: render step, kind tag, explicit
//! children and key.
use vstd::prelude::*;

verus! {

/// The kind of a node, which selects how its fiber is handled.
#[derive(Clone, Copy, Debug, PartialEq, Eq, Structural)]
pub enum Type {
    NoType,
    Fragment,
    Basic,
    Component,
    Host,
}

/// A failure raised by a node's render step.
pub struct RenderError {
    pub message: String,
}

impl RenderError {
    pub fn new(message: String) -> (r: Self)
        ensures
            r.message@ == message@,
    {
        RenderError { message }
    }

    /// A copy of this error.
    pub fn duplicate(&self) -> (r: Self)
        ensures
            r.message@ == self.message@,
    {
        RenderError { message: self.message.clone() }
    }
}

/// A Fragment groups several children at one level of the tree. It renders
/// nothing itself; its children come from its explicit list.
pub struct Fragment {
    pub key: Option<String>,
    pub children: Vec<Node>,
}

/// A stateless Basic Component. It holds the outcome of its render step: at
/// most one child, or a failure.
pub struct BasicNode {
    pub key: Option<String>,
    pub output: Result<Option<Box<Node>>, RenderError>,
}

/// A stateful Component, whose fiber may carry hook slots across renders. It
/// holds the outcome of its render step: at most one child, or a failure.
pub struct ComponentNode {
    pub key: Option<String>,
    pub output: Result<Option<Box<Node>>, RenderError>,
}

/// A host primitive: a leaf that the backend consumes directly.
pub struct Host {
    pub key: Option<String>,
}

/// A node of the authored tree.
pub enum Node {
    Fragment(Fragment),
    Basic(BasicNode),
    Component(ComponentNode),
    Host(Host),
}

/// The view of an optional key.
pub open spec fn key_view(k: Option<String>) -> Option<Seq<char>> {
    match k {
        Some(s) => Some(s@),
        None => None,
    }
}

/// The view of a render outcome held by a render-based node.
pub open spec fn output_view(o: Result<Option<Box<Node>>, RenderError>) -> Result<
    Option<Node>,
    RenderError,
> {
    match o {
        Ok(Some(b)) => Ok(Some(*b)),
        Ok(None) => Ok(None),
        Err(e) => Err(e),
    }
}

/// Hands out a render outcome held by a render-based node.
fn output_ref(o: &Result<Option<Box<Node>>, RenderError>) -> (r: Result<Option<&Node>, &RenderError>)
    ensures
        match (r, output_view(*o)) {
            (Ok(Some(n)), Ok(Some(m))) => *n == m,
            (Ok(None), Ok(None)) => true,
            (Err(e), Err(f)) => *e == f,
            _ => false,
        },
{
    match o {
        Ok(Some(b)) => Ok(Some(&**b)),
        Ok(None) => Ok(None),
        Err(e) => Err(e),
    }
}

/// A copy of an optional key.
pub fn clone_key(k: &Option<String>) -> (r: Option<String>)
    ensures
        key_view(r) == key_view(*k),
{
    match k {
        Some(s) => Some(s.clone()),
        None => None,
    }
}

/// The capability set that every node kind offers to the tree walker.
pub trait Fundamental {
    /// The kind of the node.
    spec fn spec_type(&self) -> Type;

    /// The author-supplied key, if any.
    spec fn spec_key(&self) -> Option<Seq<char>>;

    /// The explicit children, for grouping kinds.
    spec fn spec_children(&self) -> Option<Seq<Node>>;

    /// The outcome of the render step.
    spec fn spec_render(&self) -> Result<Option<Node>, RenderError>;

    /// The render step: at most one child node, or a failure. `None` means
    /// the node expands no further.
    fn render(&self) -> (r: Result<Option<&Node>, &RenderError>)
        ensures
            match (r, self.spec_render()) {
                (Ok(Some(n)), Ok(Some(m))) => *n == m,
                (Ok(None), Ok(None)) => true,
                (Err(e), Err(f)) => *e == f,
                _ => false,
            },
    ;

    /// The kind tag.
    fn get_type(&self) -> (r: Type)
        ensures
            r == self.spec_type(),
    ;

    /// The explicit children, in order; `None` for render-based kinds.
    fn get_children(&self) -> (r: Option<&Vec<Node>>)
        ensures
            match (r, self.spec_children()) {
                (Some(v), Some(s)) => v@ == s,
                (None, None) => true,
                _ => false,
            },
    ;

    /// The key used to match this node against a prior fiber.
    fn get_key(&self) -> (r: Option<String>)
        ensures
            key_view(r) == self.spec_key(),
    ;
}

impl Fundamental for Fragment {
    open spec fn spec_type(&self) -> Type {
        Type::Fragment
    }

    open spec fn spec_key(&self) -> Option<Seq<char>> {
        key_view(self.key)
    }

    open spec fn spec_children(&self) -> Option<Seq<Node>> {
        Some(self.children@)
    }

    open spec fn spec_render(&self) -> Result<Option<Node>, RenderError> {
        Ok(None)
    }

    fn render(&self) -> (r: Result<Option<&Node>, &RenderError>) {
        Ok(None)
    }

    fn get_type(&self) -> (r: Type) {
        Type::Fragment
    }

    fn get_children(&self) -> (r: Option<&Vec<Node>>) {
        Some(&self.children)
    }

    fn get_key(&self) -> (r: Option<String>) {
        clone_key(&self.key)
    }
}

/// Fragment pass-through: a Fragment exposes its explicit children verbatim,
/// in order, and its render step yields nothing.
pub proof fn lemma_fragment_pass_through(f: Fragment)
    ensures
        f.spec_children() == Some(f.children@),
        f.spec_render() == Ok::<Option<Node>, RenderError>(None),
        Node::Fragment(f).spec_children() == Some(f.children@),
        Node::Fragment(f).spec_render() == Ok::<Option<Node>, RenderError>(None),
{
}

/// A Basic Component has no hooks: no persistent state and no lifecycle. Its
/// children come only from its render step.
pub trait BasicComponent {
    /// Always the Basic tag.
    fn get_type(&self) -> (r: Type)
        ensures
            r == Type::Basic,
    {
        Type::Basic
    }

    /// Never an explicit list of children.
    fn get_children(&self) -> (r: Option<&Vec<Node>>)
        ensures
            r is None,
    {
        None
    }

    /// The key used to match this node against a prior fiber.
    fn get_key(&self) -> Option<String>;

    /// The render step.
    fn render(&self) -> Result<Option<&Node>, &RenderError>;
}

/// A Component may carry hook slots across renders. Its children come only
/// from its render step.
pub trait Component {
    /// Always the Component tag.
    fn get_type(&self) -> (r: Type)
        ensures
            r == Type::Component,
    {
        Type::Component
    }

    /// Never an explicit list of children.
    fn get_children(&self) -> (r: Option<&Vec<Node>>)
        ensures
            r is None,
    {
        None
    }

    /// The key used to match this node against a prior fiber.
    fn get_key(&self) -> Option<String>;

    /// The render step.
    fn render(&self) -> Result<Option<&Node>, &RenderError>;
}

impl Fundamental for BasicNode {
    open spec fn spec_type(&self) -> Type {
        Type::Basic
    }

    open spec fn spec_key(&self) -> Option<Seq<char>> {
        key_view(self.key)
    }

    open spec fn spec_children(&self) -> Option<Seq<Node>> {
        None
    }

    open spec fn spec_render(&self) -> Result<Option<Node>, RenderError> {
        output_view(self.output)
    }

    fn render(&self) -> (r: Result<Option<&Node>, &RenderError>) {
        output_ref(&self.output)
    }

    fn get_type(&self) -> (r: Type) {
        Type::Basic
    }

    fn get_children(&self) -> (r: Option<&Vec<Node>>) {
        None
    }

    fn get_key(&self) -> (r: Option<String>) {
        clone_key(&self.key)
    }
}

impl BasicComponent for BasicNode {
    fn get_key(&self) -> Option<String> {
        clone_key(&self.key)
    }

    fn render(&self) -> Result<Option<&Node>, &RenderError> {
        output_ref(&self.output)
    }
}

impl Fundamental for ComponentNode {
    open spec fn spec_type(&self) -> Type {
        Type::Component
    }

    open spec fn spec_key(&self) -> Option<Seq<char>> {
        key_view(self.key)
    }

    open spec fn spec_children(&self) -> Option<Seq<Node>> {
        None
    }

    open spec fn spec_render(&self) -> Result<Option<Node>, RenderError> {
        output_view(self.output)
    }

    fn render(&self) -> (r: Result<Option<&Node>, &RenderError>) {
        output_ref(&self.output)
    }

    fn get_type(&self) -> (r: Type) {
        Type::Component
    }

    fn get_children(&self) -> (r: Option<&Vec<Node>>) {
        None
    }

    fn get_key(&self) -> (r: Option<String>) {
        clone_key(&self.key)
    }
}

impl Component for ComponentNode {
    fn get_key(&self) -> Option<String> {
        clone_key(&self.key)
    }

    fn render(&self) -> Result<Option<&Node>, &RenderError> {
        output_ref(&self.output)
    }
}

impl Fundamental for Host {
    open spec fn spec_type(&self) -> Type {
        Type::Host
    }

    open spec fn spec_key(&self) -> Option<Seq<char>> {
        key_view(self.key)
    }

    open spec fn spec_children(&self) -> Option<Seq<Node>> {
        None
    }

    open spec fn spec_render(&self) -> Result<Option<Node>, RenderError> {
        Ok(None)
    }

    fn render(&self) -> (r: Result<Option<&Node>, &RenderError>) {
        Ok(None)
    }

    fn get_type(&self) -> (r: Type) {
        Type::Host
    }

    fn get_children(&self) -> (r: Option<&Vec<Node>>) {
        None
    }

    fn get_key(&self) -> (r: Option<String>) {
        clone_key(&self.key)
    }
}

impl Fundamental for Node {
    open spec fn spec_type(&self) -> Type {
        match self {
            Node::Fragment(f) => f.spec_type(),
            Node::Basic(b) => b.spec_type(),
            Node::Component(c) => c.spec_type(),
            Node::Host(h) => h.spec_type(),
        }
    }

    open spec fn spec_key(&self) -> Option<Seq<char>> {
        match self {
            Node::Fragment(f) => f.spec_key(),
            Node::Basic(b) => b.spec_key(),
            Node::Component(c) => c.spec_key(),
            Node::Host(h) => h.spec_key(),
        }
    }

    open spec fn spec_children(&self) -> Option<Seq<Node>> {
        match self {
            Node::Fragment(f) => f.spec_children(),
            Node::Basic(b) => b.spec_children(),
            Node::Component(c) => c.spec_children(),
            Node::Host(h) => h.spec_children(),
        }
    }

    open spec fn spec_render(&self) -> Result<Option<Node>, RenderError> {
        match self {
            Node::Fragment(f) => f.spec_render(),
            Node::Basic(b) => b.spec_render(),
            Node::Component(c) => c.spec_render(),
            Node::Host(h) => h.spec_render(),
        }
    }

    fn render(&self) -> (r: Result<Option<&Node>, &RenderError>) {
        match self {
            Node::Fragment(f) => Fundamental::render(f),
            Node::Basic(b) => Fundamental::render(b),
            Node::Component(c) => Fundamental::render(c),
            Node::Host(h) => Fundamental::render(h),
        }
    }

    fn get_type(&self) -> (r: Type) {
        match self {
            Node::Fragment(f) => Fundamental::get_type(f),
            Node::Basic(b) => Fundamental::get_type(b),
            Node::Component(c) => Fundamental::get_type(c),
            Node::Host(h) => Fundamental::get_type(h),
        }
    }

    fn get_children(&self) -> (r: Option<&Vec<Node>>) {
        match self {
            Node::Fragment(f) => Fundamental::get_children(f),
            Node::Basic(b) => Fundamental::get_children(b),
            Node::Component(c) => Fundamental::get_children(c),
            Node::Host(h) => Fundamental::get_children(h),
        }
    }

    fn get_key(&self) -> (r: Option<String>) {
        match self {
            Node::Fragment(f) => Fundamental::get_key(f),
            Node::Basic(b) => Fundamental::get_key(b),
            Node::Component(c) => Fundamental::get_key(c),
            Node::Host(h) => Fundamental::get_key(h),
        }
    }
}

} // verus!
