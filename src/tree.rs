//! The syntax the tagging pass reads: declarations that may introduce a
//! component, markup elements, fragments, and groups standing for any other
//! syntax that holds nested nodes.
use vstd::prelude::*;

verus! {

broadcast use vstd::std_specs::vec::group_vec_axioms, vstd::seq::group_seq_axioms;

/// An attribute of a markup element.
#[derive(Clone, Debug, PartialEq, Eq)]
pub enum Attribute {
    /// `name` or `name=value`; `value` holds the text of a string-literal
    /// value and is `None` for any other value or for no value.
    Named { name: String, value: Option<String> },
    /// `{...expr}`
    Spread,
}

/// A node of the syntax tree, as the tagging pass sees it.
#[derive(Debug, PartialEq, Eq)]
pub enum Node {
    /// `function name(...) { body }`
    FnDecl { name: String, body: Vec<Node> },
    /// One declarator of a variable declaration; `binding` is the bound name
    /// when the pattern is a single identifier.
    VarDecl { binding: Option<String>, init: Option<Box<Node>> },
    /// `(params) => body`; a parameter is `Some(name)` when it is a plain
    /// identifier.
    Arrow { params: Vec<Option<String>>, body: Vec<Node> },
    /// `function (...) { body }` used as an expression.
    FnExpr { body: Vec<Node> },
    /// `<tag attrs>children</tag>`; `children` also holds the nodes found in
    /// attribute values, in source order.
    Element { tag: String, attrs: Vec<Attribute>, children: Vec<Node> },
    /// `<>children</>`
    Fragment { children: Vec<Node> },
    /// Any other syntax, reduced to the nodes nested in it.
    Group { children: Vec<Node> },
}

/// Mathematical value of an [`Attribute`].
pub enum AttrV {
    Named { name: Seq<char>, value: Option<Seq<char>> },
    Spread,
}

/// Mathematical value of a [`Node`].
pub enum NodeV {
    FnDecl { name: Seq<char>, body: Seq<NodeV> },
    VarDecl { binding: Option<Seq<char>>, init: Option<Box<NodeV>> },
    Arrow { params: Seq<Option<Seq<char>>>, body: Seq<NodeV> },
    FnExpr { body: Seq<NodeV> },
    Element { tag: Seq<char>, attrs: Seq<AttrV>, children: Seq<NodeV> },
    Fragment { children: Seq<NodeV> },
    Group { children: Seq<NodeV> },
}

/// The value of an optional string.
pub open spec fn opt_str_view(s: Option<String>) -> Option<Seq<char>> {
    match s {
        Some(t) => Some(t@),
        None => None,
    }
}

impl View for Attribute {
    type V = AttrV;

    open spec fn view(&self) -> AttrV {
        match self {
            Attribute::Named { name, value } => AttrV::Named {
                name: name@,
                value: opt_str_view(*value),
            },
            Attribute::Spread => AttrV::Spread,
        }
    }
}

/// The values of a sequence of attributes.
pub open spec fn attrs_view(a: Seq<Attribute>) -> Seq<AttrV> {
    a.map_values(|x: Attribute| x@)
}

/// The values of a parameter list.
pub open spec fn params_view(p: Seq<Option<String>>) -> Seq<Option<Seq<char>>> {
    p.map_values(|x: Option<String>| opt_str_view(x))
}

/// The values of a sequence of nodes, element by element.
pub open spec fn nodes_view(s: Seq<Node>) -> Seq<NodeV>
    decreases s,
{
    if s.len() == 0 {
        Seq::empty()
    } else {
        nodes_view(s.subrange(0, s.len() - 1)).push(node_view(s[s.len() - 1]))
    }
}

pub open spec fn node_view(n: Node) -> NodeV
    decreases n,
{
    match n {
        Node::FnDecl { name, body } => NodeV::FnDecl { name: name@, body: nodes_view(body@) },
        Node::VarDecl { binding, init } => NodeV::VarDecl {
            binding: opt_str_view(binding),
            init: match init {
                Some(b) => Some(Box::new(node_view(*b))),
                None => None,
            },
        },
        Node::Arrow { params, body } => NodeV::Arrow {
            params: params_view(params@),
            body: nodes_view(body@),
        },
        Node::FnExpr { body } => NodeV::FnExpr { body: nodes_view(body@) },
        Node::Element { tag, attrs, children } => NodeV::Element {
            tag: tag@,
            attrs: attrs_view(attrs@),
            children: nodes_view(children@),
        },
        Node::Fragment { children } => NodeV::Fragment { children: nodes_view(children@) },
        Node::Group { children } => NodeV::Group { children: nodes_view(children@) },
    }
}

/// [`nodes_view`] keeps the length.
pub proof fn lemma_nodes_view_len(s: Seq<Node>)
    ensures
        nodes_view(s).len() == s.len(),
    decreases s.len(),
{
    if s.len() > 0 {
        lemma_nodes_view_len(s.subrange(0, s.len() - 1));
    }
}

impl View for Node {
    type V = NodeV;

    open spec fn view(&self) -> NodeV {
        node_view(*self)
    }
}

} // verus!

verus! {

/// A copy of an optional string.
pub fn copy_opt_string(s: &Option<String>) -> (r: Option<String>)
    ensures
        opt_str_view(r) == opt_str_view(*s),
{
    match s {
        Some(t) => Some(t.clone()),
        None => None,
    }
}

impl Attribute {
    /// A copy of this attribute.
    pub fn copy(&self) -> (r: Attribute)
        ensures
            r@ == self@,
    {
        match self {
            Attribute::Named { name, value } => Attribute::Named {
                name: name.clone(),
                value: copy_opt_string(value),
            },
            Attribute::Spread => Attribute::Spread,
        }
    }
}

/// A copy of an attribute list.
pub fn copy_attrs(a: &Vec<Attribute>) -> (r: Vec<Attribute>)
    ensures
        attrs_view(r@) == attrs_view(a@),
{
    let mut r: Vec<Attribute> = Vec::new();
    let mut i: usize = 0;
    while i < a.len()
        invariant
            i <= a@.len(),
            r@.len() == i,
            forall|j: int| 0 <= j < i ==> (#[trigger] r@[j])@ == a@[j]@,
        decreases a@.len() - i,
    {
        r.push(a[i].copy());
        i = i + 1;
    }
    assert(attrs_view(r@) =~= attrs_view(a@));
    r
}

/// A copy of a parameter list.
pub fn copy_params(p: &Vec<Option<String>>) -> (r: Vec<Option<String>>)
    ensures
        params_view(r@) == params_view(p@),
{
    let mut r: Vec<Option<String>> = Vec::new();
    let mut i: usize = 0;
    while i < p.len()
        invariant
            i <= p@.len(),
            r@.len() == i,
            forall|j: int| 0 <= j < i ==> opt_str_view(#[trigger] r@[j]) == opt_str_view(p@[j]),
        decreases p@.len() - i,
    {
        r.push(copy_opt_string(&p[i]));
        i = i + 1;
    }
    assert(params_view(r@) =~= params_view(p@));
    r
}

/// Whether `attrs` holds an attribute called `name`.
pub fn has_attribute(attrs: &Vec<Attribute>, name: &String) -> (r: bool)
    ensures
        r == crate::rules::has_attr(attrs_view(attrs@), name@),
{
    let ghost v = attrs_view(attrs@);
    let mut i: usize = 0;
    while i < attrs.len()
        invariant
            i <= attrs@.len(),
            v == attrs_view(attrs@),
            forall|j: int| 0 <= j < i ==> crate::rules::attr_name(#[trigger] v[j]) != Some(name@),
        decreases attrs@.len() - i,
    {
        assert(v[i as int] == attrs@[i as int]@);
        match &attrs[i] {
            Attribute::Named { name: n, .. } => {
                if *n == *name {
                    return true;
                }
            },
            Attribute::Spread => {},
        }
        i = i + 1;
    }
    false
}

} // verus!
