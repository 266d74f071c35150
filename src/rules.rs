//! What the tagging pass does to a tree, stated over the values of nodes.
use vstd::prelude::*;
use crate::naming::is_upper;
use crate::tree::{AttrV, NodeV};

verus! {

/// Whether the current fragment lets a node be tagged: `Open` outside any
/// fragment of the current component, `Armed` inside one whose first root
/// element has not been met yet, `Fired` once it has (tagged by the pass, or
/// carrying the attribute already).
#[derive(Clone, Copy, Debug, PartialEq, Eq, Structural)]
pub enum Latch {
    Open,
    Armed,
    Fired,
}

/// The naming convention of components: the name starts with an uppercase
/// letter.
pub open spec fn is_component_name(name: Seq<char>) -> bool {
    name.len() > 0 && is_upper(name[0])
}

/// Whether `s` begins with `prefix`.
pub open spec fn starts_with(s: Seq<char>, prefix: Seq<char>) -> bool {
    prefix.len() <= s.len() && s.subrange(0, prefix.len() as int) == prefix
}

/// The prefix of the parameter names that mark a render callback.
pub open spec fn render_prefix() -> Seq<char> {
    "render"@
}

/// The name of the scope that a render callback introduces.
pub open spec fn render_scope_name() -> Seq<char> {
    "RenderComponent"@
}

/// An arrow function is a render callback when one of its plain identifier
/// parameters starts with `render`.
pub open spec fn is_render_callback(params: Seq<Option<Seq<char>>>) -> bool {
    exists|i: int|
        0 <= i < params.len() && (#[trigger] params[i]) is Some && starts_with(
            params[i]->0,
            render_prefix(),
        )
}

/// The name of an attribute, if it has one.
pub open spec fn attr_name(a: AttrV) -> Option<Seq<char>> {
    match a {
        AttrV::Named { name, .. } => Some(name),
        AttrV::Spread => None,
    }
}

/// Whether an attribute list holds an attribute called `name`.
pub open spec fn has_attr(attrs: Seq<AttrV>, name: Seq<char>) -> bool {
    exists|i: int| 0 <= i < attrs.len() && attr_name(#[trigger] attrs[i]) == Some(name)
}

/// The attribute that records the component `scope` under the name `attr`.
pub open spec fn test_id(attr: Seq<char>, scope: Seq<char>) -> AttrV {
    AttrV::Named { name: attr, value: Some(scope) }
}

/// Whether an element with attributes `attrs`, met inside the component
/// `scope` (if any) at its root level (`root`) with fragment latch `latch`,
/// gets the attribute.
pub open spec fn eligible(
    attr: Seq<char>,
    scope: Option<Seq<char>>,
    root: bool,
    latch: Latch,
    attrs: Seq<AttrV>,
) -> bool {
    scope is Some && root && latch != Latch::Fired && !has_attr(attrs, attr)
}

/// Whether an element met in this context is the match that satisfies its
/// fragment: it is tagged now, or it stands at the root level of a component
/// already carrying an attribute of that name, which counts as its tag.
pub open spec fn matched(
    attr: Seq<char>,
    scope: Option<Seq<char>>,
    root: bool,
    latch: Latch,
    attrs: Seq<AttrV>,
) -> bool {
    eligible(attr, scope, root, latch, attrs) || (scope is Some && root && has_attr(attrs, attr))
}

/// The latch after an element for which `matched` says whether it satisfied
/// its fragment.
pub open spec fn latch_after(latch: Latch, matched: bool) -> Latch {
    if matched && latch == Latch::Armed {
        Latch::Fired
    } else {
        latch
    }
}

/// Whether a variable declarator introduces a component: its binding is a
/// component name and its initializer a function.
pub open spec fn declares_component(binding: Option<Seq<char>>, init: Option<Box<NodeV>>) -> bool {
    &&& binding is Some
    &&& is_component_name(binding->0)
    &&& init is Some
    &&& (*init->0 is Arrow || *init->0 is FnExpr)
}

/// The pass on one node: `scope` is the innermost open component, `root`
/// whether the node stands at that component's root markup level, and `latch`
/// the state of the current fragment. Returns the tagged node and the latch
/// for the nodes that follow it.
pub open spec fn tag_node(
    attr: Seq<char>,
    scope: Option<Seq<char>>,
    root: bool,
    latch: Latch,
    n: NodeV,
) -> (NodeV, Latch)
    decreases n,
{
    match n {
        NodeV::FnDecl { name, body } => {
            if is_component_name(name) {
                (
                    NodeV::FnDecl {
                        name,
                        body: tag_nodes(attr, Some(name), true, Latch::Open, body).0,
                    },
                    latch,
                )
            } else {
                let r = tag_nodes(attr, scope, root, latch, body);
                (NodeV::FnDecl { name, body: r.0 }, r.1)
            }
        },
        NodeV::VarDecl { binding, init } => {
            match init {
                None => (NodeV::VarDecl { binding, init }, latch),
                Some(b) => {
                    if declares_component(binding, init) {
                        let r = tag_node(attr, binding, true, Latch::Open, *b);
                        (NodeV::VarDecl { binding, init: Some(Box::new(r.0)) }, latch)
                    } else {
                        let r = tag_node(attr, scope, root, latch, *b);
                        (NodeV::VarDecl { binding, init: Some(Box::new(r.0)) }, r.1)
                    }
                },
            }
        },
        NodeV::Arrow { params, body } => {
            if is_render_callback(params) {
                (
                    NodeV::Arrow {
                        params,
                        body: tag_nodes(attr, Some(render_scope_name()), true, Latch::Open, body).0,
                    },
                    latch,
                )
            } else {
                let r = tag_nodes(attr, scope, root, latch, body);
                (NodeV::Arrow { params, body: r.0 }, r.1)
            }
        },
        NodeV::FnExpr { body } => {
            let r = tag_nodes(attr, scope, root, latch, body);
            (NodeV::FnExpr { body: r.0 }, r.1)
        },
        NodeV::Element { tag, attrs, children } => {
            let tagged = eligible(attr, scope, root, latch, attrs);
            let attrs2 = if tagged {
                attrs.push(test_id(attr, scope->0))
            } else {
                attrs
            };
            let r = tag_nodes(
                attr,
                scope,
                false,
                latch_after(latch, matched(attr, scope, root, latch, attrs)),
                children,
            );
            (NodeV::Element { tag, attrs: attrs2, children: r.0 }, r.1)
        },
        NodeV::Fragment { children } => {
            (NodeV::Fragment { children: tag_nodes(attr, scope, true, Latch::Armed, children).0 }, latch)
        },
        NodeV::Group { children } => {
            let r = tag_nodes(attr, scope, root, latch, children);
            (NodeV::Group { children: r.0 }, r.1)
        },
    }
}

/// The pass on a sequence of sibling nodes, left to right, the latch passed
/// from each node to the next.
pub open spec fn tag_nodes(
    attr: Seq<char>,
    scope: Option<Seq<char>>,
    root: bool,
    latch: Latch,
    ns: Seq<NodeV>,
) -> (Seq<NodeV>, Latch)
    decreases ns,
{
    if ns.len() == 0 {
        (Seq::empty(), latch)
    } else {
        let r = tag_nodes(attr, scope, root, latch, ns.subrange(0, ns.len() - 1));
        let last = tag_node(attr, scope, root, r.1, ns[ns.len() - 1]);
        (r.0.push(last.0), last.1)
    }
}

/// The whole pass on a top-level sequence of nodes, outside any component.
pub open spec fn transformed(attr: Seq<char>, ns: Seq<NodeV>) -> Seq<NodeV> {
    tag_nodes(attr, None, true, Latch::Open, ns).0
}

/// Outside any component neither the root level nor the latch that the pass
/// starts from matters, and the latch comes out as it went in.
pub proof fn lemma_outside_node(attr: Seq<char>, root: bool, latch: Latch, n: NodeV)
    ensures
        tag_node(attr, None, root, latch, n).0 == tag_node(attr, None, false, Latch::Open, n).0,
        tag_node(attr, None, root, latch, n).1 == latch,
    decreases n,
{
    match n {
        NodeV::FnDecl { name, body } => {
            lemma_outside_nodes(attr, root, latch, body);
            lemma_outside_nodes(attr, false, Latch::Open, body);
        },
        NodeV::VarDecl { binding, init } => {
            match init {
                Some(b) => {
                    lemma_outside_node(attr, root, latch, *b);
                    lemma_outside_node(attr, false, Latch::Open, *b);
                },
                None => {},
            }
        },
        NodeV::Arrow { params, body } => {
            lemma_outside_nodes(attr, root, latch, body);
            lemma_outside_nodes(attr, false, Latch::Open, body);
        },
        NodeV::FnExpr { body } => {
            lemma_outside_nodes(attr, root, latch, body);
            lemma_outside_nodes(attr, false, Latch::Open, body);
        },
        NodeV::Element { tag, attrs, children } => {
            lemma_outside_nodes(attr, false, latch, children);
            lemma_outside_nodes(attr, false, Latch::Open, children);
        },
        NodeV::Fragment { children } => {},
        NodeV::Group { children } => {
            lemma_outside_nodes(attr, root, latch, children);
            lemma_outside_nodes(attr, false, Latch::Open, children);
        },
    }
}

/// [`lemma_outside_node`] for a sequence of siblings.
pub proof fn lemma_outside_nodes(attr: Seq<char>, root: bool, latch: Latch, ns: Seq<NodeV>)
    ensures
        tag_nodes(attr, None, root, latch, ns).0 == tag_nodes(attr, None, false, Latch::Open, ns).0,
        tag_nodes(attr, None, root, latch, ns).1 == latch,
    decreases ns,
{
    if ns.len() > 0 {
        let init = ns.subrange(0, ns.len() - 1);
        lemma_outside_nodes(attr, root, latch, init);
        lemma_outside_nodes(attr, false, Latch::Open, init);
        lemma_outside_node(attr, root, latch, ns[ns.len() - 1]);
        lemma_outside_node(attr, false, Latch::Open, ns[ns.len() - 1]);
        lemma_outside_node(attr, false, latch, ns[ns.len() - 1]);
    }
}

} // verus!
