//! Properties of the tagging pass, proved over its definition.
use vstd::prelude::*;
use crate::rules::{
    declares_component, is_render_callback, eligible, latch_after, matched, has_attr, is_component_name, render_scope_name, tag_node, tag_nodes, test_id,
    transformed, Latch,
};
use crate::tree::{AttrV, NodeV};

verus! {

broadcast use vstd::seq::group_seq_axioms;

/// Whether `v` can name a scope: a component name, or the name of the scope
/// of a render callback.
pub open spec fn is_scope_name(v: Seq<char>) -> bool {
    is_component_name(v) || v == render_scope_name()
}

/// `m` has the shape of `n`, and each element of `m` holds the attributes of
/// the matching element of `n`, in order, followed by at most the attribute
/// `attr` with a scope name as its value; where the element of `n` already has an attribute called `attr`,
/// exactly its attributes.
pub open spec fn keeps_attrs(attr: Seq<char>, n: NodeV, m: NodeV) -> bool
    decreases n,
{
    match n {
        NodeV::FnDecl { name, body } => m is FnDecl && m->FnDecl_name == name && keeps_all(
            attr,
            body,
            m->FnDecl_body,
        ),
        NodeV::VarDecl { binding, init } => m is VarDecl && m->binding == binding && match init {
            None => m->init is None,
            Some(b) => m->init is Some && keeps_attrs(attr, *b, *m->init->0),
        },
        NodeV::Arrow { params, body } => m is Arrow && m->params == params && keeps_all(
            attr,
            body,
            m->Arrow_body,
        ),
        NodeV::FnExpr { body } => m is FnExpr && keeps_all(attr, body, m->FnExpr_body),
        NodeV::Element { tag, attrs, children } => {
            &&& m is Element
            &&& m->tag == tag
            &&& if has_attr(attrs, attr) {
                m->attrs == attrs
            } else {
                m->attrs == attrs || exists|v: Seq<char>|
                    is_scope_name(v) && m->attrs == attrs.push(AttrV::Named { name: attr, value: Some(v) })
            }
            &&& keeps_all(attr, children, m->Element_children)
        },
        NodeV::Fragment { children } => m is Fragment && keeps_all(
            attr,
            children,
            m->Fragment_children,
        ),
        NodeV::Group { children } => m is Group && keeps_all(attr, children, m->Group_children),
    }
}

/// [`keeps_attrs`] for each pair of a sequence of siblings.
pub open spec fn keeps_all(attr: Seq<char>, ns: Seq<NodeV>, ms: Seq<NodeV>) -> bool
    decreases ns,
{
    ns.len() == ms.len() && forall|i: int| 0 <= i < ns.len() ==> keeps_attrs(attr, ns[i], #[trigger] ms[i])
}

/// Non-destructive: the pass keeps every attribute of every element, adds
/// nothing to an element that already has an attribute of the configured
/// name, and adds at most that one attribute to any other, valued with the
/// name of a component (or of a render callback's scope).
pub proof fn law_non_destructive(attr: Seq<char>, tree: Seq<NodeV>)
    ensures
        keeps_all(attr, tree, transformed(attr, tree)),
{
    lemma_keeps_nodes(attr, None, true, Latch::Open, tree);
}

proof fn lemma_keeps_node(attr: Seq<char>, scope: Option<Seq<char>>, root: bool, latch: Latch, n: NodeV)
    requires
        scope is Some ==> is_scope_name(scope->0),
    ensures
        keeps_attrs(attr, n, tag_node(attr, scope, root, latch, n).0),
    decreases n,
{
    match n {
        NodeV::FnDecl { name, body } => {
            if is_component_name(name) {
                lemma_keeps_nodes(attr, Some(name), true, Latch::Open, body);
            } else {
                lemma_keeps_nodes(attr, scope, root, latch, body);
            }
        },
        NodeV::VarDecl { binding, init } => {
            match init {
                Some(b) => {
                    if declares_component(binding, init) {
                        lemma_keeps_node(attr, binding, true, Latch::Open, *b);
                    } else {
                        lemma_keeps_node(attr, scope, root, latch, *b);
                    }
                },
                None => {},
            }
        },
        NodeV::Arrow { params, body } => {
            lemma_keeps_nodes(attr, Some(render_scope_name()), true, Latch::Open, body);
            lemma_keeps_nodes(attr, scope, root, latch, body);
        },
        NodeV::FnExpr { body } => {
            lemma_keeps_nodes(attr, scope, root, latch, body);
        },
        NodeV::Element { tag, attrs, children } => {
            let tagged = eligible(attr, scope, root, latch, attrs);
            lemma_keeps_nodes(attr, scope, false, latch_after(latch, matched(attr, scope, root, latch, attrs)), children);
            if tagged {
                let v = scope->0;
                assert(is_scope_name(v) && attrs.push(test_id(attr, scope->0)) == attrs.push(
                    AttrV::Named { name: attr, value: Some(v) },
                ));
            }
        },
        NodeV::Fragment { children } => {
            lemma_keeps_nodes(attr, scope, true, Latch::Armed, children);
        },
        NodeV::Group { children } => {
            lemma_keeps_nodes(attr, scope, root, latch, children);
        },
    }
}

proof fn lemma_keeps_nodes(attr: Seq<char>, scope: Option<Seq<char>>, root: bool, latch: Latch, ns: Seq<NodeV>)
    requires
        scope is Some ==> is_scope_name(scope->0),
    ensures
        keeps_all(attr, ns, tag_nodes(attr, scope, root, latch, ns).0),
    decreases ns,
{
    if ns.len() > 0 {
        let init = ns.subrange(0, ns.len() - 1);
        let r = tag_nodes(attr, scope, root, latch, init);
        lemma_keeps_nodes(attr, scope, root, latch, init);
        lemma_keeps_node(attr, scope, root, r.1, ns[ns.len() - 1]);
        let out = tag_nodes(attr, scope, root, latch, ns).0;
        assert forall|i: int| 0 <= i < ns.len() implies keeps_attrs(attr, ns[i], #[trigger] out[i]) by {
            if i < ns.len() - 1 {
                assert(ns[i] == init[i]);
            }
        }
    }
}

/// Nested components: a component declaration comes out of the pass the same
/// in every context (the enclosing component, its depth, its fragment) and
/// leaves the enclosing latch as it found it. Its body is walked as the root
/// of a component of its own name, so markup standing alone in it is tagged
/// with that name.
pub proof fn law_nested_component(
    attr: Seq<char>,
    outer: Option<Seq<char>>,
    root: bool,
    latch: Latch,
    name: Seq<char>,
    body: Seq<NodeV>,
)
    requires
        is_component_name(name),
    ensures
        tag_node(attr, outer, root, latch, NodeV::FnDecl { name, body }) == (
            NodeV::FnDecl { name, body: tag_nodes(attr, Some(name), true, Latch::Open, body).0 },
            latch,
        ),
        body.len() == 1 && body[0] is Element && !has_attr(body[0]->attrs, attr) ==> ({
            let out = tag_node(attr, outer, root, latch, NodeV::FnDecl { name, body }).0;
            out->FnDecl_body[0]->attrs == body[0]->attrs.push(test_id(attr, name))
        }),
{
    if body.len() == 1 {
        assert(body.subrange(0, 0) =~= Seq::<NodeV>::empty());
        let e = tag_nodes(attr, Some(name), true, Latch::Open, Seq::<NodeV>::empty());
        assert(e == (Seq::<NodeV>::empty(), Latch::Open));
        let r = tag_nodes(attr, Some(name), true, Latch::Open, body);
        assert(r.0 == e.0.push(tag_node(attr, Some(name), true, Latch::Open, body[0]).0));
        assert(r.0[0] == tag_node(attr, Some(name), true, Latch::Open, body[0]).0);
    }
}

/// Nested components, for a component bound to a variable: the declarator
/// comes out the same in every context and leaves the enclosing latch as it
/// found it.
pub proof fn law_nested_component_binding(
    attr: Seq<char>,
    outer: Option<Seq<char>>,
    root: bool,
    latch: Latch,
    name: Seq<char>,
    init: NodeV,
)
    requires
        is_component_name(name),
        init is Arrow || init is FnExpr,
    ensures
        tag_node(attr, outer, root, latch, NodeV::VarDecl { binding: Some(name), init: Some(Box::new(init)) }) == (
            NodeV::VarDecl {
                binding: Some(name),
                init: Some(Box::new(tag_node(attr, Some(name), true, Latch::Open, init).0)),
            },
            latch,
        ),
{
}

/// Whether no declaration in `n` opens a component scope.
pub open spec fn opens_no_scope(n: NodeV) -> bool
    decreases n,
{
    match n {
        NodeV::FnDecl { name, body } => !is_component_name(name) && opens_none(body),
        NodeV::VarDecl { binding, init } => match init {
            None => true,
            Some(b) => !declares_component(binding, init) && opens_no_scope(*b),
        },
        NodeV::Arrow { params, body } => !is_render_callback(params) && opens_none(body),
        NodeV::FnExpr { body } => opens_none(body),
        NodeV::Element { children, .. } => opens_none(children),
        NodeV::Fragment { children } => opens_none(children),
        NodeV::Group { children } => opens_none(children),
    }
}

/// [`opens_no_scope`] for each of a sequence of nodes.
pub open spec fn opens_none(ns: Seq<NodeV>) -> bool
    decreases ns,
{
    forall|i: int| 0 <= i < ns.len() ==> opens_no_scope(#[trigger] ns[i])
}

/// Naming convention: a function whose name does not start with an
/// uppercase letter (one that starts with a lowercase letter, say) opens no
/// scope: its body is walked in the surrounding context, and outside any
/// component, where nothing in its body opens a scope, nothing in it is
/// tagged.
pub proof fn law_plain_function(
    attr: Seq<char>,
    scope: Option<Seq<char>>,
    root: bool,
    latch: Latch,
    name: Seq<char>,
    body: Seq<NodeV>,
)
    requires
        !is_component_name(name),
    ensures
        tag_node(attr, scope, root, latch, NodeV::FnDecl { name, body }) == ({
            let r = tag_nodes(attr, scope, root, latch, body);
            (NodeV::FnDecl { name, body: r.0 }, r.1)
        }),
        opens_none(body) ==> transformed(attr, seq![NodeV::FnDecl { name, body }]) == seq![
            NodeV::FnDecl { name, body },
        ],
{
    let n = NodeV::FnDecl { name, body };
    if opens_none(body) {
        assert(opens_no_scope(n));
        let one = seq![n];
        assert(one.subrange(0, 0) =~= Seq::<NodeV>::empty());
        assert(one.len() == 1 && one[0] == n);
        let e = tag_nodes(attr, None, true, Latch::Open, Seq::<NodeV>::empty());
        assert(e == (Seq::<NodeV>::empty(), Latch::Open));
        lemma_no_scope_node(attr, true, Latch::Open, n);
        assert(tag_nodes(attr, None, true, Latch::Open, one).0 == e.0.push(n));
        assert(e.0.push(n) =~= one);
    }
}

/// Naming convention, for a variable: a declarator whose binding does not
/// start with an uppercase letter opens no scope: its initializer is walked
/// in the surrounding context.
pub proof fn law_plain_binding(
    attr: Seq<char>,
    scope: Option<Seq<char>>,
    root: bool,
    latch: Latch,
    name: Seq<char>,
    init: NodeV,
)
    requires
        !is_component_name(name),
    ensures
        tag_node(attr, scope, root, latch, NodeV::VarDecl { binding: Some(name), init: Some(Box::new(init)) }) == ({
            let r = tag_node(attr, scope, root, latch, init);
            (NodeV::VarDecl { binding: Some(name), init: Some(Box::new(r.0)) }, r.1)
        }),
{
}

/// Outside any component, a node in which nothing opens a scope comes out
/// unchanged.
proof fn lemma_no_scope_node(attr: Seq<char>, root: bool, latch: Latch, n: NodeV)
    requires
        opens_no_scope(n),
    ensures
        tag_node(attr, None, root, latch, n).0 == n,
    decreases n,
{
    match n {
        NodeV::FnDecl { name, body } => {
            lemma_no_scope_nodes(attr, root, latch, body);
        },
        NodeV::VarDecl { binding, init } => {
            match init {
                Some(b) => {
                    lemma_no_scope_node(attr, root, latch, *b);
                },
                None => {},
            }
        },
        NodeV::Arrow { params, body } => {
            lemma_no_scope_nodes(attr, root, latch, body);
        },
        NodeV::FnExpr { body } => {
            lemma_no_scope_nodes(attr, root, latch, body);
        },
        NodeV::Element { tag, attrs, children } => {
            lemma_no_scope_nodes(attr, false, latch, children);
        },
        NodeV::Fragment { children } => {
            lemma_no_scope_nodes(attr, true, Latch::Armed, children);
        },
        NodeV::Group { children } => {
            lemma_no_scope_nodes(attr, root, latch, children);
        },
    }
}

proof fn lemma_no_scope_nodes(attr: Seq<char>, root: bool, latch: Latch, ns: Seq<NodeV>)
    requires
        opens_none(ns),
    ensures
        tag_nodes(attr, None, root, latch, ns).0 == ns,
    decreases ns,
{
    if ns.len() > 0 {
        let init = ns.subrange(0, ns.len() - 1);
        let r = tag_nodes(attr, None, root, latch, init);
        assert(opens_none(init)) by {
            assert forall|i: int| 0 <= i < init.len() implies opens_no_scope(#[trigger] init[i]) by {
                assert(init[i] == ns[i]);
            }
        }
        lemma_no_scope_nodes(attr, root, latch, init);
        assert(opens_no_scope(ns[ns.len() - 1]));
        lemma_no_scope_node(attr, root, r.1, ns[ns.len() - 1]);
        assert(init.push(ns[ns.len() - 1]) =~= ns);
    }
}

/// Below the root markup level nothing is tagged, so the latch comes out as
/// it went in.
pub proof fn lemma_below_root_latch(attr: Seq<char>, scope: Option<Seq<char>>, latch: Latch, n: NodeV)
    ensures
        tag_node(attr, scope, false, latch, n).1 == latch,
    decreases n,
{
    match n {
        NodeV::FnDecl { name, body } => {
            lemma_below_root_latches(attr, scope, latch, body);
        },
        NodeV::VarDecl { binding, init } => {
            match init {
                Some(b) => {
                    lemma_below_root_latch(attr, scope, latch, *b);
                },
                None => {},
            }
        },
        NodeV::Arrow { params, body } => {
            lemma_below_root_latches(attr, scope, latch, body);
        },
        NodeV::FnExpr { body } => {
            lemma_below_root_latches(attr, scope, latch, body);
        },
        NodeV::Element { tag, attrs, children } => {
            lemma_below_root_latches(attr, scope, latch, children);
        },
        NodeV::Fragment { children } => {},
        NodeV::Group { children } => {
            lemma_below_root_latches(attr, scope, latch, children);
        },
    }
}

/// [`lemma_below_root_latch`] for a sequence of siblings.
pub proof fn lemma_below_root_latches(attr: Seq<char>, scope: Option<Seq<char>>, latch: Latch, ns: Seq<NodeV>)
    ensures
        tag_nodes(attr, scope, false, latch, ns).1 == latch,
    decreases ns,
{
    if ns.len() > 0 {
        let init = ns.subrange(0, ns.len() - 1);
        lemma_below_root_latches(attr, scope, latch, init);
        lemma_below_root_latch(attr, scope, latch, ns[ns.len() - 1]);
    }
}

/// Fragment first match: of the sibling elements directly inside a fragment
/// that a component returns, only the first can receive the attribute (named
/// after the component), and it does unless it carries one of that name
/// already, which then counts as the fragment's tag; the others keep their
/// attributes as they were.
pub proof fn law_fragment_first_match(
    attr: Seq<char>,
    component: Seq<char>,
    root: bool,
    latch: Latch,
    es: Seq<NodeV>,
)
    requires
        forall|i: int| 0 <= i < es.len() ==> (#[trigger] es[i]) is Element,
    ensures
        ({
            let out = tag_node(attr, Some(component), root, latch, NodeV::Fragment { children: es }).0;
            &&& out is Fragment
            &&& out->Fragment_children.len() == es.len()
            &&& forall|i: int|
                0 <= i < es.len() ==> (#[trigger] out->Fragment_children[i]) is Element
                    && out->Fragment_children[i]->attrs == if i == 0 && !has_attr(es[0]->attrs, attr) {
                    es[i]->attrs.push(test_id(attr, component))
                } else {
                    es[i]->attrs
                }
        }),
{
    lemma_latched_elements(attr, component, es);
}

proof fn lemma_latched_elements(attr: Seq<char>, c: Seq<char>, es: Seq<NodeV>)
    requires
        forall|i: int| 0 <= i < es.len() ==> (#[trigger] es[i]) is Element,
    ensures
        ({
            let r = tag_nodes(attr, Some(c), true, Latch::Armed, es);
            &&& r.0.len() == es.len()
            &&& r.1 == if es.len() == 0 {
                Latch::Armed
            } else {
                Latch::Fired
            }
            &&& forall|i: int|
                0 <= i < es.len() ==> (#[trigger] r.0[i]) is Element && r.0[i]->attrs == if i == 0
                    && !has_attr(es[0]->attrs, attr) {
                    es[i]->attrs.push(test_id(attr, c))
                } else {
                    es[i]->attrs
                }
        }),
    decreases es.len(),
{
    if es.len() > 0 {
        let k = es.len() - 1;
        let init = es.subrange(0, k);
        assert forall|i: int| 0 <= i < init.len() implies (#[trigger] init[i]) is Element by {
            assert(init[i] == es[i]);
        }
        lemma_latched_elements(attr, c, init);
        let r = tag_nodes(attr, Some(c), true, Latch::Armed, init);
        let e = es[k];
        let m = matched(attr, Some(c), true, r.1, e->attrs);
        lemma_below_root_latches(attr, Some(c), latch_after(r.1, m), e->Element_children);
        let out = tag_nodes(attr, Some(c), true, Latch::Armed, es);
        let te = tag_node(attr, Some(c), true, r.1, e);
        assert(out.0 == r.0.push(te.0) && out.1 == te.1);
        assert(te.1 == latch_after(r.1, m));
        assert(te.0 is Element);
        if k > 0 {
            assert(init[0] == es[0]);
        }
        assert forall|i: int| 0 <= i < es.len() implies (#[trigger] out.0[i]) is Element && out.0[i]->attrs
            == if i == 0 && !has_attr(es[0]->attrs, attr) {
            es[i]->attrs.push(test_id(attr, c))
        } else {
            es[i]->attrs
        } by {
            if i < k {
                assert(init[i] == es[i]);
            }
        }
    }
}

/// `m` has the shape of `n`, and every element of `n` that is reached
/// without passing through a fragment or a declaration that opens a
/// component scope has exactly its attributes in `m`.
pub open spec fn level_kept(n: NodeV, m: NodeV) -> bool
    decreases n,
{
    match n {
        NodeV::FnDecl { name, body } => m is FnDecl && (is_component_name(name) || level_kept_all(
            body,
            m->FnDecl_body,
        )),
        NodeV::VarDecl { binding, init } => m is VarDecl && match init {
            None => true,
            Some(b) => declares_component(binding, init) || (m->init is Some && level_kept(
                *b,
                *m->init->0,
            )),
        },
        NodeV::Arrow { params, body } => m is Arrow && (is_render_callback(params) || level_kept_all(
            body,
            m->Arrow_body,
        )),
        NodeV::FnExpr { body } => m is FnExpr && level_kept_all(body, m->FnExpr_body),
        NodeV::Element { attrs, children, .. } => {
            &&& m is Element
            &&& m->attrs == attrs
            &&& level_kept_all(children, m->Element_children)
        },
        NodeV::Fragment { .. } => m is Fragment,
        NodeV::Group { children } => m is Group && level_kept_all(children, m->Group_children),
    }
}

/// [`level_kept`] for each pair of a sequence of siblings.
pub open spec fn level_kept_all(ns: Seq<NodeV>, ms: Seq<NodeV>) -> bool
    decreases ns,
{
    ns.len() == ms.len() && forall|i: int| 0 <= i < ns.len() ==> level_kept(ns[i], #[trigger] ms[i])
}

/// Scoping: markup nested in an element of a component is never tagged,
/// whatever its tag: of the element's children, every element reached
/// without passing through a fragment (which starts a root level of its own)
/// or a nested component keeps exactly its attributes.
pub proof fn law_nested_markup_untagged(
    attr: Seq<char>,
    scope: Option<Seq<char>>,
    root: bool,
    latch: Latch,
    tag: Seq<char>,
    attrs: Seq<AttrV>,
    children: Seq<NodeV>,
)
    ensures
        level_kept_all(
            children,
            tag_node(attr, scope, root, latch, NodeV::Element { tag, attrs, children }).0->Element_children,
        ),
{
    let tagged = eligible(attr, scope, root, latch, attrs);
    lemma_below_root_kept_all(attr, scope, latch_after(latch, matched(attr, scope, root, latch, attrs)), children);
}

proof fn lemma_below_root_kept(attr: Seq<char>, scope: Option<Seq<char>>, latch: Latch, n: NodeV)
    ensures
        level_kept(n, tag_node(attr, scope, false, latch, n).0),
    decreases n,
{
    match n {
        NodeV::FnDecl { name, body } => {
            lemma_below_root_kept_all(attr, scope, latch, body);
        },
        NodeV::VarDecl { binding, init } => {
            match init {
                Some(b) => {
                    lemma_below_root_kept(attr, scope, latch, *b);
                },
                None => {},
            }
        },
        NodeV::Arrow { params, body } => {
            lemma_below_root_kept_all(attr, scope, latch, body);
        },
        NodeV::FnExpr { body } => {
            lemma_below_root_kept_all(attr, scope, latch, body);
        },
        NodeV::Element { tag, attrs, children } => {
            lemma_below_root_kept_all(attr, scope, latch, children);
        },
        NodeV::Fragment { children } => {},
        NodeV::Group { children } => {
            lemma_below_root_kept_all(attr, scope, latch, children);
        },
    }
}

proof fn lemma_below_root_kept_all(attr: Seq<char>, scope: Option<Seq<char>>, latch: Latch, ns: Seq<NodeV>)
    ensures
        level_kept_all(ns, tag_nodes(attr, scope, false, latch, ns).0),
    decreases ns,
{
    if ns.len() > 0 {
        let init = ns.subrange(0, ns.len() - 1);
        lemma_below_root_kept_all(attr, scope, latch, init);
        lemma_below_root_latches(attr, scope, latch, init);
        lemma_below_root_kept(attr, scope, latch, ns[ns.len() - 1]);
        let out = tag_nodes(attr, scope, false, latch, ns).0;
        assert forall|i: int| 0 <= i < ns.len() implies level_kept(ns[i], #[trigger] out[i]) by {
            if i < ns.len() - 1 {
                assert(ns[i] == init[i]);
            }
        }
    }
}

/// Idempotence: a second run of the pass with the same attribute name changes
/// nothing.
pub proof fn law_idempotent(attr: Seq<char>, tree: Seq<NodeV>)
    ensures
        transformed(attr, transformed(attr, tree)) == transformed(attr, tree),
{
    lemma_idem_nodes(attr, None, true, Latch::Open, tree);
}

proof fn lemma_tag_nodes_len(attr: Seq<char>, scope: Option<Seq<char>>, root: bool, latch: Latch, ns: Seq<NodeV>)
    ensures
        tag_nodes(attr, scope, root, latch, ns).0.len() == ns.len(),
    decreases ns.len(),
{
    if ns.len() > 0 {
        lemma_tag_nodes_len(attr, scope, root, latch, ns.subrange(0, ns.len() - 1));
    }
}

/// In any context, a second run on the output of the first gives that output
/// and the same latch.
proof fn lemma_idem_node(attr: Seq<char>, scope: Option<Seq<char>>, root: bool, latch: Latch, n: NodeV)
    ensures
        ({
            let r1 = tag_node(attr, scope, root, latch, n);
            tag_node(attr, scope, root, latch, r1.0) == r1
        }),
    decreases n,
{
    match n {
        NodeV::FnDecl { name, body } => {
            if is_component_name(name) {
                lemma_idem_nodes(attr, Some(name), true, Latch::Open, body);
            } else {
                lemma_idem_nodes(attr, scope, root, latch, body);
            }
        },
        NodeV::VarDecl { binding, init } => {
            match init {
                Some(b) => {
                    if declares_component(binding, init) {
                        lemma_idem_node(attr, binding, true, Latch::Open, *b);
                        let m = tag_node(attr, binding, true, Latch::Open, *b).0;
                        assert(m is Arrow || m is FnExpr);
                        assert(declares_component(binding, Some(Box::new(m))));
                    } else {
                        lemma_idem_node(attr, scope, root, latch, *b);
                        let m = tag_node(attr, scope, root, latch, *b).0;
                        assert((m is Arrow || m is FnExpr) == (*b is Arrow || *b is FnExpr));
                        assert(!declares_component(binding, Some(Box::new(m))));
                    }
                },
                None => {},
            }
        },
        NodeV::Arrow { params, body } => {
            if is_render_callback(params) {
                lemma_idem_nodes(attr, Some(render_scope_name()), true, Latch::Open, body);
            } else {
                lemma_idem_nodes(attr, scope, root, latch, body);
            }
        },
        NodeV::FnExpr { body } => {
            lemma_idem_nodes(attr, scope, root, latch, body);
        },
        NodeV::Element { tag, attrs, children } => {
            let t1 = eligible(attr, scope, root, latch, attrs);
            let attrs1 = if t1 {
                attrs.push(test_id(attr, scope->0))
            } else {
                attrs
            };
            if t1 {
                assert(attr_name_at(attrs1, attrs.len() as int, attr));
            } else if has_attr(attrs, attr) {
                let i = choose|i: int| 0 <= i < attrs.len() && crate::rules::attr_name(#[trigger] attrs[i]) == Some(attr);
                assert(attr_name_at(attrs1, i, attr));
            }
            assert(!eligible(attr, scope, root, latch, attrs1));
            assert(matched(attr, scope, root, latch, attrs1) == matched(attr, scope, root, latch, attrs));
            lemma_idem_nodes(attr, scope, false, latch_after(latch, matched(attr, scope, root, latch, attrs)), children);
        },
        NodeV::Fragment { children } => {
            lemma_idem_nodes(attr, scope, true, Latch::Armed, children);
        },
        NodeV::Group { children } => {
            lemma_idem_nodes(attr, scope, root, latch, children);
        },
    }
}

spec fn attr_name_at(attrs: Seq<AttrV>, i: int, name: Seq<char>) -> bool {
    0 <= i < attrs.len() && crate::rules::attr_name(attrs[i]) == Some(name)
}

/// [`lemma_idem_node`] for a sequence of siblings.
proof fn lemma_idem_nodes(attr: Seq<char>, scope: Option<Seq<char>>, root: bool, latch: Latch, ns: Seq<NodeV>)
    ensures
        ({
            let r1 = tag_nodes(attr, scope, root, latch, ns);
            tag_nodes(attr, scope, root, latch, r1.0) == r1
        }),
    decreases ns,
{
    if ns.len() > 0 {
        let k = ns.len() - 1;
        let init = ns.subrange(0, k);
        lemma_idem_nodes(attr, scope, root, latch, init);
        let a1 = tag_nodes(attr, scope, root, latch, init);
        lemma_idem_node(attr, scope, root, a1.1, ns[k]);
        let r1 = tag_nodes(attr, scope, root, latch, ns);
        let b1 = tag_node(attr, scope, root, a1.1, ns[k]);
        assert(r1.0 == a1.0.push(b1.0));
        lemma_tag_nodes_len(attr, scope, root, latch, init);
        assert(r1.0.subrange(0, k) =~= a1.0);
        assert(r1.0[k] == b1.0);
    }
}

/// `m` has the shape of `n`, and every element of `n` that is not inside a
/// declaration that opens a component scope has exactly its attributes in
/// `m`.
pub open spec fn kept_outside_scopes(n: NodeV, m: NodeV) -> bool
    decreases n,
{
    match n {
        NodeV::FnDecl { name, body } => m is FnDecl && (is_component_name(name) || kept_outside_scopes_all(
            body,
            m->FnDecl_body,
        )),
        NodeV::VarDecl { binding, init } => m is VarDecl && match init {
            None => true,
            Some(b) => declares_component(binding, init) || (m->init is Some && kept_outside_scopes(
                *b,
                *m->init->0,
            )),
        },
        NodeV::Arrow { params, body } => m is Arrow && (is_render_callback(params)
            || kept_outside_scopes_all(body, m->Arrow_body)),
        NodeV::FnExpr { body } => m is FnExpr && kept_outside_scopes_all(body, m->FnExpr_body),
        NodeV::Element { attrs, children, .. } => {
            &&& m is Element
            &&& m->attrs == attrs
            &&& kept_outside_scopes_all(children, m->Element_children)
        },
        NodeV::Fragment { children } => m is Fragment && kept_outside_scopes_all(
            children,
            m->Fragment_children,
        ),
        NodeV::Group { children } => m is Group && kept_outside_scopes_all(children, m->Group_children),
    }
}

/// [`kept_outside_scopes`] for each pair of a sequence of siblings.
pub open spec fn kept_outside_scopes_all(ns: Seq<NodeV>, ms: Seq<NodeV>) -> bool
    decreases ns,
{
    ns.len() == ms.len() && forall|i: int| 0 <= i < ns.len() ==> kept_outside_scopes(ns[i], #[trigger] ms[i])
}

/// Outside any component, only the insides of declarations that open a
/// scope can change.
pub proof fn lemma_outside_kept(attr: Seq<char>, root: bool, latch: Latch, n: NodeV)
    ensures
        kept_outside_scopes(n, tag_node(attr, None, root, latch, n).0),
    decreases n,
{
    match n {
        NodeV::FnDecl { name, body } => {
            lemma_outside_kept_all(attr, root, latch, body);
        },
        NodeV::VarDecl { binding, init } => {
            match init {
                Some(b) => {
                    lemma_outside_kept(attr, root, latch, *b);
                },
                None => {},
            }
        },
        NodeV::Arrow { params, body } => {
            lemma_outside_kept_all(attr, root, latch, body);
        },
        NodeV::FnExpr { body } => {
            lemma_outside_kept_all(attr, root, latch, body);
        },
        NodeV::Element { tag, attrs, children } => {
            lemma_outside_kept_all(attr, false, latch, children);
        },
        NodeV::Fragment { children } => {
            lemma_outside_kept_all(attr, true, Latch::Armed, children);
        },
        NodeV::Group { children } => {
            lemma_outside_kept_all(attr, root, latch, children);
        },
    }
}

/// [`lemma_outside_kept`] for a sequence of siblings.
pub proof fn lemma_outside_kept_all(attr: Seq<char>, root: bool, latch: Latch, ns: Seq<NodeV>)
    ensures
        kept_outside_scopes_all(ns, tag_nodes(attr, None, root, latch, ns).0),
    decreases ns,
{
    if ns.len() > 0 {
        let init = ns.subrange(0, ns.len() - 1);
        lemma_outside_kept_all(attr, root, latch, init);
        crate::rules::lemma_outside_nodes(attr, root, latch, init);
        lemma_outside_kept(attr, root, latch, ns[ns.len() - 1]);
        let out = tag_nodes(attr, None, root, latch, ns).0;
        assert forall|i: int| 0 <= i < ns.len() implies kept_outside_scopes(ns[i], #[trigger] out[i]) by {
            if i < ns.len() - 1 {
                assert(ns[i] == init[i]);
            }
        }
    }
}

/// Naming convention, over a whole declaration: outside any component, a
/// function whose name does not start with an uppercase letter tags nothing
/// in its body but inside the declarations there that open scopes of their
/// own; and wherever it stands, every value the pass adds in it is the name
/// of such a scope, never the function's own name (unless that is the name
/// of a render callback's scope).
pub proof fn law_plain_function_tree(
    attr: Seq<char>,
    scope: Option<Seq<char>>,
    root: bool,
    latch: Latch,
    name: Seq<char>,
    body: Seq<NodeV>,
)
    requires
        !is_component_name(name),
        scope is Some ==> is_scope_name(scope->0),
    ensures
        kept_outside_scopes(
            NodeV::FnDecl { name, body },
            tag_node(attr, None, root, latch, NodeV::FnDecl { name, body }).0,
        ),
        keeps_attrs(attr, NodeV::FnDecl { name, body }, tag_node(attr, scope, root, latch, NodeV::FnDecl { name, body }).0),
{
    lemma_outside_kept(attr, root, latch, NodeV::FnDecl { name, body });
    lemma_keeps_node(attr, scope, root, latch, NodeV::FnDecl { name, body });
}

/// Naming convention, over a whole declarator: outside any component, a
/// variable whose name does not start with an uppercase letter tags nothing
/// in its initializer but inside the declarations there that open scopes of
/// their own; and wherever it stands, every value the pass adds in it is the
/// name of such a scope.
pub proof fn law_plain_binding_tree(
    attr: Seq<char>,
    scope: Option<Seq<char>>,
    root: bool,
    latch: Latch,
    name: Seq<char>,
    init: NodeV,
)
    requires
        !is_component_name(name),
        scope is Some ==> is_scope_name(scope->0),
    ensures
        ({
            let d = NodeV::VarDecl { binding: Some(name), init: Some(Box::new(init)) };
            &&& kept_outside_scopes(d, tag_node(attr, None, root, latch, d).0)
            &&& keeps_attrs(attr, d, tag_node(attr, scope, root, latch, d).0)
        }),
{
    let d = NodeV::VarDecl { binding: Some(name), init: Some(Box::new(init)) };
    lemma_outside_kept(attr, root, latch, d);
    lemma_keeps_node(attr, scope, root, latch, d);
}

/// Whether `d` is a declaration that opens a component scope of its own.
pub open spec fn opens_own_scope(d: NodeV) -> bool {
    match d {
        NodeV::FnDecl { name, .. } => is_component_name(name),
        NodeV::VarDecl { binding, init } => declares_component(binding, init),
        _ => false,
    }
}

/// A component declaration leaves the latch it meets as it was.
proof fn lemma_own_scope_latch(attr: Seq<char>, scope: Option<Seq<char>>, root: bool, latch: Latch, d: NodeV)
    requires
        opens_own_scope(d),
    ensures
        tag_node(attr, scope, root, latch, d).1 == latch,
{
}

/// Nested components leave their surroundings alone: replacing a component
/// declaration among its siblings by another one (the same with an empty
/// body, say) changes the pass's result on no other sibling, nor the latch
/// that comes out.
pub proof fn law_component_leaves_siblings(
    attr: Seq<char>,
    scope: Option<Seq<char>>,
    root: bool,
    latch: Latch,
    ns: Seq<NodeV>,
    k: int,
    other: NodeV,
)
    requires
        0 <= k < ns.len(),
        opens_own_scope(ns[k]),
        opens_own_scope(other),
    ensures
        ({
            let r1 = tag_nodes(attr, scope, root, latch, ns);
            let r2 = tag_nodes(attr, scope, root, latch, ns.update(k, other));
            &&& r1.1 == r2.1
            &&& r1.0.len() == r2.0.len()
            &&& forall|j: int| 0 <= j < ns.len() && j != k ==> r1.0[j] == r2.0[j]
        }),
    decreases ns.len(),
{
    let n = ns.len() - 1;
    let ns2 = ns.update(k, other);
    let init = ns.subrange(0, n);
    let init2 = ns2.subrange(0, n);
    lemma_tag_nodes_len(attr, scope, root, latch, ns);
    lemma_tag_nodes_len(attr, scope, root, latch, ns2);
    lemma_tag_nodes_len(attr, scope, root, latch, init);
    lemma_tag_nodes_len(attr, scope, root, latch, init2);
    let a1 = tag_nodes(attr, scope, root, latch, init);
    let a2 = tag_nodes(attr, scope, root, latch, init2);
    if k == n {
        assert(init2 =~= init);
        lemma_own_scope_latch(attr, scope, root, a1.1, ns[k]);
        lemma_own_scope_latch(attr, scope, root, a1.1, other);
    } else {
        assert(init2 =~= init.update(k, other));
        assert(init[k] == ns[k]);
        law_component_leaves_siblings(attr, scope, root, latch, init, k, other);
        assert(ns2[n] == ns[n]);
    }
    let r1 = tag_nodes(attr, scope, root, latch, ns);
    let r2 = tag_nodes(attr, scope, root, latch, ns2);
    assert forall|j: int| 0 <= j < ns.len() && j != k implies r1.0[j] == r2.0[j] by {
        if j < n {
            assert(r1.0[j] == a1.0[j]);
            assert(r2.0[j] == a2.0[j]);
        }
    }
}

/// With the latch open, the pass treats siblings one by one, and the latch
/// stays open.
proof fn lemma_open_node(attr: Seq<char>, scope: Option<Seq<char>>, root: bool, n: NodeV)
    ensures
        tag_node(attr, scope, root, Latch::Open, n).1 == Latch::Open,
    decreases n,
{
    match n {
        NodeV::FnDecl { name, body } => {
            lemma_open_nodes(attr, scope, root, body);
        },
        NodeV::VarDecl { binding, init } => {
            match init {
                Some(b) => {
                    lemma_open_node(attr, scope, root, *b);
                },
                None => {},
            }
        },
        NodeV::Arrow { params, body } => {
            lemma_open_nodes(attr, scope, root, body);
        },
        NodeV::FnExpr { body } => {
            lemma_open_nodes(attr, scope, root, body);
        },
        NodeV::Element { tag, attrs, children } => {
            lemma_open_nodes(attr, scope, false, children);
        },
        NodeV::Fragment { children } => {},
        NodeV::Group { children } => {
            lemma_open_nodes(attr, scope, root, children);
        },
    }
}

/// [`lemma_open_node`] for a sequence of siblings.
proof fn lemma_open_nodes(attr: Seq<char>, scope: Option<Seq<char>>, root: bool, ns: Seq<NodeV>)
    ensures
        ({
            let r = tag_nodes(attr, scope, root, Latch::Open, ns);
            &&& r.1 == Latch::Open
            &&& r.0.len() == ns.len()
            &&& forall|i: int| 0 <= i < ns.len() ==> #[trigger] r.0[i] == tag_node(attr, scope, root, Latch::Open, ns[i]).0
        }),
    decreases ns,
{
    if ns.len() > 0 {
        let init = ns.subrange(0, ns.len() - 1);
        lemma_open_nodes(attr, scope, root, init);
        lemma_open_node(attr, scope, root, ns[ns.len() - 1]);
        let r = tag_nodes(attr, scope, root, Latch::Open, ns);
        assert forall|i: int| 0 <= i < ns.len() implies #[trigger] r.0[i] == tag_node(attr, scope, root, Latch::Open, ns[i]).0 by {
            if i < ns.len() - 1 {
                assert(ns[i] == init[i]);
            }
        }
    }
}

/// Nested components, wherever they stand: a component declaration comes out
/// of the pass exactly as it would standing alone at the top of a tree, and
/// every element that stands directly in its body without the attribute
/// receives it, valued with the component's own name.
pub proof fn law_nested_component_tree(
    attr: Seq<char>,
    outer: Option<Seq<char>>,
    root: bool,
    latch: Latch,
    name: Seq<char>,
    body: Seq<NodeV>,
)
    requires
        is_component_name(name),
    ensures
        ({
            let d = NodeV::FnDecl { name, body };
            let out = tag_node(attr, outer, root, latch, d).0;
            &&& seq![out] == transformed(attr, seq![d])
            &&& out->FnDecl_body.len() == body.len()
            &&& forall|i: int|
                0 <= i < body.len() && (#[trigger] body[i]) is Element && !has_attr(body[i]->attrs, attr)
                    ==> out->FnDecl_body[i]->attrs == body[i]->attrs.push(test_id(attr, name))
        }),
{
    let d = NodeV::FnDecl { name, body };
    let one = seq![d];
    assert(one.subrange(0, 0) =~= Seq::<NodeV>::empty());
    assert(one.len() == 1 && one[0] == d);
    let e = tag_nodes(attr, None, true, Latch::Open, Seq::<NodeV>::empty());
    assert(e == (Seq::<NodeV>::empty(), Latch::Open));
    let out = tag_node(attr, outer, root, latch, d).0;
    assert(tag_nodes(attr, None, true, Latch::Open, one).0 == e.0.push(tag_node(attr, None, true, Latch::Open, d).0));
    assert(e.0.push(out) =~= seq![out]);
    lemma_open_nodes(attr, Some(name), true, body);
}

} // verus!
