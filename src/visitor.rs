//! The tagging pass: a depth-first walk that keeps a stack of open component
//! scopes, each with its markup depth and fragment latch.
use vstd::prelude::*;
use crate::naming::{is_render_callback_params, starts_with_uppercase};
use crate::rules::{
    eligible, lemma_outside_nodes, tag_node, tag_nodes, test_id,
    transformed, Latch,
};
use crate::tree::{
    attrs_view, copy_attrs, copy_opt_string, copy_params, has_attribute, nodes_view, Attribute, Node,
};

verus! {

broadcast use vstd::std_specs::vec::group_vec_axioms, vstd::seq::group_seq_axioms;

/// An open component scope.
struct Scope {
    name: String,
    depth: usize,
    latch: Latch,
}

/// Tags the root markup of each component with an attribute that names it.
pub struct TransformVisitor {
    attribute_name: String,
    scopes: Vec<Scope>,
}

/// `s` with the latch of its innermost scope set to `g`.
spec fn with_latch(s: Seq<Scope>, g: Latch) -> Seq<Scope> {
    if s.len() == 0 {
        s
    } else {
        s.update(s.len() - 1, Scope { name: s.last().name, depth: s.last().depth, latch: g })
    }
}

impl TransformVisitor {
    /// The name of the attribute that the pass adds.
    pub closed spec fn attr(&self) -> Seq<char> {
        self.attribute_name@
    }

    /// The innermost open component, if any.
    closed spec fn scope(&self) -> Option<Seq<char>> {
        if self.scopes@.len() == 0 {
            None
        } else {
            Some(self.scopes@.last().name@)
        }
    }

    /// Whether the walk stands at the root markup level of that component.
    closed spec fn root(&self) -> bool {
        self.scopes@.len() == 0 || self.scopes@.last().depth == 0
    }

    closed spec fn latch(&self) -> Latch {
        if self.scopes@.len() == 0 {
            Latch::Open
        } else {
            self.scopes@.last().latch
        }
    }

    /// A visitor that adds `attribute_name`, or `data-test-id` when none is
    /// given.
    pub fn new(attribute_name: Option<String>) -> (r: Self)
        ensures
            r.attr() == match attribute_name {
                Some(s) => s@,
                None => "data-test-id"@,
            },
    {
        let attribute_name = match attribute_name {
            Some(s) => s,
            None => String::from_str("data-test-id"),
        };
        TransformVisitor { attribute_name, scopes: Vec::new() }
    }

    /// The name of the attribute that the pass adds.
    pub fn get_attribute_name(&self) -> (r: &str)
        ensures
            r@ == self.attr(),
    {
        self.attribute_name.as_str()
    }

    fn push_scope(&mut self, name: String)
        ensures
            final(self).attribute_name == old(self).attribute_name,
            final(self).scopes@ == old(self).scopes@.push(
                Scope { name, depth: 0, latch: Latch::Open },
            ),
    {
        self.scopes.push(Scope { name, depth: 0, latch: Latch::Open });
    }

    fn pop_scope(&mut self)
        requires
            old(self).scopes@.len() > 0,
        ensures
            final(self).attribute_name == old(self).attribute_name,
            final(self).scopes@ == old(self).scopes@.drop_last(),
    {
        let _ = self.scopes.pop();
    }

    /// Sets the depth and latch of the innermost scope.
    fn set_top(&mut self, depth: usize, latch: Latch)
        requires
            old(self).scopes@.len() > 0,
        ensures
            final(self).attribute_name == old(self).attribute_name,
            final(self).scopes@ == old(self).scopes@.update(
                old(self).scopes@.len() - 1,
                Scope { name: old(self).scopes@.last().name, depth, latch },
            ),
    {
        match self.scopes.pop() {
            Some(top) => {
                self.scopes.push(Scope { name: top.name, depth, latch });
            },
            None => {},
        }
        assert(self.scopes@ =~= old(self).scopes@.update(
            old(self).scopes@.len() - 1,
            Scope { name: old(self).scopes@.last().name, depth, latch },
        ));
    }

    /// Whether an element with attributes `attrs`, met now, gets the
    /// attribute: it stands at the root level of a component, its fragment
    /// has not had its first match yet, and it has no attribute of that name.
    fn should_add_test_id(&self, attrs: &Vec<Attribute>) -> (r: bool)
        ensures
            r == eligible(self.attr(), self.scope(), self.root(), self.latch(), attrs_view(attrs@)),
    {
        if self.scopes.len() == 0 {
            return false;
        }
        let last = self.scopes.len() - 1;
        self.scopes[last].depth == 0 && self.scopes[last].latch != Latch::Fired && !has_attribute(
            attrs,
            &self.attribute_name,
        )
    }

    /// Appends to `attrs` the attribute that names the innermost component.
    fn add_test_id(&self, attrs: &mut Vec<Attribute>)
        requires
            self.scopes@.len() > 0,
        ensures
            attrs_view(final(attrs)@) == attrs_view(old(attrs)@).push(test_id(self.attr(), self.scope()->0)),
    {
        let last = self.scopes.len() - 1;
        attrs.push(
            Attribute::Named {
                name: self.attribute_name.clone(),
                value: Some(self.scopes[last].name.clone()),
            },
        );
        assert(attrs_view(attrs@) =~= attrs_view(old(attrs)@).push(attrs@.last()@));
    }

    /// Walks `body` as the body of the component `name`.
    fn visit_scope(&mut self, name: String, body: &Vec<Node>) -> (r: Vec<Node>)
        ensures
            final(self).attribute_name == old(self).attribute_name,
            final(self).scopes@ == old(self).scopes@,
            nodes_view(r@) == tag_nodes(old(self).attr(), Some(name@), true, Latch::Open, nodes_view(body@)).0,
        decreases body, 1nat,
    {
        let ghost s0 = self.scopes@;
        self.push_scope(name);
        let r = self.visit_nodes(body);
        self.pop_scope();
        assert(self.scopes@ =~= s0);
        r
    }

    fn visit_nodes(&mut self, ns: &Vec<Node>) -> (r: Vec<Node>)
        ensures
            final(self).attribute_name == old(self).attribute_name,
            final(self).scopes@ == with_latch(
                old(self).scopes@,
                tag_nodes(old(self).attr(), old(self).scope(), old(self).root(), old(self).latch(), nodes_view(ns@)).1,
            ),
            nodes_view(r@) == tag_nodes(old(self).attr(), old(self).scope(), old(self).root(), old(self).latch(), nodes_view(ns@)).0,
        decreases ns, 0nat,
    {
        let ghost s0 = self.scopes@;
        let ghost a = self.attr();
        let ghost sc = self.scope();
        let ghost rt = self.root();
        let ghost g0 = self.latch();
        let mut out: Vec<Node> = Vec::new();
        let mut i: usize = 0;
        proof {
            assert(ns@.subrange(0, 0) =~= Seq::<Node>::empty());
            assert(s0.len() > 0 ==> with_latch(s0, g0) =~= s0);
        }
        while i < ns.len()
            invariant
                i <= ns@.len(),
                a == self.attr(),
                self.attribute_name == old(self).attribute_name,
                s0 == old(self).scopes@,
                sc == old(self).scope(),
                rt == old(self).root(),
                g0 == old(self).latch(),
                self.scopes@ == with_latch(s0, tag_nodes(a, sc, rt, g0, nodes_view(ns@.subrange(0, i as int))).1),
                nodes_view(out@) == tag_nodes(a, sc, rt, g0, nodes_view(ns@.subrange(0, i as int))).0,
            decreases ns@.len() - i,
        {
            let ghost pre = nodes_view(ns@.subrange(0, i as int));
            let ghost gi = tag_nodes(a, sc, rt, g0, pre).1;
            proof {
                if s0.len() == 0 {
                    lemma_outside_nodes(a, rt, g0, pre);
                }
                assert(self.scope() == sc);
                assert(self.root() == rt);
                assert(self.latch() == gi);
                assert(decreases_to!(*ns => ns[i as int]));
            }
            let x = self.visit_node(&ns[i]);
            let ghost xv = tag_node(a, sc, rt, gi, ns@[i as int]@);
            let ghost out0 = out@;
            out.push(x);
            proof {
                let sub = ns@.subrange(0, i + 1);
                assert(sub.subrange(0, i as int) =~= ns@.subrange(0, i as int));
                assert(nodes_view(sub) == pre.push(ns@[i as int]@));
                crate::tree::lemma_nodes_view_len(ns@.subrange(0, i as int));
                assert(pre.push(ns@[i as int]@).subrange(0, i as int) =~= pre);
                assert(out@.subrange(0, out0.len() as int) =~= out0);
                assert(self.scopes@ =~= with_latch(s0, xv.1));
            }
            i = i + 1;
        }
        assert(ns@.subrange(0, ns@.len() as int) =~= ns@);
        out
    }

    fn visit_node(&mut self, n: &Node) -> (r: Node)
        ensures
            final(self).attribute_name == old(self).attribute_name,
            final(self).scopes@ == with_latch(
                old(self).scopes@,
                tag_node(old(self).attr(), old(self).scope(), old(self).root(), old(self).latch(), n@).1,
            ),
            r@ == tag_node(old(self).attr(), old(self).scope(), old(self).root(), old(self).latch(), n@).0,
        decreases n, 2nat,
    {
        proof {
            assert(self.scopes@.len() > 0 ==> with_latch(self.scopes@, self.latch()) =~= self.scopes@);
        }
        match n {
            Node::FnDecl { name, body } => {
                if starts_with_uppercase(name.as_str()) {
                    let b = self.visit_scope(name.clone(), body);
                    Node::FnDecl { name: name.clone(), body: b }
                } else {
                    let b = self.visit_nodes(body);
                    Node::FnDecl { name: name.clone(), body: b }
                }
            },
            Node::VarDecl { binding, init } => {
                match init {
                    None => Node::VarDecl { binding: copy_opt_string(binding), init: None },
                    Some(b) => {
                        let is_fn = match &**b {
                            Node::Arrow { .. } => true,
                            Node::FnExpr { .. } => true,
                            _ => false,
                        };
                        let x = match binding {
                            Some(bn) => {
                                if is_fn && starts_with_uppercase(bn.as_str()) {
                                    let ghost s0 = self.scopes@;
                                    self.push_scope(bn.clone());
                                    let x = self.visit_node(b);
                                    self.pop_scope();
                                    assert(self.scopes@ =~= s0);
                                    x
                                } else {
                                    self.visit_node(b)
                                }
                            },
                            None => self.visit_node(b),
                        };
                        Node::VarDecl { binding: copy_opt_string(binding), init: Some(Box::new(x)) }
                    },
                }
            },
            Node::Arrow { params, body } => {
                if is_render_callback_params(params) {
                    let b = self.visit_scope(String::from_str("RenderComponent"), body);
                    Node::Arrow { params: copy_params(params), body: b }
                } else {
                    let b = self.visit_nodes(body);
                    Node::Arrow { params: copy_params(params), body: b }
                }
            },
            Node::FnExpr { body } => {
                let b = self.visit_nodes(body);
                Node::FnExpr { body: b }
            },
            Node::Element { tag, attrs, children } => {
                let mut new_attrs = copy_attrs(attrs);
                if self.scopes.len() == 0 {
                    proof {
                        lemma_outside_nodes(self.attr(), true, Latch::Open, nodes_view(children@));
                        lemma_outside_nodes(self.attr(), false, Latch::Open, nodes_view(children@));
                    }
                    let c = self.visit_nodes(children);
                    Node::Element { tag: tag.clone(), attrs: new_attrs, children: c }
                } else {
                    let last = self.scopes.len() - 1;
                    let depth = self.scopes[last].depth;
                    let latch = self.scopes[last].latch;
                    let tagged = self.should_add_test_id(attrs);
                    if tagged {
                        self.add_test_id(&mut new_attrs);
                    }
                    let matched = tagged || (depth == 0 && has_attribute(attrs, &self.attribute_name));
                    let latch2 = if matched && latch == Latch::Armed {
                        Latch::Fired
                    } else {
                        latch
                    };
                    let deeper = if depth < usize::MAX {
                        depth + 1
                    } else {
                        depth
                    };
                    self.set_top(deeper, latch2);
                    let c = self.visit_nodes(children);
                    let after = self.scopes[last].latch;
                    self.set_top(depth, after);
                    proof {
                        assert(self.scopes@ =~= with_latch(old(self).scopes@, after));
                    }
                    Node::Element { tag: tag.clone(), attrs: new_attrs, children: c }
                }
            },
            Node::Fragment { children } => {
                if self.scopes.len() == 0 {
                    proof {
                        lemma_outside_nodes(self.attr(), true, Latch::Open, nodes_view(children@));
                        lemma_outside_nodes(self.attr(), true, Latch::Armed, nodes_view(children@));
                    }
                    let c = self.visit_nodes(children);
                    Node::Fragment { children: c }
                } else {
                    let last = self.scopes.len() - 1;
                    let depth = self.scopes[last].depth;
                    let latch = self.scopes[last].latch;
                    self.set_top(0, Latch::Armed);
                    let c = self.visit_nodes(children);
                    self.set_top(depth, latch);
                    proof {
                        assert(self.scopes@ =~= old(self).scopes@);
                    }
                    Node::Fragment { children: c }
                }
            },
            Node::Group { children } => {
                let c = self.visit_nodes(children);
                Node::Group { children: c }
            },
        }
    }

    /// Runs the pass over a whole tree: every root markup element of a
    /// component gets the attribute, unless it has one of that name already.
    pub fn transform(&self, tree: &Vec<Node>) -> (r: Vec<Node>)
        ensures
            nodes_view(r@) == transformed(self.attr(), nodes_view(tree@)),
    {
        let mut walker = TransformVisitor { attribute_name: self.attribute_name.clone(), scopes: Vec::new() };
        walker.visit_nodes(tree)
    }
}

} // verus!
