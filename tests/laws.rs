use jsx_testid::tree::{Attribute, Node};
use jsx_testid::visitor::TransformVisitor;

fn s(x: &str) -> String {
    x.to_string()
}

fn el(tag: &str, attrs: Vec<Attribute>, children: Vec<Node>) -> Node {
    Node::Element { tag: s(tag), attrs, children }
}

fn leaf(tag: &str) -> Node {
    el(tag, vec![], vec![])
}

fn attr(name: &str, value: &str) -> Attribute {
    Attribute::Named { name: s(name), value: Some(s(value)) }
}

fn func(name: &str, body: Vec<Node>) -> Node {
    Node::FnDecl { name: s(name), body }
}

fn run(tree: &Vec<Node>) -> Vec<Node> {
    TransformVisitor::new(Some(s("data-testid"))).transform(tree)
}

#[test]
fn running_twice_adds_nothing() {
    let tree = vec![
        func("Page", vec![el("Layout", vec![], vec![leaf("Header")])]),
        func("Footer", vec![el("div", vec![attr("className", "f")], vec![])]),
    ];
    let once = run(&tree);
    assert_ne!(once, tree);
    assert_eq!(run(&once), once);
}

#[test]
fn running_twice_keeps_the_fragment_tag() {
    let tree = vec![func("TabPanel", vec![Node::Fragment { children: vec![leaf("Tab"), leaf("Tab")] }])];
    let once = run(&tree);
    let expected = vec![func(
        "TabPanel",
        vec![Node::Fragment { children: vec![el("Tab", vec![attr("data-testid", "TabPanel")], vec![]), leaf("Tab")] }],
    )];
    assert_eq!(once, expected);
    assert_eq!(run(&once), once);
}

#[test]
fn existing_attribute_of_any_value_is_kept() {
    let tree = vec![func(
        "Card",
        vec![el("section", vec![Attribute::Spread, attr("data-testid", ""), attr("id", "x")], vec![])],
    )];
    assert_eq!(run(&tree), tree);
}

#[test]
fn valueless_attribute_counts_as_present() {
    let tree = vec![func(
        "Card",
        vec![el("section", vec![Attribute::Named { name: s("data-testid"), value: None }], vec![])],
    )];
    assert_eq!(run(&tree), tree);
}

#[test]
fn spread_attribute_is_not_the_attribute() {
    let out = run(&vec![func("Card", vec![el("section", vec![Attribute::Spread], vec![])])]);
    let expected =
        vec![func("Card", vec![el("section", vec![Attribute::Spread, attr("data-testid", "Card")], vec![])])];
    assert_eq!(out, expected);
}

#[test]
fn nested_markup_is_never_tagged() {
    let tree = vec![func(
        "List",
        vec![el("ul", vec![], vec![Node::Group { children: vec![el("li", vec![], vec![leaf("Item")])] }])],
    )];
    let out = run(&tree);
    let expected = vec![func(
        "List",
        vec![el(
            "ul",
            vec![attr("data-testid", "List")],
            vec![Node::Group { children: vec![el("li", vec![], vec![leaf("Item")])] }],
        )],
    )];
    assert_eq!(out, expected);
}

#[test]
fn existing_attribute_counts_as_the_fragment_tag() {
    let tree = vec![func(
        "Tabs",
        vec![Node::Fragment {
            children: vec![el("Tab", vec![attr("data-testid", "mine")], vec![]), leaf("Tab"), leaf("Panel")],
        }],
    )];
    assert_eq!(run(&tree), tree);
}

#[test]
fn only_the_first_fragment_child_is_tagged() {
    let tree = vec![func("Tabs", vec![Node::Fragment { children: vec![leaf("Tab"), leaf("Tab"), leaf("Panel")] }])];
    let expected = vec![func(
        "Tabs",
        vec![Node::Fragment {
            children: vec![el("Tab", vec![attr("data-testid", "Tabs")], vec![]), leaf("Tab"), leaf("Panel")],
        }],
    )];
    assert_eq!(run(&tree), expected);
}

#[test]
fn nested_fragment_is_matched_on_its_own() {
    let tree = vec![func(
        "Tabs",
        vec![Node::Fragment {
            children: vec![leaf("A"), Node::Fragment { children: vec![leaf("B"), leaf("C")] }, leaf("D")],
        }],
    )];
    let tagged = |t: &str| el(t, vec![attr("data-testid", "Tabs")], vec![]);
    let expected = vec![func(
        "Tabs",
        vec![Node::Fragment {
            children: vec![tagged("A"), Node::Fragment { children: vec![tagged("B"), leaf("C")] }, leaf("D")],
        }],
    )];
    assert_eq!(run(&tree), expected);
}

#[test]
fn inner_component_is_tagged_independently() {
    let tree = vec![func(
        "Outer",
        vec![Node::Fragment {
            children: vec![
                func("Inner", vec![leaf("Button")]),
                leaf("Card"),
                leaf("Other"),
            ],
        }],
    )];
    let expected = vec![func(
        "Outer",
        vec![Node::Fragment {
            children: vec![
                func("Inner", vec![el("Button", vec![attr("data-testid", "Inner")], vec![])]),
                el("Card", vec![attr("data-testid", "Outer")], vec![]),
                leaf("Other"),
            ],
        }],
    )];
    assert_eq!(run(&tree), expected);
}

#[test]
fn lowercase_function_is_no_component() {
    let tree = vec![
        func("helper", vec![leaf("Button")]),
        Node::VarDecl {
            binding: Some(s("render")),
            init: Some(Box::new(Node::Arrow { params: vec![], body: vec![leaf("Card")] })),
        },
    ];
    assert_eq!(run(&tree), tree);
}

#[test]
fn non_ascii_capital_starts_a_component() {
    let out = run(&vec![func("Élan", vec![leaf("div")])]);
    assert_eq!(out, vec![func("Élan", vec![el("div", vec![attr("data-testid", "Élan")], vec![])])]);
}

#[test]
fn lowercase_function_inside_component_uses_outer_name() {
    let tree = vec![func("Page", vec![func("helper", vec![leaf("Button")])])];
    let expected =
        vec![func("Page", vec![func("helper", vec![el("Button", vec![attr("data-testid", "Page")], vec![])])])];
    assert_eq!(run(&tree), expected);
}

#[test]
fn variable_bound_to_markup_is_no_component() {
    let tree = vec![Node::VarDecl { binding: Some(s("Header")), init: Some(Box::new(leaf("h1"))) }];
    assert_eq!(run(&tree), tree);
}

#[test]
fn render_callback_opens_its_own_scope() {
    let cb = |body: Vec<Node>| Node::Arrow { params: vec![None, Some(s("renderItem"))], body };
    let tree = vec![func("List", vec![el("ul", vec![], vec![cb(vec![leaf("li")])])])];
    let expected = vec![func(
        "List",
        vec![el(
            "ul",
            vec![attr("data-testid", "List")],
            vec![cb(vec![el("li", vec![attr("data-testid", "RenderComponent")], vec![])])],
        )],
    )];
    assert_eq!(run(&tree), expected);
}

#[test]
fn short_or_other_parameter_is_no_render_callback() {
    let cb = |p: &str| Node::Arrow { params: vec![Some(s(p))], body: vec![leaf("li")] };
    let tree = vec![func("List", vec![el("ul", vec![], vec![cb("rende"), cb("item"), cb("Render")])])];
    let expected = vec![func(
        "List",
        vec![el("ul", vec![attr("data-testid", "List")], vec![cb("rende"), cb("item"), cb("Render")])],
    )];
    assert_eq!(run(&tree), expected);
}

#[test]
fn siblings_after_markup_are_roots_again() {
    let tree = vec![func("Page", vec![el("A", vec![], vec![leaf("B")]), leaf("C")])];
    let expected = vec![func(
        "Page",
        vec![
            el("A", vec![attr("data-testid", "Page")], vec![leaf("B")]),
            el("C", vec![attr("data-testid", "Page")], vec![]),
        ],
    )];
    assert_eq!(run(&tree), expected);
}

#[test]
fn markup_outside_components_is_untouched() {
    let tree = vec![leaf("App"), Node::Fragment { children: vec![leaf("A")] }];
    assert_eq!(run(&tree), tree);
}

#[test]
fn empty_tree_stays_empty() {
    assert_eq!(run(&vec![]), vec![]);
}

#[test]
fn inner_component_in_markup_is_tagged_with_its_own_name() {
    let tree = vec![func(
        "Outer",
        vec![el(
            "Card",
            vec![],
            vec![Node::Group { children: vec![func("Inner", vec![el("Button", vec![attr("id", "b")], vec![])])] }],
        )],
    )];
    let expected = vec![func(
        "Outer",
        vec![el(
            "Card",
            vec![attr("data-testid", "Outer")],
            vec![Node::Group {
                children: vec![func(
                    "Inner",
                    vec![el("Button", vec![attr("id", "b"), attr("data-testid", "Inner")], vec![])],
                )],
            }],
        )],
    )];
    assert_eq!(run(&tree), expected);
}

#[test]
fn emptying_an_inner_component_leaves_the_outer_tagging() {
    let tree = |inner: Vec<Node>| {
        vec![func(
            "Outer",
            vec![Node::Fragment { children: vec![func("Inner", inner), leaf("Card"), leaf("Other")] }],
        )]
    };
    let full = run(&tree(vec![Node::Fragment { children: vec![leaf("A"), leaf("B")] }]));
    let empty = run(&tree(vec![]));
    match (&full[0], &empty[0]) {
        (Node::FnDecl { body: b1, .. }, Node::FnDecl { body: b2, .. }) => match (&b1[0], &b2[0]) {
            (Node::Fragment { children: c1 }, Node::Fragment { children: c2 }) => {
                assert_eq!(c1[1..], c2[1..]);
                assert_eq!(c1[1], el("Card", vec![attr("data-testid", "Outer")], vec![]));
            }
            _ => panic!("fragment expected"),
        },
        _ => panic!("function expected"),
    }
}
