use jsx_testid::tree::{Attribute, Node};
use jsx_testid::visitor::TransformVisitor;

fn s(x: &str) -> String {
    x.to_string()
}

fn el(tag: &str, attrs: Vec<Attribute>, children: Vec<Node>) -> Node {
    Node::Element { tag: s(tag), attrs, children }
}

fn leaf(tag: &str) -> Node {
    el(tag, vec![], vec![])
}

fn attr(name: &str, value: &str) -> Attribute {
    Attribute::Named { name: s(name), value: Some(s(value)) }
}

fn func(name: &str, body: Vec<Node>) -> Node {
    Node::FnDecl { name: s(name), body }
}

fn binding(name: &str, init: Node) -> Node {
    Node::VarDecl { binding: Some(s(name)), init: Some(Box::new(init)) }
}

fn arrow(params: Vec<Option<String>>, body: Vec<Node>) -> Node {
    Node::Arrow { params, body }
}

fn frag(children: Vec<Node>) -> Node {
    Node::Fragment { children }
}

fn run(attr_name: &str, tree: Vec<Node>) -> Vec<Node> {
    TransformVisitor::new(Some(s(attr_name))).transform(&tree)
}

#[test]
fn test_visitor_default_attr() {
    let visitor = TransformVisitor::new(None);
    assert_eq!(visitor.get_attribute_name(), "data-test-id");
}

#[test]
fn test_visitor_custom_attr() {
    let visitor = TransformVisitor::new(Some("data-testid".to_string()));
    assert_eq!(visitor.get_attribute_name(), "data-testid");
}

#[test]
fn basic_function_name() {
    let out = run("data-testid", vec![func("GoodButton", vec![leaf("Button")])]);
    let expected = vec![func(
        "GoodButton",
        vec![el("Button", vec![attr("data-testid", "GoodButton")], vec![])],
    )];
    assert_eq!(out, expected);
}

#[test]
fn nested_components() {
    let out = run(
        "data-testid",
        vec![func("CardContainer", vec![el("Card", vec![], vec![leaf("Button")])])],
    );
    let expected = vec![func(
        "CardContainer",
        vec![el("Card", vec![attr("data-testid", "CardContainer")], vec![leaf("Button")])],
    )];
    assert_eq!(out, expected);
}

#[test]
fn complex_nested_structure() {
    let inner = vec![
        el("Sidebar", vec![], vec![el("Navigation", vec![], vec![leaf("MenuItem")])]),
        el("Content", vec![], vec![leaf("Header"), leaf("Main")]),
    ];
    let out = run("data-testid", vec![func("DashboardLayout", vec![el("Layout", vec![], inner)])]);
    let inner = vec![
        el("Sidebar", vec![], vec![el("Navigation", vec![], vec![leaf("MenuItem")])]),
        el("Content", vec![], vec![leaf("Header"), leaf("Main")]),
    ];
    let expected = vec![func(
        "DashboardLayout",
        vec![el("Layout", vec![attr("data-testid", "DashboardLayout")], inner)],
    )];
    assert_eq!(out, expected);
}

fn profile_card() -> Node {
    el(
        "ProfileCard",
        vec![],
        vec![
            el("img", vec![attr("src", "avatar.jpg")], vec![]),
            el("UserInfo", vec![], vec![leaf("h1"), leaf("span")]),
        ],
    )
}

#[test]
fn mixed_html_and_components() {
    let out = run(
        "data-testid",
        vec![func("UserProfile", vec![el("div", vec![attr("className", "container")], vec![profile_card()])])],
    );
    let expected = vec![func(
        "UserProfile",
        vec![el(
            "div",
            vec![attr("className", "container"), attr("data-testid", "UserProfile")],
            vec![profile_card()],
        )],
    )];
    assert_eq!(out, expected);
}

#[test]
fn multiple_root_components() {
    let panel = || el("Panel", vec![], vec![leaf("Content")]);
    let out = run(
        "data-testid",
        vec![func("TabPanel", vec![frag(vec![leaf("Tab"), leaf("Tab"), panel()])])],
    );
    let expected = vec![func(
        "TabPanel",
        vec![frag(vec![
            el("Tab", vec![attr("data-testid", "TabPanel")], vec![]),
            leaf("Tab"),
            panel(),
        ])],
    )];
    assert_eq!(out, expected);
}

#[test]
fn preserve_existing_custom_attr() {
    let tree = || {
        vec![func(
            "CustomCard",
            vec![el("Card", vec![attr("data-testid", "my-special-card")], vec![leaf("Button")])],
        )]
    };
    assert_eq!(run("data-testid", tree()), tree());
}

#[test]
fn with_conditional_rendering() {
    let cond = || Node::Group { children: vec![leaf("Alert"), leaf("Message")] };
    let out = run(
        "data-testid",
        vec![func("ConditionalComponent", vec![el("Container", vec![], vec![cond()])])],
    );
    let expected = vec![func(
        "ConditionalComponent",
        vec![el("Container", vec![attr("data-testid", "ConditionalComponent")], vec![cond()])],
    )];
    assert_eq!(out, expected);
}

#[test]
fn different_attribute_name() {
    let out = run("data-test-id", vec![func("TestComponent", vec![leaf("Card")])]);
    let expected = vec![func(
        "TestComponent",
        vec![el("Card", vec![attr("data-test-id", "TestComponent")], vec![])],
    )];
    assert_eq!(out, expected);
}

#[test]
fn default_attribute_name() {
    let out = TransformVisitor::new(None).transform(&vec![func("TestComponent", vec![leaf("Card")])]);
    let expected = vec![func(
        "TestComponent",
        vec![el("Card", vec![attr("data-test-id", "TestComponent")], vec![])],
    )];
    assert_eq!(out, expected);
}

#[test]
fn arrow_function_component() {
    let out = run(
        "data-testid",
        vec![binding("Sidebar", arrow(vec![], vec![el("Card", vec![], vec![leaf("Button")])]))],
    );
    let expected = vec![binding(
        "Sidebar",
        arrow(vec![], vec![el("Card", vec![attr("data-testid", "Sidebar")], vec![leaf("Button")])]),
    )];
    assert_eq!(out, expected);
}

#[test]
fn arrow_function_with_props() {
    let info = || el("UserInfo", vec![], vec![leaf("Name"), leaf("Role")]);
    let out = run(
        "data-testid",
        vec![binding("UserCard", arrow(vec![None], vec![el("Card", vec![], vec![leaf("Avatar"), info()])]))],
    );
    let expected = vec![binding(
        "UserCard",
        arrow(
            vec![None],
            vec![el("Card", vec![attr("data-testid", "UserCard")], vec![leaf("Avatar"), info()])],
        ),
    )];
    assert_eq!(out, expected);
}

#[test]
fn mixed_function_types() {
    let out = run(
        "data-testid",
        vec![func(
            "OuterComponent",
            vec![
                binding("InnerComponent", arrow(vec![], vec![leaf("Button")])),
                el("Card", vec![], vec![leaf("InnerComponent")]),
            ],
        )],
    );
    let expected = vec![func(
        "OuterComponent",
        vec![
            binding(
                "InnerComponent",
                arrow(vec![], vec![el("Button", vec![attr("data-testid", "InnerComponent")], vec![])]),
            ),
            el("Card", vec![attr("data-testid", "OuterComponent")], vec![leaf("InnerComponent")]),
        ],
    )];
    assert_eq!(out, expected);
}
