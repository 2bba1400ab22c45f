use availability::args::ParseError;
use availability::attribute::{Attribute, Delimiter};
use availability::tree::{rewrite_tree, Node, NodeKind};

fn bare(path: &str) -> Attribute {
    Attribute::Path { path: path.to_string() }
}

fn list(path: &str, args: &str) -> Attribute {
    Attribute::List {
        path: path.to_string(),
        delimiter: Delimiter::Parenthesis,
        args: args.to_string(),
    }
}

fn node(kind: NodeKind, name: &str, attributes: Vec<Attribute>, children: Vec<Node>) -> Node {
    Node { kind, name: name.to_string(), attributes, children }
}

fn leaf(kind: NodeKind, name: &str, attributes: Vec<Attribute>) -> Node {
    node(kind, name, attributes, Vec::new())
}

fn eep() -> Node {
    node(
        NodeKind::Declaration,
        "Eep",
        vec![list("derive", "Debug")],
        vec![
            leaf(NodeKind::EnumVariant, "Foo", vec![]),
            leaf(NodeKind::EnumVariant, "Bar", vec![list("available", "added = 16, removed = 18")]),
            leaf(NodeKind::EnumVariant, "Baz", vec![]),
        ],
    )
}

fn eep_rewritten() -> Node {
    node(
        NodeKind::Declaration,
        "Eep",
        vec![list("derive", "Debug")],
        vec![
            leaf(NodeKind::EnumVariant, "Foo", vec![]),
            leaf(
                NodeKind::EnumVariant,
                "Bar",
                vec![list("cfg", "any(fuchsia_api_level_16, fuchsia_api_level_17)")],
            ),
            leaf(NodeKind::EnumVariant, "Baz", vec![]),
        ],
    )
}

#[test]
fn annotations_inside_a_tree_are_rewritten() {
    assert_eq!(rewrite_tree(&eep()), Ok(eep_rewritten()));
}

#[test]
fn a_tree_without_annotations_is_unchanged() {
    assert_eq!(rewrite_tree(&eep_rewritten()), Ok(eep_rewritten()));
}

#[test]
fn rewriting_twice_changes_nothing() {
    let once = rewrite_tree(&eep()).unwrap();
    assert_eq!(rewrite_tree(&once), Ok(eep_rewritten()));
}

#[test]
fn rewriting_keeps_the_shape_of_the_tree() {
    let tree = eep();
    let rewritten = rewrite_tree(&tree).unwrap();
    assert_eq!(rewritten.kind, tree.kind);
    assert_eq!(rewritten.name, tree.name);
    assert_eq!(rewritten.children.len(), tree.children.len());
    for (after, before) in rewritten.children.iter().zip(tree.children.iter()) {
        assert_eq!(after.kind, before.kind);
        assert_eq!(after.name, before.name);
    }
}

#[test]
fn annotations_at_every_depth_are_rewritten() {
    let tree = node(
        NodeKind::Declaration,
        "main",
        vec![],
        vec![
            leaf(NodeKind::LocalBinding, "foo", vec![list("cfg", "test")]),
            leaf(NodeKind::LocalBinding, "eep", vec![list("available", "removed = 16")]),
            node(
                NodeKind::NestedItem,
                "helper",
                vec![bare("available")],
                vec![node(
                    NodeKind::LocalBinding,
                    "text",
                    vec![],
                    vec![leaf(
                        NodeKind::MatchArm,
                        "Eep::Bar",
                        vec![list("available", "added = 20")],
                    )],
                )],
            ),
        ],
    );
    let expected = node(
        NodeKind::Declaration,
        "main",
        vec![],
        vec![
            leaf(NodeKind::LocalBinding, "foo", vec![list("cfg", "test")]),
            leaf(
                NodeKind::LocalBinding,
                "eep",
                vec![list(
                    "cfg",
                    "any(fuchsia_api_level_10, fuchsia_api_level_11, fuchsia_api_level_12, \
                     fuchsia_api_level_13, fuchsia_api_level_14, fuchsia_api_level_15)",
                )],
            ),
            node(
                NodeKind::NestedItem,
                "helper",
                vec![],
                vec![node(
                    NodeKind::LocalBinding,
                    "text",
                    vec![],
                    vec![leaf(
                        NodeKind::MatchArm,
                        "Eep::Bar",
                        vec![list(
                            "cfg",
                            "any(fuchsia_api_level_20, fuchsia_api_level_head, \
                             fuchsia_api_level_next)",
                        )],
                    )],
                )],
            ),
        ],
    );
    assert_eq!(rewrite_tree(&tree), Ok(expected));
}

#[test]
fn a_node_is_visited_before_the_nodes_inside_it() {
    let tree = node(
        NodeKind::Declaration,
        "outer",
        vec![list("available", "added = soon")],
        vec![leaf(NodeKind::NestedItem, "inner", vec![list("available", "foo = 1")])],
    );
    assert_eq!(rewrite_tree(&tree), Err(ParseError::InvalidApiLevel));
}

#[test]
fn nodes_are_visited_in_their_order() {
    let tree = node(
        NodeKind::Declaration,
        "outer",
        vec![],
        vec![
            node(
                NodeKind::NestedItem,
                "first",
                vec![],
                vec![leaf(NodeKind::MatchArm, "arm", vec![list("available", "added")])],
            ),
            leaf(NodeKind::NestedItem, "second", vec![list("available", "foo = 1")]),
        ],
    );
    assert_eq!(rewrite_tree(&tree), Err(ParseError::MissingValue));
}
