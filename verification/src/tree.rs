//! Declarations as trees of annotated nodes, and the rewriting of every
//! availability annotation in a tree.

use crate::args::{ParseError, ParseErrorView};
use crate::attribute::{
    is_annotation, lemma_attributes_without_annotation_stay,
    lemma_rewritten_attributes_hold_no_annotation, rewrite_attributes, rewritten_attributes,
    Attribute, AttributeView,
};
use vstd::prelude::*;

verus! {

/// The kinds of node that can carry an annotation.
#[derive(Clone, Copy, Debug, PartialEq, Eq, Structural)]
pub enum NodeKind {
    /// A function, a type or another named item at the top level.
    Declaration,
    /// A variant of an enum.
    EnumVariant,
    /// An arm of a `match`.
    MatchArm,
    /// A `let` binding.
    LocalBinding,
    /// An item inside another item's body.
    NestedItem,
}

/// A node of a declaration's tree: its attributes, and the nodes inside it in
/// the order of the source.
#[derive(Debug, PartialEq, Eq)]
pub struct Node {
    pub kind: NodeKind,
    pub name: String,
    pub attributes: Vec<Attribute>,
    pub children: Vec<Node>,
}

/// What a [`Node`] holds, as a mathematical value.
pub struct NodeView {
    pub kind: NodeKind,
    pub name: Seq<char>,
    pub attributes: Seq<AttributeView>,
    pub children: Seq<NodeView>,
}

/// What `node` holds: its own fields by their views, and the nodes inside it
/// by theirs.
pub open spec fn node_view(node: Node) -> NodeView
    decreases node,
{
    NodeView {
        kind: node.kind,
        name: node.name@,
        attributes: node.attributes.deep_view(),
        children: Seq::new(
            node.children@.len(),
            |i: int|
                if 0 <= i < node.children@.len() {
                    node_view(node.children@[i])
                } else {
                    arbitrary()
                },
        ),
    }
}

impl View for Node {
    type V = NodeView;

    open spec fn view(&self) -> NodeView {
        node_view(*self)
    }
}

impl DeepView for Node {
    type V = NodeView;

    open spec fn deep_view(&self) -> NodeView {
        self@
    }
}

impl Node {
    /// The view of a node, field by field.
    pub proof fn lemma_view(&self)
        ensures
            self@.kind == self.kind,
            self@.name == self.name@,
            self@.attributes == self.attributes.deep_view(),
            self@.children.len() == self.children.len(),
            forall|i: int|
                0 <= i < self.children.len() ==> #[trigger] self@.children[i]
                    == self.children[i]@,
            self@.children == self.children.deep_view(),
    {
        assert(self@.children =~= self.children.deep_view());
    }
}

/// The tree after rewriting: the attributes of every node rewritten, the
/// nodes themselves and their order kept. Where several annotations are
/// refused, the error is that of the first one met when each node is visited
/// before the nodes inside it.
pub open spec fn rewritten(node: NodeView) -> Result<NodeView, ParseErrorView>
    decreases node,
{
    match rewritten_attributes(node.attributes) {
        Err(error) => Err(error),
        Ok(attributes) => match rewritten_all(node.children) {
            Err(error) => Err(error),
            Ok(children) => Ok(
                NodeView { kind: node.kind, name: node.name, attributes, children },
            ),
        },
    }
}

/// The trees after rewriting, in their order.
pub open spec fn rewritten_all(nodes: Seq<NodeView>) -> Result<Seq<NodeView>, ParseErrorView>
    decreases nodes,
{
    if nodes.len() == 0 {
        Ok(Seq::empty())
    } else {
        match rewritten_all(nodes.drop_last()) {
            Err(error) => Err(error),
            Ok(done) => match rewritten(nodes.last()) {
                Err(error) => Err(error),
                Ok(node) => Ok(done.push(node)),
            },
        }
    }
}

/// An error among the first trees is the error of the whole list.
pub proof fn lemma_trees_error_stays(nodes: Seq<NodeView>, k: int)
    requires
        0 <= k <= nodes.len(),
        rewritten_all(nodes.take(k)) is Err,
    ensures
        rewritten_all(nodes) == rewritten_all(nodes.take(k)),
    decreases nodes.len(),
{
    if k == nodes.len() {
        assert(nodes.take(k) == nodes);
    } else {
        assert(nodes.drop_last().take(k) == nodes.take(k));
        lemma_trees_error_stays(nodes.drop_last(), k);
    }
}

/// Rewrites every availability annotation in the tree of `node`. Nothing is
/// handed out where one of them is refused.
pub fn rewrite_tree(node: &Node) -> (out: Result<Node, ParseError>)
    ensures
        match out {
            Ok(tree) => rewritten(node@) == Ok::<NodeView, ParseErrorView>(tree@),
            Err(error) => rewritten(node@) == Err::<NodeView, ParseErrorView>(error@),
        },
    decreases node,
{
    let attributes = match rewrite_attributes(node.attributes.as_slice()) {
        Ok(attributes) => attributes,
        Err(error) => {
            return Err(error);
        },
    };
    let ghost views = node@.children;
    let mut children: Vec<Node> = Vec::new();
    let mut i: usize = 0;
    proof {
        node.lemma_view();
    }
    assert(children.deep_view() == Seq::<NodeView>::empty());
    while i < node.children.len()
        invariant
            i <= node.children.len(),
            views == node@.children,
            views == node.children.deep_view(),
            rewritten_attributes(node@.attributes) == Ok::<Seq<AttributeView>, ParseErrorView>(
                attributes.deep_view(),
            ),
            rewritten_all(views.take(i as int)) == Ok::<Seq<NodeView>, ParseErrorView>(
                children.deep_view(),
            ),
        decreases node.children.len() - i,
    {
        let ghost before = children.deep_view();
        proof {
            assert(views.take(i + 1).drop_last() == views.take(i as int));
            assert(views.take(i + 1).last() == node.children[i as int]@);
        }
        match rewrite_tree(&node.children[i]) {
            Err(error) => {
                proof {
                    lemma_trees_error_stays(views, i + 1);
                }
                return Err(error);
            },
            Ok(child) => {
                children.push(child);
                assert(children.deep_view() == before.push(child@));
            },
        }
        i = i + 1;
    }
    assert(views.take(i as int) == views);
    let tree = Node { kind: node.kind, name: node.name.clone(), attributes, children };
    proof {
        node.lemma_view();
        tree.lemma_view();
    }
    Ok(tree)
}

/// Whether no attribute in the tree of `node` is an availability annotation.
pub open spec fn annotation_free(node: NodeView) -> bool
    decreases node,
{
    &&& forall|i: int|
        0 <= i < node.attributes.len() ==> !is_annotation(#[trigger] node.attributes[i])
    &&& forall|i: int|
        0 <= i < node.children.len() ==> annotation_free(#[trigger] node.children[i])
}

/// Whether two trees differ in their attributes at most: node for node they
/// have the same kind, the same name and as many nodes inside.
pub open spec fn same_shape(a: NodeView, b: NodeView) -> bool
    decreases a,
{
    &&& a.kind == b.kind
    &&& a.name == b.name
    &&& a.children.len() == b.children.len()
    &&& forall|i: int|
        0 <= i < a.children.len() ==> same_shape(#[trigger] a.children[i], b.children[i])
}

/// Rewriting changes attributes only, and the tree that it hands out holds no
/// annotation any more.
pub proof fn lemma_rewritten_tree(node: NodeView)
    ensures
        rewritten(node) matches Ok(tree) ==> same_shape(node, tree) && annotation_free(tree),
    decreases node,
{
    lemma_rewritten_attributes_hold_no_annotation(node.attributes);
    lemma_rewritten_trees(node.children);
}

/// What `lemma_rewritten_tree` says, of each tree of a list.
pub proof fn lemma_rewritten_trees(nodes: Seq<NodeView>)
    ensures
        rewritten_all(nodes) matches Ok(trees) ==> {
            &&& trees.len() == nodes.len()
            &&& forall|i: int|
                0 <= i < nodes.len() ==> same_shape(#[trigger] nodes[i], trees[i])
            &&& forall|i: int| 0 <= i < trees.len() ==> annotation_free(#[trigger] trees[i])
        },
    decreases nodes,
{
    if nodes.len() > 0 {
        lemma_rewritten_trees(nodes.drop_last());
        lemma_rewritten_tree(nodes.last());
        if let Ok(trees) = rewritten_all(nodes) {
            let before = rewritten_all(nodes.drop_last())->Ok_0;
            assert forall|i: int| 0 <= i < nodes.len() implies same_shape(
                #[trigger] nodes[i],
                trees[i],
            ) by {
                if i < before.len() {
                    assert(nodes[i] == nodes.drop_last()[i]);
                    assert(trees[i] == before[i]);
                }
            }
            assert forall|i: int| 0 <= i < trees.len() implies annotation_free(
                #[trigger] trees[i],
            ) by {
                if i < before.len() {
                    assert(trees[i] == before[i]);
                }
            }
        }
    }
}

/// A tree without annotations is handed out as it is.
pub proof fn lemma_annotation_free_tree_stays(node: NodeView)
    requires
        annotation_free(node),
    ensures
        rewritten(node) == Ok::<NodeView, ParseErrorView>(node),
    decreases node,
{
    lemma_attributes_without_annotation_stay(node.attributes);
    lemma_annotation_free_trees_stay(node.children);
}

/// What `lemma_annotation_free_tree_stays` says, of each tree of a list.
pub proof fn lemma_annotation_free_trees_stay(nodes: Seq<NodeView>)
    requires
        forall|i: int| 0 <= i < nodes.len() ==> annotation_free(#[trigger] nodes[i]),
    ensures
        rewritten_all(nodes) == Ok::<Seq<NodeView>, ParseErrorView>(nodes),
    decreases nodes,
{
    if nodes.len() > 0 {
        let before = nodes.drop_last();
        assert forall|i: int| 0 <= i < before.len() implies annotation_free(
            #[trigger] before[i],
        ) by {
            assert(before[i] == nodes[i]);
        }
        assert(annotation_free(nodes[nodes.len() - 1]));
        lemma_annotation_free_trees_stay(before);
        lemma_annotation_free_tree_stays(nodes.last());
        assert(before.push(nodes.last()) == nodes);
    } else {
        assert(nodes == Seq::<NodeView>::empty());
    }
}

/// One pass is enough: rewriting what was rewritten changes nothing.
pub proof fn lemma_rewriting_twice(node: NodeView)
    ensures
        rewritten(node) matches Ok(tree) ==> rewritten(tree) == Ok::<NodeView, ParseErrorView>(
            tree,
        ),
{
    lemma_rewritten_tree(node);
    if let Ok(tree) = rewritten(node) {
        lemma_annotation_free_tree_stays(tree);
    }
}

} // verus!
