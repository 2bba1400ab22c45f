//! The handling of one annotated declaration.

use crate::args::{ParseError, ParseErrorView};
use crate::attribute::{cfg_attribute, guard_attribute, is_annotation, Attribute, Delimiter};
use crate::guard::{guard_for, guard_of};
use crate::tree::{
    annotation_free, lemma_rewritten_tree, rewrite_tree, rewritten, same_shape, Node, NodeView,
};
use vstd::prelude::*;

verus! {

/// The declaration as it is emitted for the annotation with the arguments
/// `args`: rewritten, and with a guard in front of its attributes where the
/// arguments specify a bound.
pub open spec fn emitted(args: Seq<char>, item: NodeView) -> Result<NodeView, ParseErrorView> {
    match rewritten(item) {
        Err(error) => Err(error),
        Ok(tree) => match guard_of(args) {
            Err(error) => Err(error),
            Ok(None) => Ok(tree),
            Ok(Some(flags)) => Ok(
                NodeView {
                    kind: tree.kind,
                    name: tree.name,
                    attributes: seq![cfg_attribute(Delimiter::Parenthesis, flags)]
                        + tree.attributes,
                    children: tree.children,
                },
            ),
        },
    }
}

/// Handles one annotated declaration: rewrites the annotations inside `item`,
/// then reads `args`, the arguments of the declaration's own annotation, and
/// puts the declaration under a guard where they specify a bound. An
/// annotation inside `item` that is refused is reported before `args` is read.
pub fn available(args: &str, item: &Node) -> (out: Result<Node, ParseError>)
    ensures
        match out {
            Ok(tree) => emitted(args@, item@) == Ok::<NodeView, ParseErrorView>(tree@),
            Err(error) => emitted(args@, item@) == Err::<NodeView, ParseErrorView>(error@),
        },
{
    let tree = match rewrite_tree(item) {
        Ok(tree) => tree,
        Err(error) => {
            return Err(error);
        },
    };
    match guard_for(args) {
        Err(error) => Err(error),
        Ok(None) => Ok(tree),
        Ok(Some(condition)) => {
            let ghost inner = tree@;
            proof {
                tree.lemma_view();
            }
            let Node { kind, name, attributes: mut rest, children } = tree;
            let mut attributes: Vec<Attribute> = Vec::new();
            attributes.push(guard_attribute(Delimiter::Parenthesis, &condition));
            attributes.append(&mut rest);
            let guarded = Node { kind, name, attributes, children };
            proof {
                guarded.lemma_view();
                assert(guarded@.attributes == seq![
                    cfg_attribute(Delimiter::Parenthesis, condition@),
                ] + inner.attributes);
            }
            Ok(guarded)
        },
    }
}

/// What is emitted is the rewritten declaration, with the guard in front of
/// its attributes where there is one. It differs from the declaration in
/// attributes only, and it holds no annotation.
pub proof fn lemma_emitted(args: Seq<char>, item: NodeView)
    ensures
        emitted(args, item) matches Ok(out) ==> {
            &&& rewritten(item) matches Ok(tree)
            &&& guard_of(args) matches Ok(guard)
            &&& guard is None ==> out == tree
            &&& guard matches Some(flags) ==> {
                &&& out.attributes.len() == tree.attributes.len() + 1
                &&& out.attributes[0] == cfg_attribute(Delimiter::Parenthesis, flags)
                &&& out.attributes.skip(1) == tree.attributes
                &&& out.children == tree.children
            }
            &&& same_shape(item, out)
            &&& annotation_free(out)
        },
{
    lemma_rewritten_tree(item);
    if let Ok(out) = emitted(args, item) {
        let tree = rewritten(item)->Ok_0;
        if let Ok(Some(flags)) = guard_of(args) {
            let guard = cfg_attribute(Delimiter::Parenthesis, flags);
            reveal_strlit("cfg");
            reveal_strlit("available");
            assert("cfg"@.len() != "available"@.len());
            assert(!is_annotation(guard));
            assert(out.attributes.skip(1) =~= tree.attributes);
            assert forall|i: int| 0 <= i < out.attributes.len() implies !is_annotation(
                #[trigger] out.attributes[i],
            ) by {
                if i > 0 {
                    assert(out.attributes[i] == tree.attributes[i - 1]);
                }
            }
        }
    }
}

} // verus!
