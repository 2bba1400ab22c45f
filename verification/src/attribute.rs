//! Attributes, and the rewriting of availability annotations into `cfg`
//! attributes.
//!
//! An availability annotation is an attribute under the path `available`,
//! bare or with arguments. One with a bound becomes a `cfg` attribute that
//! carries the condition of its range; one without a bound is removed. Every
//! other attribute stays as it is.

use crate::args::{ParseError, ParseErrorView};
use crate::condition::{any_text, Condition};
use crate::guard::{guard_for, guard_of};
use vstd::prelude::*;
use vstd::string::*;

verus! {

/// The brackets around the arguments of an attribute.
#[derive(Clone, Copy, Debug, PartialEq, Eq, Structural)]
pub enum Delimiter {
    Parenthesis,
    Bracket,
    Brace,
}

/// An attribute on a node.
#[derive(Debug, PartialEq, Eq)]
pub enum Attribute {
    /// A bare path, as in `#[test]`.
    Path { path: String },
    /// A path with arguments, as in `#[available(added = 16)]`. The arguments
    /// are held as the text between the delimiters.
    List { path: String, delimiter: Delimiter, args: String },
    /// A path with a value, as in `#[doc = "text"]`.
    NameValue { path: String, value: String },
}

/// What an [`Attribute`] holds, as a mathematical value.
pub enum AttributeView {
    Path { path: Seq<char> },
    List { path: Seq<char>, delimiter: Delimiter, args: Seq<char> },
    NameValue { path: Seq<char>, value: Seq<char> },
}

impl View for Attribute {
    type V = AttributeView;

    open spec fn view(&self) -> AttributeView {
        match self {
            Attribute::Path { path } => AttributeView::Path { path: path@ },
            Attribute::List { path, delimiter, args } => AttributeView::List {
                path: path@,
                delimiter: *delimiter,
                args: args@,
            },
            Attribute::NameValue { path, value } => AttributeView::NameValue {
                path: path@,
                value: value@,
            },
        }
    }
}

impl DeepView for Attribute {
    type V = AttributeView;

    open spec fn deep_view(&self) -> AttributeView {
        self@
    }
}

/// What becomes of one attribute when a tree is rewritten.
#[derive(Debug, PartialEq, Eq)]
pub enum Rewrite {
    /// The attribute is no availability annotation: it stays as it is.
    Keep,
    /// The annotation specifies no bound: it goes.
    Remove,
    /// The annotation becomes a `cfg` attribute with this condition.
    Guard(Condition),
}

/// What a [`Rewrite`] holds, as a mathematical value.
pub enum RewriteView {
    Keep,
    Remove,
    Guard(Seq<Seq<char>>),
}

impl View for Rewrite {
    type V = RewriteView;

    open spec fn view(&self) -> RewriteView {
        match self {
            Rewrite::Keep => RewriteView::Keep,
            Rewrite::Remove => RewriteView::Remove,
            Rewrite::Guard(condition) => RewriteView::Guard(condition@),
        }
    }
}

/// Whether `attribute` is an availability annotation.
pub open spec fn is_annotation(attribute: AttributeView) -> bool {
    match attribute {
        AttributeView::Path { path } => path == "available"@,
        AttributeView::List { path, .. } => path == "available"@,
        AttributeView::NameValue { .. } => false,
    }
}

/// The guard that the annotation `attribute` asks for. A bare annotation has
/// no arguments, and asks for none.
pub open spec fn annotation_guard(attribute: AttributeView) -> Result<
    Option<Seq<Seq<char>>>,
    ParseErrorView,
> {
    match attribute {
        AttributeView::List { args, .. } => guard_of(args),
        _ => Ok(None),
    }
}

/// What becomes of `attribute`.
pub open spec fn rewrite_of(attribute: AttributeView) -> Result<RewriteView, ParseErrorView> {
    if is_annotation(attribute) {
        match annotation_guard(attribute) {
            Err(error) => Err(error),
            Ok(None) => Ok(RewriteView::Remove),
            Ok(Some(flags)) => Ok(RewriteView::Guard(flags)),
        }
    } else {
        Ok(RewriteView::Keep)
    }
}

/// The `cfg` attribute that carries the condition over `flags`.
pub open spec fn cfg_attribute(delimiter: Delimiter, flags: Seq<Seq<char>>) -> AttributeView {
    AttributeView::List { path: "cfg"@, delimiter, args: any_text(flags) }
}

/// The brackets of `attribute`, where it has arguments; parentheses otherwise.
pub open spec fn delimiter_of(attribute: AttributeView) -> Delimiter {
    match attribute {
        AttributeView::List { delimiter, .. } => delimiter,
        _ => Delimiter::Parenthesis,
    }
}

/// What stands in the place of `attribute` once `rewrite` is carried out. A
/// guard has the brackets of the annotation that it replaces.
pub open spec fn applied(attribute: AttributeView, rewrite: RewriteView) -> Option<AttributeView> {
    match rewrite {
        RewriteView::Keep => Some(attribute),
        RewriteView::Remove => None,
        RewriteView::Guard(flags) => Some(cfg_attribute(delimiter_of(attribute), flags)),
    }
}

/// The attributes after rewriting, in their order: each annotation replaced by
/// its guard or removed, every other attribute kept. The first annotation that
/// is refused decides the error.
pub open spec fn rewritten_attributes(attributes: Seq<AttributeView>) -> Result<
    Seq<AttributeView>,
    ParseErrorView,
>
    decreases attributes.len(),
{
    if attributes.len() == 0 {
        Ok(Seq::empty())
    } else {
        match rewritten_attributes(attributes.drop_last()) {
            Err(error) => Err(error),
            Ok(done) => match rewrite_of(attributes.last()) {
                Err(error) => Err(error),
                Ok(rewrite) => match applied(attributes.last(), rewrite) {
                    Some(attribute) => Ok(done.push(attribute)),
                    None => Ok(done),
                },
            },
        }
    }
}

impl Attribute {
    /// Whether the attribute is an availability annotation.
    pub fn is_availability(&self) -> (annotation: bool)
        ensures
            annotation == is_annotation(self@),
    {
        match self {
            Attribute::Path { path } => is_available(path),
            Attribute::List { path, .. } => is_available(path),
            Attribute::NameValue { .. } => false,
        }
    }

    /// Decides what becomes of the attribute.
    pub fn rewrite(&self) -> (out: Result<Rewrite, ParseError>)
        ensures
            match out {
                Ok(rewrite) => rewrite_of(self@) == Ok::<RewriteView, ParseErrorView>(rewrite@),
                Err(error) => rewrite_of(self@) == Err::<RewriteView, ParseErrorView>(error@),
            },
    {
        if !self.is_availability() {
            return Ok(Rewrite::Keep);
        }
        let guard = match self {
            Attribute::List { args, .. } => match guard_for(args.as_str()) {
                Ok(guard) => guard,
                Err(error) => {
                    return Err(error);
                },
            },
            _ => None,
        };
        match guard {
            None => Ok(Rewrite::Remove),
            Some(condition) => Ok(Rewrite::Guard(condition)),
        }
    }

    /// Carries out `rewrite` on the attribute: gives what stands in its place,
    /// if anything does.
    pub fn apply(&self, rewrite: &Rewrite) -> (out: Option<Attribute>)
        ensures
            out.deep_view() == applied(self@, rewrite@),
    {
        match rewrite {
            Rewrite::Keep => Some(self.duplicate()),
            Rewrite::Remove => None,
            Rewrite::Guard(condition) => Some(guard_attribute(self.delimiter(), condition)),
        }
    }

    /// A copy of the attribute.
    pub fn duplicate(&self) -> (copy: Attribute)
        ensures
            copy@ == self@,
    {
        match self {
            Attribute::Path { path } => Attribute::Path { path: path.clone() },
            Attribute::List { path, delimiter, args } => Attribute::List {
                path: path.clone(),
                delimiter: *delimiter,
                args: args.clone(),
            },
            Attribute::NameValue { path, value } => Attribute::NameValue {
                path: path.clone(),
                value: value.clone(),
            },
        }
    }

    /// The brackets of the attribute, where it has arguments; parentheses
    /// otherwise.
    pub fn delimiter(&self) -> (delimiter: Delimiter)
        ensures
            delimiter == delimiter_of(self@),
    {
        match self {
            Attribute::List { delimiter, .. } => *delimiter,
            _ => Delimiter::Parenthesis,
        }
    }
}

fn is_available(path: &String) -> (same: bool)
    ensures
        same == (path@ == "available"@),
{
    let name = String::from_str("available");
    *path == name
}

/// The `cfg` attribute that carries `condition`.
pub fn guard_attribute(delimiter: Delimiter, condition: &Condition) -> (attribute: Attribute)
    ensures
        attribute@ == cfg_attribute(delimiter, condition@),
{
    Attribute::List { path: String::from_str("cfg"), delimiter, args: condition.text() }
}

/// Rewrites the attributes of one node.
pub fn rewrite_attributes(attributes: &[Attribute]) -> (out: Result<Vec<Attribute>, ParseError>)
    ensures
        match out {
            Ok(done) => rewritten_attributes(attributes.deep_view()) == Ok::<
                Seq<AttributeView>,
                ParseErrorView,
            >(done.deep_view()),
            Err(error) => rewritten_attributes(attributes.deep_view()) == Err::<
                Seq<AttributeView>,
                ParseErrorView,
            >(error@),
        },
{
    let ghost views = attributes.deep_view();
    let mut done: Vec<Attribute> = Vec::new();
    let mut i: usize = 0;
    assert(done.deep_view() == Seq::<AttributeView>::empty());
    while i < attributes.len()
        invariant
            i <= attributes.len(),
            views == attributes.deep_view(),
            rewritten_attributes(views.take(i as int)) == Ok::<Seq<AttributeView>, ParseErrorView>(
                done.deep_view(),
            ),
        decreases attributes.len() - i,
    {
        let ghost before = done.deep_view();
        proof {
            assert(views.take(i + 1).drop_last() == views.take(i as int));
            assert(views.take(i + 1).last() == attributes[i as int]@);
        }
        let rewrite = match attributes[i].rewrite() {
            Ok(rewrite) => rewrite,
            Err(error) => {
                proof {
                    lemma_attributes_error_stays(views, i + 1);
                }
                return Err(error);
            },
        };
        if let Some(attribute) = attributes[i].apply(&rewrite) {
            done.push(attribute);
            assert(done.deep_view() == before.push(attribute@));
        }
        i = i + 1;
    }
    assert(views.take(i as int) == views);
    Ok(done)
}

/// An error among the first attributes is the error of the whole list.
pub proof fn lemma_attributes_error_stays(attributes: Seq<AttributeView>, k: int)
    requires
        0 <= k <= attributes.len(),
        rewritten_attributes(attributes.take(k)) is Err,
    ensures
        rewritten_attributes(attributes) == rewritten_attributes(attributes.take(k)),
    decreases attributes.len(),
{
    if k == attributes.len() {
        assert(attributes.take(k) == attributes);
    } else {
        assert(attributes.drop_last().take(k) == attributes.take(k));
        lemma_attributes_error_stays(attributes.drop_last(), k);
    }
}

/// What is carried out on an attribute leaves no annotation in its place.
pub proof fn lemma_applied_is_no_annotation(attribute: AttributeView)
    ensures
        rewrite_of(attribute) matches Ok(rewrite) ==> (applied(attribute, rewrite) matches Some(
            left,
        ) ==> !is_annotation(left)),
{
    reveal_strlit("cfg");
    reveal_strlit("available");
    assert("cfg"@.len() != "available"@.len());
}

/// The attributes that rewriting hands out hold no annotation.
pub proof fn lemma_rewritten_attributes_hold_no_annotation(attributes: Seq<AttributeView>)
    ensures
        rewritten_attributes(attributes) matches Ok(done) ==> forall|i: int|
            0 <= i < done.len() ==> !is_annotation(#[trigger] done[i]),
    decreases attributes.len(),
{
    if attributes.len() > 0 {
        lemma_rewritten_attributes_hold_no_annotation(attributes.drop_last());
        lemma_applied_is_no_annotation(attributes.last());
        if let Ok(done) = rewritten_attributes(attributes) {
            let before = rewritten_attributes(attributes.drop_last())->Ok_0;
            assert forall|i: int| 0 <= i < done.len() implies !is_annotation(
                #[trigger] done[i],
            ) by {
                if i < before.len() {
                    assert(done[i] == before[i]);
                }
            }
        }
    }
}

/// Attributes without an annotation among them are handed out as they are.
pub proof fn lemma_attributes_without_annotation_stay(attributes: Seq<AttributeView>)
    requires
        forall|i: int| 0 <= i < attributes.len() ==> !is_annotation(#[trigger] attributes[i]),
    ensures
        rewritten_attributes(attributes) == Ok::<Seq<AttributeView>, ParseErrorView>(attributes),
    decreases attributes.len(),
{
    if attributes.len() > 0 {
        let before = attributes.drop_last();
        assert forall|i: int| 0 <= i < before.len() implies !is_annotation(
            #[trigger] before[i],
        ) by {
            assert(before[i] == attributes[i]);
        }
        lemma_attributes_without_annotation_stay(before);
        assert(!is_annotation(attributes[attributes.len() - 1]));
        assert(before.push(attributes.last()) == attributes);
    } else {
        assert(attributes == Seq::<AttributeView>::empty());
    }
}

} // verus!
