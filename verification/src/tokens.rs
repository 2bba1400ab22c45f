//! The tokens of an annotation's argument list.

use proc_macro2::{Spacing, TokenStream, TokenTree};
use std::str::FromStr;
use vstd::prelude::*;

verus! {

/// One token of an argument list.
#[derive(Debug, PartialEq, Eq)]
pub enum ArgToken {
    /// An identifier or a keyword, as written.
    Ident(String),
    /// A punctuation character, and whether the next token follows it without
    /// a gap, so that the two may form one operator.
    Punct(char, bool),
    /// An integer literal, by the decimal digits of its value.
    Int(String),
    /// Any other literal.
    Literal,
    /// A group of tokens between delimiters.
    Group,
}

/// What an [`ArgToken`] holds, as a mathematical value.
pub enum ArgTokenView {
    Ident(Seq<char>),
    Punct(char, bool),
    Int(Seq<char>),
    Literal,
    Group,
}

impl View for ArgToken {
    type V = ArgTokenView;

    open spec fn view(&self) -> ArgTokenView {
        match self {
            ArgToken::Ident(name) => ArgTokenView::Ident(name@),
            ArgToken::Punct(c, joint) => ArgTokenView::Punct(*c, *joint),
            ArgToken::Int(digits) => ArgTokenView::Int(digits@),
            ArgToken::Literal => ArgTokenView::Literal,
            ArgToken::Group => ArgTokenView::Group,
        }
    }
}

impl DeepView for ArgToken {
    type V = ArgTokenView;

    open spec fn deep_view(&self) -> ArgTokenView {
        self@
    }
}

/// The tokens that `text` reads as, or `None` where it is not a sequence of
/// Rust tokens. Only the tokens of the top level are told: what stands inside
/// a group is not.
pub uninterp spec fn lexed(text: Seq<char>) -> Option<Seq<ArgTokenView>>;

/// Reads `text` as Rust tokens with `proc_macro2::TokenStream::from_str`, and
/// hands each token of the top level out as an [`ArgToken`]: an identifier by
/// `Ident::to_string`, a punctuation mark by `Punct::as_char` and
/// `Punct::spacing`; a literal is an integer literal where `syn::Lit::new`
/// finds it one, and is then held by `syn::LitInt::base10_digits`.
///
/// This crate takes `proc-macro2` without its `proc-macro` feature, so the
/// text is read by that crate's own lexer in every process, and what comes
/// back depends on the text alone. The contract gives the outcome its name,
/// [`lexed`], and claims nothing of what the tokens are: that is not proved
/// here.
#[verifier::external_body]
pub(crate) fn lex(text: &str) -> (tokens: Option<Vec<ArgToken>>)
    ensures
        tokens.deep_view() == lexed(text@),
{
    let stream = TokenStream::from_str(text).ok()?;
    let mut tokens = Vec::new();
    for tree in stream {
        tokens.push(match tree {
            TokenTree::Ident(ident) => ArgToken::Ident(ident.to_string()),
            TokenTree::Punct(punct) => ArgToken::Punct(punct.as_char(), punct.spacing() == Spacing::Joint),
            TokenTree::Literal(literal) => match syn::Lit::new(literal) {
                syn::Lit::Int(number) => ArgToken::Int(number.base10_digits().to_owned()),
                _ => ArgToken::Literal,
            },
            TokenTree::Group(_) => ArgToken::Group,
        });
    }
    Some(tokens)
}

} // verus!
