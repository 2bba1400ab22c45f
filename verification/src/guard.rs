//! The guard that an annotation asks for.
//!
//! An annotation without a bound is a mere marker and asks for no guard. One
//! with a bound asks for the condition of its range, also where that condition
//! never holds.

use crate::args::{
    lemma_no_bound_only_from_empty_list, parse_args, parse_list, parse_text, ParseError,
    ParseErrorView,
};
use crate::condition::Condition;
use crate::range::Availability;
use crate::tokens::{lexed, ArgTokenView};
use vstd::prelude::*;

verus! {

impl Availability {
    /// The guard that the range asks for: none where it has no bound, the
    /// flags of its condition otherwise.
    pub open spec fn guard_flags(self) -> Option<Seq<Seq<char>>> {
        if self.unspecified() {
            None
        } else {
            Some(self.flags())
        }
    }

    /// The guard that the range asks for: none where it has no bound, its
    /// condition otherwise. A range with a bound that covers no level asks for
    /// a guard that never holds.
    pub fn guard(&self) -> (guard: Option<Condition>)
        ensures
            guard.deep_view() == self.guard_flags(),
    {
        if self.is_empty() {
            None
        } else {
            Some(self.cfg_args())
        }
    }
}

/// The guard that the range of the argument list `args` asks for.
pub open spec fn guard_of(args: Seq<char>) -> Result<Option<Seq<Seq<char>>>, ParseErrorView> {
    match parse_text(args) {
        Err(error) => Err(error),
        Ok(range) => Ok(range.guard_flags()),
    }
}

/// Reads the argument list `args`, and gives the guard that its range asks
/// for.
pub fn guard_for(args: &str) -> (out: Result<Option<Condition>, ParseError>)
    ensures
        match out {
            Ok(guard) => guard_of(args@) == Ok::<Option<Seq<Seq<char>>>, ParseErrorView>(
                guard.deep_view(),
            ),
            Err(error) => guard_of(args@) == Err::<Option<Seq<Seq<char>>>, ParseErrorView>(error@),
        },
{
    match parse_args(args) {
        Err(error) => Err(error),
        Ok(range) => Ok(range.guard()),
    }
}

/// An accepted argument list asks for no guard if and only if it has no
/// token.
pub proof fn lemma_no_guard_iff_no_arguments(args: Seq<char>)
    ensures
        guard_of(args) matches Ok(guard) ==> (guard is None <==> lexed(args) == Some(
            Seq::<ArgTokenView>::empty(),
        )),
{
    if let Some(tokens) = lexed(args) {
        lemma_no_bound_only_from_empty_list(tokens);
        if parse_list(tokens) is Ok {
            if tokens.len() == 0 {
                assert(tokens =~= Seq::empty());
            }
        }
    }
}

} // verus!
