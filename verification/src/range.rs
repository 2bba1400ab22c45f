//! Availability ranges, and the registry levels that a range covers.

use crate::levels::{
    api_levels, lemma_level_name_injective, lemma_registry_ascending, lemma_registry_known,
    level_cfg, level_name, registry,
};
use vstd::prelude::*;

verus! {

/// The range of API levels in which a declaration exists: from `added`
/// (inclusive) up to `removed` (exclusive). An absent bound does not constrain.
#[derive(Clone, Copy, Debug, PartialEq, Eq, Structural)]
pub struct Availability {
    pub added: Option<u32>,
    pub removed: Option<u32>,
}

impl Default for Availability {
    fn default() -> (range: Availability)
        ensures
            range == (Availability { added: None, removed: None }),
    {
        Availability { added: None, removed: None }
    }
}

impl Availability {
    /// Whether the range carries no bound at all. This is not the same as
    /// covering every level: it says that nothing was specified.
    pub open spec fn unspecified(self) -> bool {
        self.added is None && self.removed is None
    }

    /// Whether `level` lies in the range.
    pub open spec fn covers(self, level: u32) -> bool {
        &&& self.added matches Some(added) ==> level >= added
        &&& self.removed matches Some(removed) ==> level < removed
    }

    /// The registry levels that the range covers, in registry order.
    pub open spec fn supported(self) -> Seq<u32> {
        registry().filter(|level: u32| self.covers(level))
    }

    /// The names of the covered registry levels, in registry order.
    pub open spec fn supported_names(self) -> Seq<Seq<char>> {
        self.supported().map_values(|level: u32| level_name(level))
    }

    /// Whether the range specifies nothing: neither bound is present.
    pub fn is_empty(&self) -> (empty: bool)
        ensures
            empty == self.unspecified(),
    {
        self.added.is_none() && self.removed.is_none()
    }

    /// Whether `level` lies in the range.
    pub fn contains(&self, level: u32) -> (inside: bool)
        ensures
            inside == self.covers(level),
    {
        let after_added = match self.added {
            Some(added) => level >= added,
            None => true,
        };
        let before_removed = match self.removed {
            Some(removed) => level < removed,
            None => true,
        };
        after_added && before_removed
    }

    /// The names of the registry levels that the range covers, in registry
    /// order.
    pub fn supported_levels(&self) -> (names: Vec<String>)
        ensures
            names.deep_view() == self.supported_names(),
    {
        let levels = api_levels();
        let ghost covered = |level: u32| self.covers(level);
        let mut names: Vec<String> = Vec::new();
        let mut i: usize = 0;
        while i < levels.len()
            invariant
                i <= levels.len(),
                levels@ == registry(),
                covered == |level: u32| self.covers(level),
                names.deep_view() == levels@.take(i as int).filter(covered).map_values(
                    |level: u32| level_name(level),
                ),
            decreases levels.len() - i,
        {
            let level = levels[i];
            proof {
                let before = levels@.take(i as int);
                assert(levels@.take(i + 1) == before.push(level));
                before.lemma_filter_push(level, covered);
                lemma_registry_known(i as int);
            }
            if self.contains(level) {
                let ghost old_names = names.deep_view();
                let name = level_cfg(level);
                names.push(name);
                assert(names.deep_view() == old_names.push(level_name(level)));
            }
            i = i + 1;
        }
        assert(levels@.take(i as int) == levels@);
        names
    }
}

/// A registry level is among the supported levels of a range if and only if
/// the range covers it.
pub proof fn lemma_supported_iff_covered(range: Availability, level: u32)
    ensures
        range.supported().contains(level) <==> registry().contains(level) && range.covers(level),
{
    let covered = |level: u32| range.covers(level);
    if range.supported().contains(level) {
        registry().lemma_filter_contains_rev(covered, level);
        let i = choose|i: int|
            0 <= i < range.supported().len() && range.supported()[i] == level;
        registry().lemma_filter_pred(covered, i);
    }
    if registry().contains(level) && range.covers(level) {
        let i = choose|i: int| 0 <= i < registry().len() && registry()[i] == level;
        registry().lemma_filter_contains(covered, i);
    }
}

/// The name of a registry level is among the supported names of a range if
/// and only if the range covers the level.
pub proof fn lemma_supported_names_iff_covered(range: Availability, level: u32)
    requires
        registry().contains(level),
    ensures
        range.supported_names().contains(level_name(level)) <==> range.covers(level),
{
    let names = range.supported_names();
    lemma_supported_iff_covered(range, level);
    if names.contains(level_name(level)) {
        let i = choose|i: int| 0 <= i < names.len() && names[i] == level_name(level);
        let found = range.supported()[i];
        lemma_level_name_injective(found, level);
    }
    if range.covers(level) {
        let i = choose|i: int|
            0 <= i < range.supported().len() && range.supported()[i] == level;
        assert(names[i] == level_name(level));
    }
}

/// A range from `added` up to `removed`, with `added` below `removed`,
/// supports a registry level if and only if the level is `added` or above and
/// below `removed`. So `added` itself is supported where the registry has it,
/// and `removed` never is.
pub proof fn lemma_bounded_range(added: u32, removed: u32, level: u32)
    requires
        added < removed,
        registry().contains(level),
    ensures
        (Availability { added: Some(added), removed: Some(removed) }).supported_names().contains(
            level_name(level),
        ) <==> added <= level < removed,
{
    lemma_supported_names_iff_covered(
        Availability { added: Some(added), removed: Some(removed) },
        level,
    );
}

/// A range without bounds supports every registry level, in registry order.
pub proof fn lemma_unspecified_supports_all(range: Availability)
    requires
        range.unspecified(),
    ensures
        range.supported() == registry(),
        range.supported_names() == registry().map_values(|level: u32| level_name(level)),
{
    lemma_filter_keeps_all(registry(), |level: u32| range.covers(level));
}

/// A range that covers no registry level supports none.
pub proof fn lemma_uncovered_supports_none(range: Availability)
    requires
        forall|i: int| 0 <= i < registry().len() ==> !range.covers(#[trigger] registry()[i]),
    ensures
        range.supported() == Seq::<u32>::empty(),
        range.supported_names() == Seq::<Seq<char>>::empty(),
{
    let covered = |level: u32| range.covers(level);
    assert(registry().all(|level: u32| !covered(level)));
    registry().lemma_all_neg_filter_empty(covered);
    assert(range.supported() =~= Seq::<u32>::empty());
    assert(range.supported_names() =~= Seq::<Seq<char>>::empty());
}

/// The supported levels of a range are strictly ascending, and so are in
/// registry order without a level occurring twice.
pub proof fn lemma_supported_ascending(range: Availability)
    ensures
        forall|i: int, j: int|
            0 <= i < j < range.supported().len() ==> #[trigger] range.supported()[i]
                < #[trigger] range.supported()[j],
{
    lemma_registry_ascending();
    lemma_filter_ascending(registry(), |level: u32| range.covers(level));
}

/// No name occurs twice among the supported names of a range.
pub proof fn lemma_supported_names_distinct(range: Availability)
    ensures
        range.supported_names().no_duplicates(),
{
    let names = range.supported_names();
    lemma_supported_ascending(range);
    assert forall|i: int, j: int| 0 <= i < names.len() && 0 <= j < names.len() && i != j implies names[i]
        != names[j] by {
        if names[i] == names[j] {
            lemma_level_name_injective(range.supported()[i], range.supported()[j]);
        }
    }
}

proof fn lemma_filter_keeps_all(levels: Seq<u32>, keep: spec_fn(u32) -> bool)
    requires
        forall|i: int| 0 <= i < levels.len() ==> keep(#[trigger] levels[i]),
    ensures
        levels.filter(keep) == levels,
    decreases levels.len(),
{
    reveal(Seq::filter);
    if levels.len() > 0 {
        lemma_filter_keeps_all(levels.drop_last(), keep);
        assert(levels.drop_last().push(levels.last()) == levels);
    }
}

proof fn lemma_filter_ascending(levels: Seq<u32>, keep: spec_fn(u32) -> bool)
    requires
        forall|i: int, j: int|
            0 <= i < j < levels.len() ==> #[trigger] levels[i] < #[trigger] levels[j],
    ensures
        forall|i: int, j: int|
            0 <= i < j < levels.filter(keep).len() ==> #[trigger] levels.filter(keep)[i]
                < #[trigger] levels.filter(keep)[j],
    decreases levels.len(),
{
    reveal(Seq::filter);
    if levels.len() > 0 {
        let rest = levels.drop_last();
        let kept = rest.filter(keep);
        lemma_filter_ascending(rest, keep);
        assert forall|i: int| 0 <= i < kept.len() implies #[trigger] kept[i] < levels.last() by {
            assert(kept.contains(kept[i]));
            rest.lemma_filter_contains_rev(keep, kept[i]);
            let k = choose|k: int| 0 <= k < rest.len() && rest[k] == kept[i];
            assert(levels[k] < levels[levels.len() - 1]);
        }
    }
}

} // verus!
