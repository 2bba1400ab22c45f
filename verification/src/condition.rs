//! The build condition that an availability range stands for: one flag for
//! each covered level, joined by a logical OR.

use crate::levels::{level_name, registry};
use crate::range::{
    lemma_supported_names_distinct, lemma_supported_names_iff_covered,
    lemma_uncovered_supports_none, Availability,
};
use vstd::prelude::*;
use vstd::string::*;

verus! {

/// A logical OR of flags, in the order in which they are written. With no
/// flag at all the condition never holds.
#[derive(Debug, PartialEq, Eq)]
pub struct Condition {
    pub flags: Vec<String>,
}

impl View for Condition {
    type V = Seq<Seq<char>>;

    open spec fn view(&self) -> Seq<Seq<char>> {
        self.flags.deep_view()
    }
}

impl DeepView for Condition {
    type V = Seq<Seq<char>>;

    open spec fn deep_view(&self) -> Seq<Seq<char>> {
        self@
    }
}

/// The name of the flag that is set when building for the level that is
/// written `name`.
pub open spec fn flag_name(name: Seq<char>) -> Seq<char> {
    "fuchsia_api_level_"@ + name
}

/// The name of the flag that is set when building for `level`.
pub open spec fn level_flag(level: u32) -> Seq<char> {
    flag_name(level_name(level))
}

/// The parts, with `separator` between each two of them.
pub open spec fn joined(parts: Seq<Seq<char>>, separator: Seq<char>) -> Seq<char>
    decreases parts.len(),
{
    if parts.len() == 0 {
        Seq::empty()
    } else if parts.len() == 1 {
        parts[0]
    } else {
        joined(parts.drop_last(), separator) + separator + parts.last()
    }
}

/// The condition as it is written in a `cfg` attribute: `any(a, b, c)`.
pub open spec fn any_text(flags: Seq<Seq<char>>) -> Seq<char> {
    "any("@ + joined(flags, ", "@) + ")"@
}

/// Whether the OR of `flags` holds in a build in which exactly the flags of
/// `enabled` are set.
pub open spec fn holds(flags: Seq<Seq<char>>, enabled: Set<Seq<char>>) -> bool {
    exists|i: int| 0 <= i < flags.len() && enabled.contains(#[trigger] flags[i])
}

impl Availability {
    /// The flags of the levels that the range covers, in registry order.
    pub open spec fn flags(self) -> Seq<Seq<char>> {
        self.supported_names().map_values(|name: Seq<char>| flag_name(name))
    }

    /// The condition under which a declaration with this range is compiled.
    pub fn cfg_args(&self) -> (condition: Condition)
        ensures
            condition@ == self.flags(),
    {
        let names = self.supported_levels();
        let mut flags: Vec<String> = Vec::new();
        let mut i: usize = 0;
        while i < names.len()
            invariant
                i <= names.len(),
                names.deep_view() == self.supported_names(),
                flags.deep_view() == names.deep_view().take(i as int).map_values(
                    |name: Seq<char>| flag_name(name),
                ),
            decreases names.len() - i,
        {
            let ghost before = flags.deep_view();
            let mut flag = String::from_str("fuchsia_api_level_");
            flag.append(names[i].as_str());
            assert(flag@ == flag_name(names.deep_view()[i as int]));
            flags.push(flag);
            assert(flags.deep_view() == before.push(flag_name(names.deep_view()[i as int])));
            assert(names.deep_view().take(i + 1) == names.deep_view().take(i as int).push(
                names.deep_view()[i as int],
            ));
            i = i + 1;
        }
        assert(names.deep_view().take(i as int) == names.deep_view());
        Condition { flags }
    }
}

impl Condition {
    /// Whether the condition has no flag, and so never holds.
    pub fn is_never(&self) -> (never: bool)
        ensures
            never == (self@.len() == 0),
    {
        self.flags.len() == 0
    }

    /// Writes the condition as the argument of a `cfg` attribute.
    pub fn text(&self) -> (text: String)
        ensures
            text@ == any_text(self@),
    {
        let mut text = String::from_str("any(");
        let mut i: usize = 0;
        while i < self.flags.len()
            invariant
                i <= self.flags.len(),
                text@ == "any("@ + joined(self@.take(i as int), ", "@),
            decreases self.flags.len() - i,
        {
            let ghost before = self@.take(i as int);
            let ghost after = self@.take(i + 1);
            assert(after.drop_last() == before);
            assert(after.last() == self.flags[i as int]@);
            if i > 0 {
                text.append(", ");
            }
            text.append(self.flags[i].as_str());
            assert(text@ == "any("@ + joined(after, ", "@));
            i = i + 1;
        }
        assert(self@.take(i as int) == self@);
        text.append(")");
        text
    }
}

/// Different level names give different flags.
pub proof fn lemma_flag_name_injective(a: Seq<char>, b: Seq<char>)
    requires
        flag_name(a) == flag_name(b),
    ensures
        a == b,
{
    let prefix = "fuchsia_api_level_"@;
    assert(flag_name(a).subrange(prefix.len() as int, flag_name(a).len() as int) =~= a);
    assert(flag_name(b).subrange(prefix.len() as int, flag_name(b).len() as int) =~= b);
}

/// No flag occurs twice in the condition of a range.
pub proof fn lemma_flags_distinct(range: Availability)
    ensures
        range.flags().no_duplicates(),
{
    let flags = range.flags();
    let names = range.supported_names();
    lemma_supported_names_distinct(range);
    assert forall|i: int, j: int| 0 <= i < flags.len() && 0 <= j < flags.len() && i != j implies flags[i]
        != flags[j] by {
        if flags[i] == flags[j] {
            lemma_flag_name_injective(names[i], names[j]);
        }
    }
}

/// In a build for one registry level, where the flag of that level and no
/// other is set, the condition of a range holds if and only if the range
/// covers the level.
pub proof fn lemma_holds_iff_covered(range: Availability, level: u32)
    requires
        registry().contains(level),
    ensures
        holds(range.flags(), set![level_flag(level)]) <==> range.covers(level),
{
    let flags = range.flags();
    let names = range.supported_names();
    let enabled = set![level_flag(level)];
    lemma_supported_names_iff_covered(range, level);
    if holds(flags, enabled) {
        let i = choose|i: int| 0 <= i < flags.len() && enabled.contains(#[trigger] flags[i]);
        lemma_flag_name_injective(names[i], level_name(level));
    }
    if range.covers(level) {
        let i = choose|i: int| 0 <= i < names.len() && names[i] == level_name(level);
        assert(enabled.contains(flags[i]));
    }
}

/// The condition of a range that covers no registry level has no flag, and
/// holds in no build, whatever flags are set.
pub proof fn lemma_uncovered_never_holds(range: Availability, enabled: Set<Seq<char>>)
    requires
        forall|i: int| 0 <= i < registry().len() ==> !range.covers(#[trigger] registry()[i]),
    ensures
        range.flags() == Seq::<Seq<char>>::empty(),
        !holds(range.flags(), enabled),
{
    lemma_uncovered_supports_none(range);
    assert(range.flags() =~= Seq::<Seq<char>>::empty());
}

} // verus!
