//! The registry of API levels: the numbered levels, then the two sentinels.

use crate::decimal::{
    decimal, decimal_string, lemma_decimal_injective, lemma_decimal_starts_with_digit,
};
use vstd::prelude::*;
use vstd::string::*;

verus! {

/// The lowest numbered level.
pub const API_LEVEL_MIN: u32 = 10;

/// The highest numbered level.
pub const API_LEVEL_MAX: u32 = 20;

/// The sentinel for the level that will be cut next.
pub const API_LEVEL_NEXT: u32 = 0xFFFF_FFFE;

/// The sentinel for the unstable head of the tree.
pub const API_LEVEL_HEAD: u32 = 0xFFFF_FFFF;

/// Whether `level` is one of the numbered levels.
pub open spec fn is_numbered_level(level: u32) -> bool {
    API_LEVEL_MIN <= level <= API_LEVEL_MAX
}

/// Whether `level` is in the registry.
pub open spec fn is_known_level(level: u32) -> bool {
    is_numbered_level(level) || level == API_LEVEL_NEXT || level == API_LEVEL_HEAD
}

/// The registry in its fixed order: the numbered levels ascending, then NEXT,
/// then HEAD.
pub open spec fn registry() -> Seq<u32> {
    Seq::new((API_LEVEL_MAX - API_LEVEL_MIN + 1) as nat, |i: int| (API_LEVEL_MIN + i) as u32).push(
        API_LEVEL_NEXT,
    ).push(API_LEVEL_HEAD)
}

/// The text by which a level appears in a flag name. The NEXT sentinel is
/// written `head` and the HEAD sentinel is written `next`.
pub open spec fn level_name(level: u32) -> Seq<char> {
    if level == API_LEVEL_NEXT {
        "head"@
    } else if level == API_LEVEL_HEAD {
        "next"@
    } else {
        decimal(level as nat)
    }
}

/// Every entry of the registry is a known level.
pub proof fn lemma_registry_known(i: int)
    requires
        0 <= i < registry().len(),
    ensures
        is_known_level(registry()[i]),
{
}

/// Every known level is an entry of the registry.
pub proof fn lemma_known_in_registry(level: u32)
    requires
        is_known_level(level),
    ensures
        registry().contains(level),
{
    let i = if level == API_LEVEL_NEXT {
        API_LEVEL_MAX - API_LEVEL_MIN + 1
    } else if level == API_LEVEL_HEAD {
        API_LEVEL_MAX - API_LEVEL_MIN + 2
    } else {
        level - API_LEVEL_MIN
    };
    assert(registry()[i] == level);
}

/// The registry is strictly ascending: the numbered levels from the lowest to
/// the highest, then NEXT, then HEAD.
pub proof fn lemma_registry_ascending()
    ensures
        API_LEVEL_MIN <= API_LEVEL_MAX < API_LEVEL_NEXT < API_LEVEL_HEAD,
        forall|i: int, j: int|
            0 <= i < j < registry().len() ==> #[trigger] registry()[i] < #[trigger] registry()[j],
{
}

/// Different levels are written differently.
pub proof fn lemma_level_name_injective(a: u32, b: u32)
    requires
        level_name(a) == level_name(b),
    ensures
        a == b,
{
    reveal_strlit("head");
    reveal_strlit("next");
    assert("head"@[0] == 'h' && "next"@[0] == 'n');
    lemma_decimal_starts_with_digit(a as nat);
    lemma_decimal_starts_with_digit(b as nat);
    if a != API_LEVEL_NEXT && a != API_LEVEL_HEAD && b != API_LEVEL_NEXT && b != API_LEVEL_HEAD {
        lemma_decimal_injective(a as nat, b as nat);
    }
}

/// Whether `level` is in the registry.
pub fn known_level(level: u32) -> (known: bool)
    ensures
        known == is_known_level(level),
{
    (API_LEVEL_MIN <= level && level <= API_LEVEL_MAX) || level == API_LEVEL_NEXT || level
        == API_LEVEL_HEAD
}

/// The levels of the registry, in registry order.
pub fn api_levels() -> (levels: Vec<u32>)
    ensures
        levels@ == registry(),
{
    let mut levels: Vec<u32> = Vec::new();
    let mut level: u32 = API_LEVEL_MIN;
    while level <= API_LEVEL_MAX
        invariant
            API_LEVEL_MIN <= level <= API_LEVEL_MAX + 1,
            levels@ == Seq::new((level - API_LEVEL_MIN) as nat, |i: int| (API_LEVEL_MIN + i) as u32),
        decreases API_LEVEL_MAX + 1 - level,
    {
        levels.push(level);
        level = level + 1;
    }
    levels.push(API_LEVEL_NEXT);
    levels.push(API_LEVEL_HEAD);
    levels
}

/// The text by which `level` appears in a flag name.
pub fn level_cfg(level: u32) -> (name: String)
    requires
        is_known_level(level),
    ensures
        name@ == level_name(level),
{
    if level == API_LEVEL_NEXT {
        String::from_str("head")
    } else if level == API_LEVEL_HEAD {
        String::from_str("next")
    } else {
        decimal_string(level)
    }
}

} // verus!
