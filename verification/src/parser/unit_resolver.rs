//! Finding the unit that a word names.

use vstd::prelude::*;

use crate::text::same_text;
use crate::unit::texts;
use crate::unit::Unit;

verus! {

/// The text that `str::to_lowercase` gives for a text.
pub uninterp spec fn lowercase_of(text: Seq<char>) -> Seq<char>;

/// Lowers the case of a text with `str::to_lowercase`, which follows the
/// Unicode rules for lower case and depends on the text alone.
#[verifier::external_body]
fn lowercase(text: &str) -> (r: String)
    ensures
        r@ == lowercase_of(text@),
{
    text.to_lowercase()
}

/// How a word stands to one alias of a unit.
#[derive(Clone, Copy, Debug, PartialEq, Eq, Structural)]
pub enum AliasMatch {
    /// The same text.
    Exact,
    /// The same text once both are in lower case.
    IgnoringCase,
    Different,
}

/// How a word stands to an alias, given both in lower case as well.
pub open spec fn alias_match(
    word: Seq<char>,
    alias: Seq<char>,
    word_lower: Seq<char>,
    alias_lower: Seq<char>,
) -> AliasMatch {
    if word == alias {
        AliasMatch::Exact
    } else if word_lower == alias_lower {
        AliasMatch::IgnoringCase
    } else {
        AliasMatch::Different
    }
}

/// How a word stands to an alias.
pub open spec fn word_match(word: Seq<char>, alias: Seq<char>) -> AliasMatch {
    alias_match(word, alias, lowercase_of(word), lowercase_of(alias))
}

/// One of the first `n` aliases stands to the word in the given way.
pub open spec fn alias_hit(word: Seq<char>, aliases: Seq<Seq<char>>, kind: AliasMatch, n: int) -> bool
    decreases n,
{
    n > 0 && (word_match(word, aliases[n - 1]) == kind || alias_hit(word, aliases, kind, n - 1))
}

/// One of the aliases of the unit stands to the word in the given way.
pub open spec fn unit_hit(word: Seq<char>, unit: Unit, kind: AliasMatch) -> bool {
    alias_hit(word, unit.aliases_spec(), kind, unit.aliases_spec().len() as int)
}

/// From `from` on, the first unit with an alias that is the word exactly.
pub open spec fn first_exact(word: Seq<char>, units: Seq<Unit>, from: int) -> Option<int>
    decreases units.len() - from,
{
    if from < 0 || from >= units.len() {
        None
    } else if unit_hit(word, units[from], AliasMatch::Exact) {
        Some(from)
    } else {
        first_exact(word, units, from + 1)
    }
}

/// Among the first `upto` units, the last with an alias that is the word
/// but for the case of its letters.
pub open spec fn last_ignoring_case(word: Seq<char>, units: Seq<Unit>, upto: int) -> Option<int>
    decreases upto,
{
    if upto <= 0 {
        None
    } else if unit_hit(word, units[upto - 1], AliasMatch::IgnoringCase) {
        Some(upto - 1)
    } else {
        last_ignoring_case(word, units, upto - 1)
    }
}

/// The unit is the one the word names: the first unit of the table with an
/// alias that is the word exactly; where there is none, the last unit with an
/// alias that is the word but for case; where there is none either, a
/// unitless unit named by the word.
pub open spec fn resolves_to(word: Seq<char>, unit: Unit) -> bool {
    let units = Unit::unitful_units_spec();
    match first_exact(word, units, 0) {
        Some(i) => unit == units[i],
        None => match last_ignoring_case(word, units, units.len() as int) {
            Some(i) => unit == units[i],
            None => unit matches Unit::Unitless(u) && u.name() == word,
        },
    }
}

/// How a word stands to an alias, from the two texts and their lower-case
/// forms.
pub fn match_alias(word: &str, alias: &str, word_lower: &str, alias_lower: &str) -> (m: AliasMatch)
    ensures
        m == alias_match(word@, alias@, word_lower@, alias_lower@),
{
    if same_text(word, alias) {
        AliasMatch::Exact
    } else if same_text(word_lower, alias_lower) {
        AliasMatch::IgnoringCase
    } else {
        AliasMatch::Different
    }
}

/// The unit that a word names. Every word names one: a word that no alias
/// matches names a unitless unit of its own.
pub fn resolve_unit(word: &str) -> (unit: Unit)
    ensures
        resolves_to(word@, unit),
{
    let units = Unit::unitful_units();
    let word_lower = lowercase(word);
    let mut secondary: Option<Unit> = None;
    let ghost mut secondary_at: Option<int> = None;
    let mut i: usize = 0;
    while i < units.len()
        invariant
            0 <= i <= units@.len(),
            units@ == Unit::unitful_units_spec(),
            word_lower@ == lowercase_of(word@),
            first_exact(word@, units@, 0) == first_exact(word@, units@, i as int),
            secondary_at == last_ignoring_case(word@, units@, i as int),
            match secondary_at {
                Some(k) => 0 <= k < i && secondary == Some(units@[k]),
                None => secondary is None,
            },
        decreases units@.len() - i,
    {
        let unit = &units[i];
        let aliases = unit.aliases();
        let ghost names = unit.aliases_spec();
        let mut seen = false;
        let mut a: usize = 0;
        assert(texts(aliases@).len() == aliases@.len());
        while a < aliases.len()
            invariant
                0 <= a <= aliases@.len(),
                0 <= i < units@.len(),
                units@ == Unit::unitful_units_spec(),
                *unit == units@[i as int],
                names == unit.aliases_spec(),
                first_exact(word@, units@, 0) == first_exact(word@, units@, i as int),
                texts(aliases@) == names,
                names.len() == aliases@.len(),
                word_lower@ == lowercase_of(word@),
                !alias_hit(word@, names, AliasMatch::Exact, a as int),
                seen == alias_hit(word@, names, AliasMatch::IgnoringCase, a as int),
            decreases aliases@.len() - a,
        {
            let alias = aliases[a];
            assert(texts(aliases@)[a as int] == alias@);
            let alias_lower = lowercase(alias);
            match match_alias(word, alias, word_lower.as_str(), alias_lower.as_str()) {
                AliasMatch::Exact => {
                    assert(alias_hit(word@, names, AliasMatch::Exact, a as int + 1));
                    proof {
                        lemma_hit_grows(word@, names, AliasMatch::Exact, a as int + 1);
                    }
                    return unit.clone();
                },
                AliasMatch::IgnoringCase => {
                    seen = true;
                },
                AliasMatch::Different => {},
            }
            a = a + 1;
        }
        if seen {
            secondary = Some(unit.clone());
            proof {
                secondary_at = Some(i as int);
            }
        }
        i = i + 1;
    }
    match secondary {
        Some(unit) => unit,
        None => Unit::unitless(word.to_owned()),
    }
}

/// A hit among the first `n` aliases is a hit among all of them.
proof fn lemma_hit_grows(word: Seq<char>, aliases: Seq<Seq<char>>, kind: AliasMatch, n: int)
    requires
        0 <= n <= aliases.len(),
        alias_hit(word, aliases, kind, n),
    ensures
        alias_hit(word, aliases, kind, aliases.len() as int),
    decreases aliases.len() - n,
{
    if n < aliases.len() {
        lemma_hit_grows(word, aliases, kind, n + 1);
    }
}

} // verus!
