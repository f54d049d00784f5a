//! CJK script detection and the choice of a romanized MusicBrainz alias.

use vstd::prelude::*;
use crate::mb::Alias;
use crate::text::{chars_of, seq_starts_with, starts_with_str, str_eq};

verus! {

/// Hiragana, Katakana, CJK ideographs (with extension A and compatibility
/// forms), CJK punctuation, half/full-width forms and Hangul.
pub open spec fn is_non_latin_char(c: char) -> bool {
    let cp = c as u32;
    (0x3040 <= cp <= 0x309F) || (0x30A0 <= cp <= 0x30FF) || (0x3400 <= cp <= 0x4DBF) || (0x4E00
        <= cp <= 0x9FFF) || (0xF900 <= cp <= 0xFAFF) || (0x3000 <= cp <= 0x303F) || (0xFF00 <= cp
        <= 0xFFEF) || (0xAC00 <= cp <= 0xD7A3) || (0x1100 <= cp <= 0x11FF) || (0x3130 <= cp
        <= 0x318F)
}

/// `s` has a CJK/Hangul character, i.e. it needs romanizing before it goes
/// into a file name or tag meant to stay Latin.
pub open spec fn is_non_latin_spec(s: Seq<char>) -> bool {
    exists|i: int| 0 <= i < s.len() && is_non_latin_char(#[trigger] s[i])
}

fn is_non_latin_char_exec(c: char) -> (r: bool)
    ensures
        r == is_non_latin_char(c),
{
    let cp = c as u32;
    (0x3040 <= cp && cp <= 0x309F) || (0x30A0 <= cp && cp <= 0x30FF) || (0x3400 <= cp && cp
        <= 0x4DBF) || (0x4E00 <= cp && cp <= 0x9FFF) || (0xF900 <= cp && cp <= 0xFAFF) || (0x3000
        <= cp && cp <= 0x303F) || (0xFF00 <= cp && cp <= 0xFFEF) || (0xAC00 <= cp && cp <= 0xD7A3)
        || (0x1100 <= cp && cp <= 0x11FF) || (0x3130 <= cp && cp <= 0x318F)
}

pub fn is_non_latin(s: &str) -> (r: bool)
    ensures
        r == is_non_latin_spec(s@),
{
    let cs = chars_of(s);
    let mut i: usize = 0;
    while i < cs.len()
        invariant
            cs@ == s@,
            i <= cs@.len(),
            forall|k: int| 0 <= k < i ==> !is_non_latin_char(#[trigger] s@[k]),
        decreases cs@.len() - i,
    {
        if is_non_latin_char_exec(cs[i]) {
            return true;
        }
        i = i + 1;
    }
    false
}

/// An alias that may be picked: Latin-script and not a search hint.
pub open spec fn is_candidate_alias(a: Alias) -> bool {
    &&& !is_non_latin_spec(a.name@)
    &&& match a.alias_type {
        Some(t) => t@ != "Search hint"@,
        None => true,
    }
}

/// Preference key, lower is better: primary aliases first, then `en*`
/// locales.
pub open spec fn alias_rank(a: Alias) -> int {
    (if a.primary == Some(true) { 0int } else { 2int }) + (match a.locale {
        Some(l) => if seq_starts_with(l@, "en"@) { 0int } else { 1int },
        None => 1int,
    })
}

/// `i` is the alias picked: the first candidate of the best rank.
pub open spec fn is_picked(aliases: Seq<Alias>, i: int) -> bool {
    &&& 0 <= i < aliases.len()
    &&& is_candidate_alias(aliases[i])
    &&& forall|k: int|
        0 <= k < aliases.len() && is_candidate_alias(#[trigger] aliases[k]) ==> alias_rank(aliases[i])
            <= alias_rank(aliases[k])
    &&& forall|k: int|
        0 <= k < i && is_candidate_alias(#[trigger] aliases[k]) ==> alias_rank(aliases[i]) < alias_rank(
            aliases[k],
        )
}

fn alias_rank_exec(a: &Alias) -> (r: u8)
    ensures
        r == alias_rank(*a),
{
    let p: u8 = if a.primary == Some(true) { 0 } else { 2 };
    let l: u8 = match &a.locale {
        Some(l) => if starts_with_str(l.as_str(), "en") { 0 } else { 1 },
        None => 1,
    };
    p + l
}

fn is_candidate_exec(a: &Alias) -> (r: bool)
    ensures
        r == is_candidate_alias(*a),
{
    if is_non_latin(a.name.as_str()) {
        return false;
    }
    match &a.alias_type {
        Some(t) => !str_eq(t.as_str(), "Search hint"),
        None => true,
    }
}

/// The name of the alias picked from `aliases`, if any qualifies.
pub open spec fn picked_name(aliases: Seq<Alias>) -> Option<Seq<char>> {
    if exists|i: int| is_picked(aliases, i) {
        Some(aliases[choose|i: int| is_picked(aliases, i)].name@)
    } else {
        None
    }
}

proof fn lemma_picked_unique(aliases: Seq<Alias>, i: int, j: int)
    requires
        is_picked(aliases, i),
        is_picked(aliases, j),
    ensures
        i == j,
{
    if i < j {
        assert(is_candidate_alias(aliases[i]));
    } else if j < i {
        assert(is_candidate_alias(aliases[j]));
    }
}

/// Picks the best Latin-script alias: search hints are never picked, primary
/// aliases win, then `en*`-locale ones, then the first remaining in MB's own
/// order; `None` when no alias qualifies.
pub fn pick_alias(aliases: &[Alias]) -> (r: Option<String>)
    ensures
        crate::text::opt_view(r) == picked_name(aliases@),
        r is None <==> forall|k: int|
            0 <= k < aliases@.len() ==> !is_candidate_alias(#[trigger] aliases@[k]),
{
    let mut best: Option<usize> = None;
    let mut best_rank: u8 = 4;
    let mut i: usize = 0;
    while i < aliases.len()
        invariant
            i <= aliases@.len(),
            match best {
                None => forall|k: int| 0 <= k < i ==> !is_candidate_alias(#[trigger] aliases@[k]),
                Some(b) => b < i && is_candidate_alias(aliases@[b as int]) && best_rank == alias_rank(
                    aliases@[b as int],
                ) && (forall|k: int|
                    0 <= k < i && is_candidate_alias(#[trigger] aliases@[k]) ==> best_rank
                        <= alias_rank(aliases@[k])) && (forall|k: int|
                    0 <= k < b && is_candidate_alias(#[trigger] aliases@[k]) ==> best_rank
                        < alias_rank(aliases@[k])),
            },
        decreases aliases@.len() - i,
    {
        let a = &aliases[i];
        if is_candidate_exec(a) {
            let rk = alias_rank_exec(a);
            match best {
                None => {
                    best = Some(i);
                    best_rank = rk;
                },
                Some(_) => {
                    if rk < best_rank {
                        best = Some(i);
                        best_rank = rk;
                    }
                },
            }
        }
        i = i + 1;
    }
    match best {
        None => {
            proof {
                if exists|i: int| is_picked(aliases@, i) {
                    let i = choose|i: int| is_picked(aliases@, i);
                    assert(is_candidate_alias(aliases@[i]));
                }
            }
            None
        },
        Some(b) => {
            proof {
                assert(is_picked(aliases@, b as int));
                let c = choose|i: int| is_picked(aliases@, i);
                lemma_picked_unique(aliases@, b as int, c);
            }
            Some(aliases[b].name.clone())
        },
    }
}

/// The picked alias is always a candidate: Latin-script and never a search
/// hint; and there is one exactly when some alias qualifies.
pub proof fn law_picked_alias_is_latin(aliases: Seq<Alias>, i: int)
    requires
        is_picked(aliases, i),
    ensures
        !is_non_latin_spec(aliases[i].name@),
        !(aliases[i].alias_type matches Some(t) && t@ == "Search hint"@),
{
}


/// A picked alias name is Latin-script.
pub proof fn law_picked_name_is_latin(aliases: Seq<Alias>)
    ensures
        picked_name(aliases) matches Some(n) ==> !is_non_latin_spec(n),
{
    if exists|i: int| is_picked(aliases, i) {
        let i = choose|i: int| is_picked(aliases, i);
        assert(is_candidate_alias(aliases[i]));
    }
}

} // verus!
