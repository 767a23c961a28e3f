//! Looking for a text in a text.

use vstd::prelude::*;

verus! {

/// `pat` stands in `text` at position `at`.
pub open spec fn stands_at(text: Seq<char>, pat: Seq<char>, at: int) -> bool {
    0 <= at && at + pat.len() <= text.len() && text.subrange(at, at + pat.len()) == pat
}

/// The first position from `from` on where `pat` stands in `text`.
pub open spec fn find_from(text: Seq<char>, pat: Seq<char>, from: int) -> Option<int>
    decreases text.len() - from,
{
    if from + pat.len() > text.len() {
        None
    } else if stands_at(text, pat, from) {
        Some(from)
    } else if from < text.len() {
        find_from(text, pat, from + 1)
    } else {
        None
    }
}

/// `pat` stands somewhere in `text`.
pub open spec fn holds(text: Seq<char>, pat: Seq<char>) -> bool {
    exists|at: int| #[trigger] stands_at(text, pat, at)
}

/// A match lies between `from` and the end of the text, and nothing matches
/// before it.
pub proof fn lemma_find_from(text: Seq<char>, pat: Seq<char>, from: int)
    requires
        0 <= from <= text.len(),
    ensures
        find_from(text, pat, from) matches Some(at) ==> from <= at && stands_at(text, pat, at),
        forall|p: int|
            from <= p && #[trigger] stands_at(text, pat, p) ==> find_from(text, pat, from) is Some
                && find_from(text, pat, from)->0 <= p,
    decreases text.len() - from,
{
    if from + pat.len() > text.len() {
    } else if stands_at(text, pat, from) {
    } else if from < text.len() {
        lemma_find_from(text, pat, from + 1);
    }
}

/// Whether `pat` stands in `text` at `at`.
fn is_at(text: &Vec<char>, pat: &Vec<char>, at: usize) -> (r: bool)
    requires
        at + pat@.len() <= text@.len(),
    ensures
        r == stands_at(text@, pat@, at as int),
{
    let total: usize = text.len();
    let mut k: usize = 0;
    while k < pat.len()
        invariant
            total == text@.len(),
            k <= pat@.len(),
            at + pat@.len() <= text@.len(),
            forall|m: int| 0 <= m < k ==> text@[at + m] == #[trigger] pat@[m],
        decreases pat@.len() - k,
    {
        if text[at + k] != pat[k] {
            assert(text@.subrange(at as int, at + pat@.len())[k as int] != pat@[k as int]);
            return false;
        }
        k = k + 1;
    }
    assert(text@.subrange(at as int, at + pat@.len()) =~= pat@);
    true
}

/// The first position from `from` on where `pat` stands in `text`.
pub fn find(text: &Vec<char>, pat: &Vec<char>, from: usize) -> (r: Option<usize>)
    requires
        from <= text@.len(),
    ensures
        match r {
            Some(at) => find_from(text@, pat@, from as int) == Some(at as int),
            None => find_from(text@, pat@, from as int) is None,
        },
{
    let total: usize = text.len();
    let mut at: usize = from;
    while pat.len() <= total - at
        invariant
            total == text@.len(),
            from <= at <= total,
            find_from(text@, pat@, from as int) == find_from(text@, pat@, at as int),
        decreases total - at,
    {
        if is_at(text, pat, at) {
            return Some(at);
        }
        if at == total {
            return None;
        }
        at = at + 1;
    }
    None
}

/// To stand in a text is to be there character for character.
pub proof fn law_standing_is_character_by_character(text: Seq<char>, pat: Seq<char>, at: int)
    ensures
        stands_at(text, pat, at) <==> 0 <= at && at + pat.len() <= text.len() && forall|m: int|
            0 <= m < pat.len() ==> #[trigger] pat[m] == text[at + m],
{
    if 0 <= at && at + pat.len() <= text.len() {
        let part = text.subrange(at, at + pat.len());
        if forall|m: int| 0 <= m < pat.len() ==> #[trigger] pat[m] == text[at + m] {
            assert forall|m: int| 0 <= m < pat.len() implies part[m] == pat[m] by {
                assert(pat[m] == text[at + m]);
            }
            assert(part =~= pat);
        } else {
            let m = choose|m: int| 0 <= m < pat.len() && #[trigger] pat[m] != text[at + m];
            assert(part[m] == text[at + m]);
        }
    }
}

/// A search finds the first match there is from its start on: it lies there
/// character for character, none lies before it, and where nothing is found, none
/// lies anywhere.
pub proof fn law_the_first_match_is_found(text: Seq<char>, pat: Seq<char>, from: int, at: int)
    requires
        0 <= from <= text.len(),
        from <= at,
        at + pat.len() <= text.len(),
    ensures
        (forall|m: int| 0 <= m < pat.len() ==> #[trigger] pat[m] == text[at + m]) ==> find_from(
            text,
            pat,
            from,
        ) is Some && find_from(text, pat, from)->0 <= at,
        find_from(text, pat, from) matches Some(p) ==> from <= p && p + pat.len() <= text.len()
            && forall|m: int| 0 <= m < pat.len() ==> #[trigger] pat[m] == text[p + m],
        (forall|m: int| 0 <= m < pat.len() ==> #[trigger] pat[m] == text[at + m]) ==> holds(
            text,
            pat,
        ),
        holds(text, pat) <==> find_from(text, pat, 0) is Some,
{
    lemma_find_from(text, pat, from);
    lemma_find_from(text, pat, 0);
    law_standing_is_character_by_character(text, pat, at);
    if let Some(p) = find_from(text, pat, from) {
        law_standing_is_character_by_character(text, pat, p);
    }
}

/// Whether `pat` stands somewhere in `text`.
pub fn contains(text: &Vec<char>, pat: &Vec<char>) -> (r: bool)
    ensures
        r == holds(text@, pat@),
{
    proof {
        lemma_find_from(text@, pat@, 0);
    }
    find(text, pat, 0).is_some()
}

} // verus!
