//! Texts in order.

use vstd::prelude::*;
use vstd::relations::{sorted_by, total_ordering};
use vstd::seq_lib::lemma_sorted_unique;

use crate::chars::{chars_of, texts_of};

verus! {

/// Dictionary order by code points: `a` comes before `b`, or is `b`.
pub open spec fn text_le(a: Seq<char>, b: Seq<char>) -> bool
    decreases a.len(),
{
    if a.len() == 0 {
        true
    } else if b.len() == 0 {
        false
    } else if a[0] != b[0] {
        a[0] < b[0]
    } else {
        text_le(a.skip(1), b.skip(1))
    }
}

/// Dictionary order as a relation.
pub open spec fn dictionary() -> spec_fn(Seq<char>, Seq<char>) -> bool {
    |a: Seq<char>, b: Seq<char>| text_le(a, b)
}

/// The texts in dictionary order.
pub open spec fn in_order(texts: Seq<Seq<char>>) -> Seq<Seq<char>> {
    texts.sort_by(dictionary())
}

proof fn lemma_le_reflexive(a: Seq<char>)
    ensures
        text_le(a, a),
    decreases a.len(),
{
    if a.len() > 0 {
        lemma_le_reflexive(a.skip(1));
    }
}

proof fn lemma_le_total(a: Seq<char>, b: Seq<char>)
    ensures
        text_le(a, b) || text_le(b, a),
    decreases a.len(),
{
    if a.len() > 0 && b.len() > 0 && a[0] == b[0] {
        lemma_le_total(a.skip(1), b.skip(1));
    }
}

proof fn lemma_le_antisymmetric(a: Seq<char>, b: Seq<char>)
    requires
        text_le(a, b),
        text_le(b, a),
    ensures
        a == b,
    decreases a.len(),
{
    if a.len() > 0 && b.len() > 0 {
        lemma_le_antisymmetric(a.skip(1), b.skip(1));
        assert(a =~= seq![a[0]] + a.skip(1));
        assert(b =~= seq![b[0]] + b.skip(1));
    } else {
        assert(a =~= b);
    }
}

proof fn lemma_le_transitive(a: Seq<char>, b: Seq<char>, c: Seq<char>)
    requires
        text_le(a, b),
        text_le(b, c),
    ensures
        text_le(a, c),
    decreases a.len(),
{
    if a.len() > 0 && a[0] == b[0] && b[0] == c[0] {
        lemma_le_transitive(a.skip(1), b.skip(1), c.skip(1));
    }
}

/// Dictionary order is a total order.
pub proof fn law_dictionary_is_total()
    ensures
        total_ordering(dictionary()),
{
    let le = dictionary();
    assert forall|a: Seq<char>| #[trigger] le(a, a) by {
        lemma_le_reflexive(a);
    }
    assert forall|a: Seq<char>, b: Seq<char>| #[trigger] le(a, b) && #[trigger] le(b, a) implies a
        == b by {
        lemma_le_antisymmetric(a, b);
    }
    assert forall|a: Seq<char>, b: Seq<char>, c: Seq<char>| #[trigger]
        le(a, b) && #[trigger] le(b, c) implies le(a, c) by {
        lemma_le_transitive(a, b, c);
    }
    assert forall|a: Seq<char>, b: Seq<char>| #[trigger] le(a, b) || #[trigger] le(b, a) by {
        lemma_le_total(a, b);
    }
}

/// The same texts in another order come out alike, and nothing is lost or added.
pub proof fn law_order_forgets_where_texts_stood(a: Seq<Seq<char>>, b: Seq<Seq<char>>)
    requires
        a.to_multiset() == b.to_multiset(),
    ensures
        in_order(a) == in_order(b),
        in_order(a).to_multiset() == a.to_multiset(),
        sorted_by(in_order(a), dictionary()),
{
    law_dictionary_is_total();
    a.lemma_sort_by_ensures(dictionary());
    b.lemma_sort_by_ensures(dictionary());
    lemma_sorted_unique(in_order(a), in_order(b), dictionary());
}

/// Different texts stay different in order: each comes strictly before the next.
pub proof fn law_order_is_strict(texts: Seq<Seq<char>>, i: int, j: int)
    requires
        texts.no_duplicates(),
        0 <= i < j < in_order(texts).len(),
    ensures
        text_le(in_order(texts)[i], in_order(texts)[j]),
        in_order(texts)[i] != in_order(texts)[j],
{
    law_order_forgets_where_texts_stood(texts, texts);
    texts.lemma_multiset_has_no_duplicates();
    in_order(texts).lemma_multiset_has_no_duplicates_conv();
    assert(dictionary()(in_order(texts)[i], in_order(texts)[j]));
}

/// Whether `a` comes before `b` in dictionary order, or is `b`.
pub fn is_le(a: &str, b: &str) -> (r: bool)
    ensures
        r == text_le(a@, b@),
{
    let x: Vec<char> = chars_of(a);
    let y: Vec<char> = chars_of(b);
    let mut k: usize = 0;
    assert(x@.skip(0) =~= x@);
    assert(y@.skip(0) =~= y@);
    while k < x.len() && k < y.len()
        invariant
            x@ == a@,
            y@ == b@,
            k <= x@.len(),
            k <= y@.len(),
            text_le(x@, y@) == text_le(x@.skip(k as int), y@.skip(k as int)),
        decreases x@.len() - k,
    {
        if x[k] != y[k] {
            return x[k] < y[k];
        }
        assert(x@.skip(k as int).skip(1) =~= x@.skip(k + 1));
        assert(y@.skip(k as int).skip(1) =~= y@.skip(k + 1));
        k = k + 1;
    }
    k >= x.len()
}

/// Where a text belongs in a list that is in order: behind all that come before
/// it.
fn place_for(sorted: &Vec<String>, text: &str) -> (at: usize)
    requires
        sorted_by(texts_of(sorted@), dictionary()),
    ensures
        at <= sorted@.len(),
        forall|k: int| 0 <= k < at ==> text_le(#[trigger] texts_of(sorted@)[k], text@),
        forall|k: int|
            at <= k < sorted@.len() ==> text_le(text@, #[trigger] texts_of(sorted@)[k]),
{
    let mut at: usize = 0;
    while at < sorted.len() && is_le(sorted[at].as_str(), text)
        invariant
            at <= sorted@.len(),
            forall|k: int| 0 <= k < at ==> text_le(#[trigger] texts_of(sorted@)[k], text@),
        ensures
            at <= sorted@.len(),
            forall|k: int| 0 <= k < at ==> text_le(#[trigger] texts_of(sorted@)[k], text@),
            at == sorted@.len() || !text_le(texts_of(sorted@)[at as int], text@),
        decreases sorted@.len() - at,
    {
        at = at + 1;
    }
    proof {
        let texts = texts_of(sorted@);
        let le = dictionary();
        assert forall|k: int| at <= k < sorted@.len() implies text_le(
            text@,
            #[trigger] texts[k],
        ) by {
            lemma_le_total(texts[at as int], text@);
            if at < k {
                assert(le(texts[at as int], texts[k]));
                lemma_le_transitive(text@, texts[at as int], texts[k]);
            }
        }
    }
    at
}

/// Puts texts in dictionary order.
pub fn sort_texts(texts: &Vec<String>) -> (r: Vec<String>)
    ensures
        texts_of(r@) == in_order(texts_of(texts@)),
{
    let mut r: Vec<String> = Vec::new();
    let ghost all = texts_of(texts@);
    assert(texts_of(r@) =~= all.take(0));
    for i in 0..texts.len()
        invariant
            all == texts_of(texts@),
            sorted_by(texts_of(r@), dictionary()),
            texts_of(r@).to_multiset() == all.take(i as int).to_multiset(),
    {
        let ghost before = texts_of(r@);
        let at: usize = place_for(&r, texts[i].as_str());
        r.insert(at, texts[i].clone());
        proof {
            let le = dictionary();
            let t = all[i as int];
            assert(texts_of(r@) =~= before.insert(at as int, t));
            assert(all.take(i + 1) =~= all.take(i as int).push(t));
            vstd::seq_lib::to_multiset_insert(before, at as int, t);
            vstd::seq_lib::to_multiset_build(all.take(i as int), t);
            assert forall|a: int, b: int| 0 <= a < b < texts_of(r@).len() implies #[trigger] le(
                texts_of(r@)[a],
                texts_of(r@)[b],
            ) by {
                if b < at {
                    assert(le(before[a], before[b]));
                } else if b == at {
                    assert(text_le(before[a], t));
                } else if a < at {
                    assert(le(before[a], before[b - 1]));
                } else if a == at {
                    assert(text_le(t, before[b - 1]));
                } else {
                    assert(le(before[a - 1], before[b - 1]));
                }
            }
        }
    }
    proof {
        assert(all.take(all.len() as int) =~= all);
        law_dictionary_is_total();
        all.lemma_sort_by_ensures(dictionary());
        lemma_sorted_unique(texts_of(r@), in_order(all), dictionary());
    }
    r
}

/// Dictionary order is that of the first characters in which two texts differ; a
/// text comes before those that it begins.
pub proof fn law_the_first_difference_decides(a: Seq<char>, b: Seq<char>, n: int)
    requires
        0 <= n <= a.len(),
        n <= b.len(),
        forall|m: int| 0 <= m < n ==> #[trigger] a[m] == b[m],
    ensures
        n == a.len() ==> text_le(a, b),
        n == b.len() && n < a.len() ==> !text_le(a, b),
        n < a.len() && n < b.len() && a[n] != b[n] ==> (text_le(a, b) <==> a[n] < b[n]),
    decreases n,
{
    if n > 0 {
        assert(a[0] == b[0]);
        let x = a.skip(1);
        let y = b.skip(1);
        assert forall|m: int| 0 <= m < n - 1 implies #[trigger] x[m] == y[m] by {
            assert(a[m + 1] == b[m + 1]);
        }
        law_the_first_difference_decides(x, y, n - 1);
    }
}

/// Texts in order: those that there were, as often as they were, each not after
/// the next.
pub proof fn law_order_keeps_every_text(texts: Seq<Seq<char>>, text: Seq<char>, i: int, j: int)
    ensures
        in_order(texts).len() == texts.len(),
        in_order(texts).contains(text) <==> texts.contains(text),
        in_order(texts).to_multiset() == texts.to_multiset(),
        0 <= i < j < in_order(texts).len() ==> text_le(in_order(texts)[i], in_order(texts)[j]),
{
    law_order_forgets_where_texts_stood(texts, texts);
    vstd::seq_lib::to_multiset_len(texts);
    vstd::seq_lib::to_multiset_len(in_order(texts));
    vstd::seq_lib::to_multiset_contains(texts, text);
    vstd::seq_lib::to_multiset_contains(in_order(texts), text);
    if 0 <= i < j < in_order(texts).len() {
        assert(dictionary()(in_order(texts)[i], in_order(texts)[j]));
    }
}

} // verus!
