//! From phonemes to the ids that the model takes.

use vstd::prelude::*;

use crate::chars::chars_of;
use crate::vocab::Vocab;

verus! {

/// The most phoneme ids that the model takes at a time, without the two pads.
pub const MAX_PHONEME_IDS: usize = 510;

/// The phoneme characters that the vocabulary knows, in order.
pub open spec fn sounded(vocab: Map<char, i64>, phonemes: Seq<char>) -> Seq<char> {
    phonemes.filter(|c: char| vocab.contains_key(c))
}

/// The ids of the known phoneme characters, as many as the model takes.
pub open spec fn phoneme_ids(vocab: Map<char, i64>, phonemes: Seq<char>) -> Seq<i64> {
    let known = sounded(vocab, phonemes);
    known.take(vstd::math::min(known.len() as int, MAX_PHONEME_IDS as int)).map_values(
        |c: char| vocab[c],
    )
}

/// Which id phoneme character `k` was given: one for each known character, from
/// the first on, until the model takes no more.
pub open spec fn id_index(vocab: Map<char, i64>, phonemes: Seq<char>, k: int) -> Option<usize> {
    let rank = sounded(vocab, phonemes.take(k)).len();
    if vocab.contains_key(phonemes[k]) && rank < MAX_PHONEME_IDS {
        Some(rank as usize)
    } else {
        None
    }
}

/// Which id each phoneme character was given.
pub open spec fn id_indices(vocab: Map<char, i64>, phonemes: Seq<char>) -> Seq<Option<usize>> {
    Seq::new(phonemes.len(), |k: int| id_index(vocab, phonemes, k))
}

/// The ids with a pad on either side.
pub open spec fn padded(ids: Seq<i64>) -> Seq<i64> {
    seq![0i64] + ids + seq![0i64]
}

/// One more phoneme character adds itself where it is known, and nothing
/// otherwise.
proof fn lemma_sounded_step(vocab: Map<char, i64>, phonemes: Seq<char>, k: int)
    requires
        0 <= k < phonemes.len(),
    ensures
        sounded(vocab, phonemes.take(k + 1)) == (if vocab.contains_key(phonemes[k]) {
            sounded(vocab, phonemes.take(k)).push(phonemes[k])
        } else {
            sounded(vocab, phonemes.take(k))
        }),
{
    reveal(Seq::filter);
    assert(phonemes.take(k + 1).drop_last() =~= phonemes.take(k));
}

/// The known characters of a beginning are the first known characters.
proof fn lemma_sounded_prefix(vocab: Map<char, i64>, phonemes: Seq<char>, k: int, n: int)
    requires
        0 <= k <= n <= phonemes.len(),
    ensures
        sounded(vocab, phonemes.take(k)).len() <= sounded(vocab, phonemes.take(n)).len(),
        sounded(vocab, phonemes.take(k)) == sounded(vocab, phonemes.take(n)).take(
            sounded(vocab, phonemes.take(k)).len() as int,
        ),
    decreases n - k,
{
    if k < n {
        lemma_sounded_prefix(vocab, phonemes, k, n - 1);
        lemma_sounded_step(vocab, phonemes, n - 1);
    }
}

/// Gives each phoneme character that the vocabulary knows its id, as long as the
/// model takes more. Returns the ids, and for each phoneme character the place
/// of its id among them.
pub fn encode(vocab: &Vocab, phonemes: &str) -> (r: (Vec<i64>, Vec<Option<usize>>))
    ensures
        r.0@ == phoneme_ids(vocab@, phonemes@),
        r.1@ == id_indices(vocab@, phonemes@),
{
    let chars: Vec<char> = chars_of(phonemes);
    let mut ids: Vec<i64> = Vec::new();
    let mut id_of_char: Vec<Option<usize>> = Vec::new();
    assert(phoneme_ids(vocab@, phonemes@.take(0)) =~= Seq::<i64>::empty()) by {
        reveal(Seq::filter);
    }
    for k in 0..chars.len()
        invariant
            chars@ == phonemes@,
            ids@ == phoneme_ids(vocab@, phonemes@.take(k as int)),
            id_of_char@ == id_indices(vocab@, phonemes@).take(k as int),
    {
        proof {
            lemma_sounded_step(vocab@, phonemes@, k as int);
        }
        match vocab.get(chars[k]) {
            Some(id) if ids.len() < MAX_PHONEME_IDS => {
                id_of_char.push(Some(ids.len()));
                ids.push(id);
            },
            _ => {
                id_of_char.push(None);
            },
        }
        assert(ids@ =~= phoneme_ids(vocab@, phonemes@.take(k + 1)));
    }
    assert(phonemes@.take(phonemes@.len() as int) =~= phonemes@);
    (ids, id_of_char)
}

/// The ids with a pad on either side.
pub fn pad(ids: &Vec<i64>) -> (r: Vec<i64>)
    ensures
        r@ == padded(ids@),
{
    let mut r: Vec<i64> = Vec::new();
    r.push(0);
    for k in 0..ids.len()
        invariant
            r@ == seq![0i64] + ids@.take(k as int),
    {
        r.push(ids[k]);
    }
    r.push(0);
    r
}

/// Id number `r` was given to some phoneme character.
pub open spec fn is_given(index: Seq<Option<usize>>, r: int) -> bool {
    exists|k: int| 0 <= k < index.len() && (#[trigger] index[k]) is Some && index[k]->0 == r
}

/// Characters and ids agree: an id that a character was given is the one of the
/// vocabulary, ids are given in order, none is given twice or to nobody, and the
/// model is never given too many. There are none exactly when the vocabulary
/// knows no character.
pub proof fn law_characters_and_ids_agree(vocab: Map<char, i64>, phonemes: Seq<char>)
    ensures
        ({
            let ids = phoneme_ids(vocab, phonemes);
            let index = id_indices(vocab, phonemes);
            &&& ids.len() <= MAX_PHONEME_IDS
            &&& forall|k: int|
                0 <= k < index.len() && (#[trigger] index[k]) is Some ==> index[k]->0 < ids.len()
                    && vocab.contains_key(phonemes[k]) && ids[index[k]->0 as int]
                    == vocab[phonemes[k]]
            &&& forall|k: int, l: int|
                0 <= k < l < index.len() && (#[trigger] index[k]) is Some && (
                #[trigger] index[l]) is Some ==> index[k]->0 < index[l]->0
            &&& forall|r: int| 0 <= r < ids.len() ==> #[trigger] is_given(index, r)
            &&& ids.len() == 0 <==> forall|k: int|
                0 <= k < phonemes.len() ==> !vocab.contains_key(#[trigger] phonemes[k])
        }),
{
    let ids = phoneme_ids(vocab, phonemes);
    let index = id_indices(vocab, phonemes);
    let all = sounded(vocab, phonemes);
    let n = phonemes.len() as int;
    assert(phonemes.take(n) =~= phonemes);
    assert forall|k: int| 0 <= k < index.len() && (#[trigger] index[k]) is Some implies index[k]->0
        < ids.len() && vocab.contains_key(phonemes[k]) && ids[index[k]->0 as int]
        == vocab[phonemes[k]] by {
        lemma_sounded_step(vocab, phonemes, k);
        lemma_sounded_prefix(vocab, phonemes, k + 1, n);
        let r = sounded(vocab, phonemes.take(k)).len() as int;
        assert(sounded(vocab, phonemes.take(k + 1))[r] == phonemes[k]);
        assert(all.take(r + 1)[r] == phonemes[k]);
    }
    assert forall|k: int, l: int|
        0 <= k < l < index.len() && (#[trigger] index[k]) is Some && (
        #[trigger] index[l]) is Some implies index[k]->0 < index[l]->0 by {
        lemma_sounded_step(vocab, phonemes, k);
        lemma_sounded_prefix(vocab, phonemes, k + 1, l);
    }
    assert forall|r: int| 0 <= r < ids.len() implies #[trigger] is_given(index, r) by {
        let k = lemma_place_of_id(vocab, phonemes, n, r);
        assert(index[k] == Some(r as usize));
    }
    if ids.len() == 0 {
        assert forall|k: int| 0 <= k < phonemes.len() implies !vocab.contains_key(
            #[trigger] phonemes[k],
        ) by {
            lemma_sounded_step(vocab, phonemes, k);
            lemma_sounded_prefix(vocab, phonemes, k + 1, n);
        }
    } else {
        let k = lemma_place_of_id(vocab, phonemes, n, 0);
        assert(vocab.contains_key(phonemes[k]));
    }
}

/// What becomes of every phoneme character. One that the vocabulary does not know
/// is given no id. One that it knows is given the place behind those of the known
/// characters before it, and at that place stands its id; or else all of the 510
/// places that the model has are taken by characters before it. No place `r` is
/// left empty.
pub proof fn law_every_character_is_served(
    vocab: Map<char, i64>,
    phonemes: Seq<char>,
    k: int,
    r: int,
)
    requires
        0 <= k < phonemes.len(),
    ensures
        ({
            let ids = phoneme_ids(vocab, phonemes);
            let index = id_indices(vocab, phonemes);
            &&& index.len() == phonemes.len()
            &&& ids.len() <= 510
            &&& !vocab.contains_key(phonemes[k]) ==> index[k] is None
            &&& index[k] is Some ==> index[k]->0 < ids.len() && ids[index[k]->0 as int]
                == vocab[phonemes[k]]
            &&& vocab.contains_key(phonemes[k]) && index[k] is None ==> ids.len() == 510
                && forall|l: int|
                k <= l < phonemes.len() ==> (#[trigger] index[l]) is None
            &&& forall|l: int|
                0 <= l < k && (#[trigger] index[l]) is Some && index[k] is Some ==> index[l]->0
                    < index[k]->0
            &&& 0 <= r < ids.len() ==> exists|l: int|
                0 <= l < index.len() && (#[trigger] index[l]) is Some && index[l]->0 == r
        }),
{
    let ids = phoneme_ids(vocab, phonemes);
    let index = id_indices(vocab, phonemes);
    let n = phonemes.len() as int;
    law_characters_and_ids_agree(vocab, phonemes);
    assert(phonemes.take(n) =~= phonemes);
    if vocab.contains_key(phonemes[k]) && index[k] is None {
        lemma_sounded_prefix(vocab, phonemes, k, n);
        assert forall|l: int| k <= l < n implies (#[trigger] index[l]) is None by {
            lemma_sounded_prefix(vocab, phonemes, k, l);
        }
    }
    if 0 <= r < ids.len() {
        assert(is_given(index, r));
    }
}

/// The pads stand on either side of the ids, and the ids between them unchanged.
pub proof fn law_pads_enclose_the_ids(ids: Seq<i64>, k: int)
    ensures
        padded(ids).len() == ids.len() + 2,
        padded(ids)[0] == 0,
        padded(ids)[ids.len() as int + 1] == 0,
        0 <= k < ids.len() ==> padded(ids)[k + 1] == ids[k],
{
}

/// What the model is given for a phoneme character: behind the pad in front, at
/// the character's place, its id.
pub proof fn law_the_model_hears_every_character(vocab: Map<char, i64>, phonemes: Seq<char>, k: int)
    requires
        0 <= k < phonemes.len(),
        id_indices(vocab, phonemes)[k] is Some,
    ensures
        ({
            let input = padded(phoneme_ids(vocab, phonemes));
            let r = id_indices(vocab, phonemes)[k]->0 as int;
            r + 1 < input.len() - 1 && input[r + 1] == vocab[phonemes[k]]
        }),
{
    law_characters_and_ids_agree(vocab, phonemes);
}

/// Where the model takes all of the speech, every known character is given an id.
pub proof fn lemma_known_is_given(vocab: Map<char, i64>, phonemes: Seq<char>, k: int)
    requires
        sounded(vocab, phonemes).len() <= MAX_PHONEME_IDS,
        0 <= k < phonemes.len(),
        vocab.contains_key(phonemes[k]),
    ensures
        id_indices(vocab, phonemes)[k] is Some,
{
    assert(phonemes.take(phonemes.len() as int) =~= phonemes);
    lemma_sounded_step(vocab, phonemes, k);
    lemma_sounded_prefix(vocab, phonemes, k + 1, phonemes.len() as int);
}

/// Every place among the known characters belongs to a character.
proof fn lemma_place_of_id(vocab: Map<char, i64>, phonemes: Seq<char>, n: int, r: int) -> (k: int)
    requires
        0 <= n <= phonemes.len(),
        0 <= r < sounded(vocab, phonemes.take(n)).len(),
    ensures
        0 <= k < n,
        vocab.contains_key(phonemes[k]),
        sounded(vocab, phonemes.take(k)).len() == r,
    decreases n,
{
    if n == 0 {
        reveal(Seq::filter);
        assert(false);
        0
    } else {
        lemma_sounded_step(vocab, phonemes, n - 1);
        if r < sounded(vocab, phonemes.take(n - 1)).len() {
            lemma_place_of_id(vocab, phonemes, n - 1, r)
        } else {
            n - 1
        }
    }
}

} // verus!
