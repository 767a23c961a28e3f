//! What the timings of spoken text promise as a whole, from the request to the
//! reply.

use vstd::prelude::*;

use crate::encode::{
    id_indices, law_characters_and_ids_agree, phoneme_ids, sounded, MAX_PHONEME_IDS,
};
use crate::phonemes::{joined_sounds, sounds_of};
use crate::protocol::WordTiming;
use crate::speech::{law_offsets_are_kept, lower, speakable, straight};
use crate::timing::{
    law_every_heard_word_is_timed, law_offsets_cut_out_the_words, law_words_follow_each_other,
    pieces_of, sound_start, stand_in_order, timed, timed_pieces, timings_of,
    words_of, TokenView,
};

verus! {

/// Every token has phonemes.
pub open spec fn all_sounded(tokens: Seq<TokenView>) -> bool {
    forall|i: int| 0 <= i < tokens.len() ==> (#[trigger] tokens[i]).phonemes is Some
}

/// A token's phonemes lie in the phoneme string where timing looks for them.
pub proof fn law_phonemes_lie_in_their_span(tokens: Seq<TokenView>, i: int)
    requires
        all_sounded(tokens),
        0 <= i < tokens.len(),
    ensures
        ({
            let lo = sound_start(pieces_of(tokens), i) as int;
            let p = tokens[i].phonemes->0;
            lo + p.len() <= joined_sounds(tokens).len() && joined_sounds(tokens).subrange(
                lo,
                lo + p.len(),
            ) == p
        }),
    decreases tokens.len(),
{
    let before = tokens.drop_last();
    let n = tokens.len() - 1;
    lemma_joined_length(before);
    lemma_sound_start_prefix(tokens, i);
    assert(all_sounded(before)) by {
        assert forall|k: int| 0 <= k < before.len() implies (#[trigger] before[k]).phonemes is Some by {
            assert(tokens[k].phonemes is Some);
        }
    }
    let lo = sound_start(pieces_of(tokens), i) as int;
    let p = tokens[i].phonemes->0;
    let joined = joined_sounds(tokens);
    if i < n {
        law_phonemes_lie_in_their_span(before, i);
        assert(joined.subrange(lo, lo + p.len()) =~= joined_sounds(before).subrange(
            lo,
            lo + p.len(),
        ));
    } else {
        assert(joined.subrange(lo, lo + p.len()) =~= p);
    }
}

/// The pieces of all tokens but the last start where the pieces of all do.
proof fn lemma_sound_start_prefix(tokens: Seq<TokenView>, i: int)
    requires
        0 <= i < tokens.len(),
    ensures
        sound_start(pieces_of(tokens), i) == sound_start(pieces_of(tokens.drop_last()), i),
    decreases i,
{
    if i > 0 {
        lemma_sound_start_prefix(tokens, i - 1);
    }
}

/// Timing counts as many phoneme characters as there are.
proof fn lemma_joined_length(tokens: Seq<TokenView>)
    ensures
        joined_sounds(tokens).len() == sound_start(pieces_of(tokens), tokens.len() as int),
    decreases tokens.len(),
{
    if tokens.len() > 0 {
        lemma_joined_length(tokens.drop_last());
        lemma_sound_start_prefix(tokens, tokens.len() - 1);
        let ps = pieces_of(tokens);
        let n = tokens.len() as int;
        assert(sound_start(ps, n) == sound_start(ps, n - 1) + ps[n - 1].sounds + ps[n - 1].gap);
        assert(sounds_of(tokens.last()).len() == ps[n - 1].sounds + ps[n - 1].gap);
    }
}

/// With a boundary for every id, a token is timed exactly when it is a word and
/// one of its phonemes was given an id. As long as the model takes all of the
/// speech, that is when the vocabulary knows one of its phonemes.
pub proof fn law_every_known_word_is_timed(
    vocab: Map<char, i64>,
    text: Seq<char>,
    tokens: Seq<TokenView>,
    bounds: Seq<u32>,
    i: int,
)
    requires
        stand_in_order(text, pieces_of(tokens)),
        all_sounded(tokens),
        bounds.len() >= phoneme_ids(vocab, joined_sounds(tokens)).len() + 3,
        0 <= i < tokens.len(),
    ensures
        ({
            let ps = pieces_of(tokens);
            let phonemes = joined_sounds(tokens);
            let index = id_indices(vocab, phonemes);
            let lo = sound_start(ps, i) as int;
            let p = tokens[i].phonemes->0;
            let is_timed = timed_pieces(text, ps, index, bounds, ps.len() as int).contains(i);
            &&& is_timed <==> ps[i].spoken && exists|m: int|
                0 <= m < p.len() && #[trigger] sounds_at(index, lo, m)
            &&& sounded(vocab, phonemes).len() <= MAX_PHONEME_IDS ==> (is_timed <==> ps[i].spoken
                && exists|m: int| 0 <= m < p.len() && vocab.contains_key(#[trigger] p[m]))
        }),
{
    let ps = pieces_of(tokens);
    let phonemes = joined_sounds(tokens);
    let index = id_indices(vocab, phonemes);
    let lo = sound_start(ps, i) as int;
    let p = tokens[i].phonemes->0;
    law_every_heard_word_is_timed(text, ps, index, bounds, i);
    law_characters_and_ids_agree(vocab, phonemes);
    law_phonemes_lie_in_their_span(tokens, i);
    assert forall|k: int| 0 <= k < index.len() implies #[trigger] timed(index, bounds, k) == (
    index[k] is Some) by {}
    if exists|k: int| lo <= k < lo + ps[i].sounds && #[trigger] timed(index, bounds, k) {
        let k = choose|k: int| lo <= k < lo + ps[i].sounds && #[trigger] timed(index, bounds, k);
        assert(sounds_at(index, lo, k - lo));
    }
    if exists|m: int| 0 <= m < p.len() && #[trigger] sounds_at(index, lo, m) {
        let m = choose|m: int| 0 <= m < p.len() && #[trigger] sounds_at(index, lo, m);
        assert(timed(index, bounds, lo + m));
        assert(phonemes.subrange(lo, lo + p.len())[m] == p[m]);
        assert(vocab.contains_key(p[m]));
    }
    if sounded(vocab, phonemes).len() <= MAX_PHONEME_IDS && exists|m: int|
        0 <= m < p.len() && vocab.contains_key(#[trigger] p[m]) {
        let m = choose|m: int| 0 <= m < p.len() && vocab.contains_key(#[trigger] p[m]);
        assert(phonemes.subrange(lo, lo + p.len())[m] == p[m]);
        crate::encode::lemma_known_is_given(vocab, phonemes, lo + m);
        assert(sounds_at(index, lo, m));
    }
}

/// Phoneme character `m` of a token whose phonemes start at `lo` was given an id.
pub open spec fn sounds_at(index: Seq<Option<usize>>, lo: int, m: int) -> bool {
    0 <= lo + m < index.len() && index[lo + m] is Some
}

/// A character of the request is heard as a character of the word.
pub open spec fn heard_as(request: char, spoken: char) -> bool {
    spoken == straight(request) || spoken == lower(straight(request))
}

/// A timing names a stretch of the request that is heard as the word.
pub open spec fn points_at(w: WordTiming, request: Seq<char>, word: Seq<char>) -> bool {
    &&& w.start_char < w.end_char <= request.len()
    &&& w.end_char - w.start_char == word.len()
    &&& forall|m: int|
        0 <= m < word.len() ==> heard_as(request[w.start_char + m], #[trigger] word[m])
}

/// Timings point into the text of the request. Timing `a` names a stretch of it
/// that lies inside, is not empty, and is heard as the word that is timed. A
/// later timing `b` lies behind it.
pub proof fn law_timings_point_into_the_request(
    request: Seq<char>,
    tokens: Seq<TokenView>,
    id_of_char: Seq<Option<usize>>,
    bounds: Seq<u32>,
    n_samples: nat,
    a: int,
    b: int,
)
    requires
        request.len() <= u32::MAX,
        0 <= a < timings_of(speakable(request), tokens, id_of_char, bounds, n_samples).len(),
    ensures
        ({
            let words = timings_of(speakable(request), tokens, id_of_char, bounds, n_samples);
            let i = timed_pieces(
                speakable(request),
                pieces_of(tokens),
                id_of_char,
                bounds,
                tokens.len() as int,
            )[a];
            &&& 0 <= i < tokens.len()
            &&& points_at(words[a], request, tokens[i].text)
            &&& a < b < words.len() ==> words[a].end_char <= words[b].start_char
        }),
{
    let speak = speakable(request);
    let ps = pieces_of(tokens);
    let words = timings_of(speak, tokens, id_of_char, bounds, n_samples);
    assert(ps.len() == tokens.len());
    assert(words == words_of(speak, ps, id_of_char, bounds, ps.len() as int));
    law_offsets_are_kept(request);
    law_offsets_cut_out_the_words(speak, ps, id_of_char, bounds);
    let w = words[a];
    let i = timed_pieces(speak, ps, id_of_char, bounds, ps.len() as int)[a];
    let t = tokens[i].text;
    assert(speak.subrange(w.start_char as int, w.end_char as int) == t);
    assert forall|m: int| 0 <= m < t.len() implies heard_as(
        request[w.start_char + m],
        #[trigger] t[m],
    ) by {
        assert(t[m] == speak[w.start_char + m]);
    }
    if a < b < words.len() {
        assert(words[a].end_char <= words[b].start_char);
    }
}

/// Words are heard one after the other: with the boundaries in order, no word
/// ends before it starts, and none starts before the one before it ends.
pub proof fn law_words_are_heard_in_order(
    vocab: Map<char, i64>,
    text: Seq<char>,
    tokens: Seq<TokenView>,
    bounds: Seq<u32>,
    n_samples: nat,
)
    requires
        forall|x: int, y: int|
            0 <= x <= y < bounds.len() ==> #[trigger] bounds[x] <= #[trigger] bounds[y],
    ensures
        ({
            let words = timings_of(
                text,
                tokens,
                id_indices(vocab, joined_sounds(tokens)),
                bounds,
                n_samples,
            );
            &&& forall|a: int|
                0 <= a < words.len() ==> (#[trigger] words[a]).start_ms <= words[a].end_ms
            &&& forall|a: int, b: int|
                0 <= a < b < words.len() ==> (#[trigger] words[a]).end_ms <= (
                #[trigger] words[b]).start_ms
        }),
{
    assert(pieces_of(tokens).len() == tokens.len());
    law_characters_and_ids_agree(vocab, joined_sounds(tokens));
    law_words_follow_each_other(
        text,
        pieces_of(tokens),
        id_indices(vocab, joined_sounds(tokens)),
        bounds,
    );
}

} // verus!
