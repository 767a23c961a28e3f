//! Phonemes from text, through the `misaki_rs` phonemizer.

use vstd::prelude::*;

use crate::chars::{chars_of, texts_of, unicode_lowercase};
use crate::timing::{pieces_of, stand_in_order, token_views, Token, TokenView};

verus! {

/// `misaki_rs::G2P`, the phonemizer with its dictionaries.
#[verifier::external_type_specification]
#[verifier::external_body]
pub struct ExG2P(misaki_rs::G2P);

/// The varieties of English that are spoken.
#[derive(Debug, Clone, Copy, PartialEq, Eq, Structural)]
pub enum Language {
    EnglishUS,
    EnglishGB,
}

/// Whether a phonemizer speaks British rather than American English: its
/// dictionaries are chosen once, when it is made.
pub uninterp spec fn speaks_british(g2p: misaki_rs::G2P) -> bool;

/// The pieces into which a phonemizer cuts a text, in order. Both varieties cut
/// alike.
pub uninterp spec fn g2p_tokens(text: Seq<char>) -> Seq<Seq<char>>;

/// Whether a phonemizer may answer a text like this: with these tokens, or with
/// this error. `british` tells which variety of English it speaks. More than one
/// answer may be possible.
pub uninterp spec fn g2p_may_give(
    british: bool,
    text: Seq<char>,
    answer: Result<Seq<TokenView>, Seq<char>>,
) -> bool;

/// The texts of a list of tokens.
pub open spec fn token_texts(tokens: Seq<TokenView>) -> Seq<Seq<char>> {
    tokens.map_values(|t: TokenView| t.text)
}

/// What a token adds to the phoneme string: its phonemes, then its white space.
pub open spec fn sounds_of(t: TokenView) -> Seq<char> {
    match t.phonemes {
        Some(p) => p + t.whitespace,
        None => t.whitespace,
    }
}

/// The phoneme string of a list of tokens.
pub open spec fn joined_sounds(tokens: Seq<TokenView>) -> Seq<char>
    decreases tokens.len(),
{
    if tokens.len() == 0 {
        Seq::empty()
    } else {
        joined_sounds(tokens.drop_last()) + sounds_of(tokens.last())
    }
}

/// A lower-case word that the phonemizer cannot take: it ends in `ing` behind a
/// letter outside ASCII, and takes more than five bytes. To look for the stem,
/// the phonemizer cuts off the last four bytes, and these then end inside that
/// letter.
pub open spec fn unstemmable(low: Seq<char>) -> bool {
    let n = low.len();
    &&& n >= 4
    &&& low[n - 3] == 'i' && low[n - 2] == 'n' && low[n - 1] == 'g'
    &&& low[n - 4] > '\u{7F}'
    &&& n > 4 || low[n - 4] > '\u{7FF}'
}

/// A text that the phonemizer can take.
pub open spec fn phonemizable(text: Seq<char>) -> bool {
    forall|i: int|
        0 <= i < g2p_tokens(text).len() ==> !unstemmable(
            unicode_lowercase(#[trigger] g2p_tokens(text)[i]),
        )
}

/// `misaki_rs::G2P::new`: the phonemizer for a variety of English.
#[verifier::external_body]
pub(crate) fn new_g2p(language: Language) -> (g2p: misaki_rs::G2P)
    ensures
        speaks_british(g2p) == (language == Language::EnglishGB),
{
    misaki_rs::G2P::new(
        match language {
            Language::EnglishUS => misaki_rs::Language::EnglishUS,
            Language::EnglishGB => misaki_rs::Language::EnglishGB,
        },
    )
}

/// `misaki_rs::G2P::tokenize`, of whose tokens the texts are kept: they are a
/// function of the text alone.
#[verifier::external_body]
pub(crate) fn tokenize(g2p: &misaki_rs::G2P, text: &str) -> (r: Vec<String>)
    ensures
        texts_of(r@) == g2p_tokens(text@),
{
    g2p.tokenize(text).into_iter().map(|t| t.text).collect()
}

/// What came of phonemizing, without the phoneme string.
pub open spec fn answer_view(r: Result<(String, Vec<Token>), String>) -> Result<
    Seq<TokenView>,
    Seq<char>,
> {
    match r {
        Ok((_, tokens)) => Ok(token_views(tokens@)),
        Err(why) => Err(why@),
    }
}

/// `misaki_rs::G2P::g2p`: the phoneme string of a text and its tokens, or the
/// error in its `Debug` form. It is an answer that a phonemizer of this variety
/// may give to this text. The tokens are those that the text is cut into. They
/// stand in it one after the other, every one is given phonemes, a single space
/// follows each, and the phoneme string is theirs joined.
///
/// Which phonemes a word is given is left open: the part of speech is guessed
/// from weights that are added up in no fixed order, so that the answer is not
/// fixed by the text. When an error comes is left open too. Only the fallback for
/// unknown words makes one, and the build without the crate's `espeak` feature,
/// which `Cargo.toml` asks for, has no fallback and gives no error; the contract
/// does not rest on that.
#[verifier::external_body]
pub(crate) fn phonemize(g2p: &misaki_rs::G2P, text: &str) -> (r: Result<
    (String, Vec<Token>),
    String,
>)
    requires
        phonemizable(text@),
    ensures
        g2p_may_give(speaks_british(*g2p), text@, answer_view(r)),
        r matches Ok((phonemes, tokens)) ==> {
            &&& token_texts(token_views(tokens@)) == g2p_tokens(text@)
            &&& stand_in_order(text@, pieces_of(token_views(tokens@)))
            &&& forall|i: int|
                0 <= i < tokens@.len() ==> (#[trigger] tokens@[i]).phonemes is Some
                    && tokens@[i].whitespace@ == seq![' ']
            &&& phonemes@ == joined_sounds(token_views(tokens@))
        },
{
    let (phonemes, tokens) = g2p.g2p(text).map_err(|e| format!("{e:?}"))?;
    let tokens = tokens.into_iter().map(
        |t| Token { text: t.text, phonemes: t.phonemes, whitespace: t.whitespace },
    ).collect();
    Ok((phonemes, tokens))
}

/// Whether the phonemizer cannot take a lower-case word.
pub fn is_unstemmable(low: &str) -> (r: bool)
    ensures
        r == unstemmable(low@),
{
    let c: Vec<char> = chars_of(low);
    let n: usize = c.len();
    n >= 4 && c[n - 3] == 'i' && c[n - 2] == 'n' && c[n - 1] == 'g' && c[n - 4] > '\u{7F}' && (n > 4
        || c[n - 4] > '\u{7FF}')
}

/// Whether the phonemizer can take a text.
pub fn is_phonemizable(g: &misaki_rs::G2P, text: &str) -> (r: bool)
    ensures
        r == phonemizable(text@),
{
    let words: Vec<String> = tokenize(g, text);
    for i in 0..words.len()
        invariant
            texts_of(words@) == g2p_tokens(text@),
            forall|k: int|
                0 <= k < i ==> !unstemmable(unicode_lowercase(#[trigger] g2p_tokens(text@)[k])),
    {
        assert(g2p_tokens(text@)[i as int] == words@[i as int]@);
        if is_unstemmable(words[i].as_str().to_lowercase().as_str()) {
            return false;
        }
    }
    true
}

/// The phonemizer takes every word but those that end in `ing` behind a character
/// outside ASCII and take more than five bytes: any word in ASCII, any word with
/// another ending, and any text that is cut into such words, whatever its length.
pub proof fn law_only_such_words_cannot_be_taken(low: Seq<char>, text: Seq<char>, i: int)
    ensures
        low.len() < 4 ==> !unstemmable(low),
        low.len() >= 4 ==> {
            let n = low.len() as int;
            unstemmable(low) <==> low.subrange(n - 3, n) == seq!['i', 'n', 'g'] && low[n - 4] as int
                >= 0x80 && (n >= 5 || low[n - 4] as int >= 0x800)
        },
        phonemizable(text) && 0 <= i < g2p_tokens(text).len() ==> !unstemmable(
            unicode_lowercase(g2p_tokens(text)[i]),
        ),
        !phonemizable(text) ==> exists|k: int|
            0 <= k < g2p_tokens(text).len() && unstemmable(
                unicode_lowercase(#[trigger] g2p_tokens(text)[k]),
            ),
{
    if low.len() >= 4 {
        let n = low.len() as int;
        let end = low.subrange(n - 3, n);
        assert(end[0] == low[n - 3] && end[1] == low[n - 2] && end[2] == low[n - 1]);
        if low[n - 3] == 'i' && low[n - 2] == 'n' && low[n - 1] == 'g' {
            assert(end =~= seq!['i', 'n', 'g']);
        }
    }
}

/// The phoneme string is the phonemes of each token and then its white space, one
/// token after the other, and nothing else.
pub proof fn law_tokens_sound_one_after_the_other(tokens: Seq<TokenView>, t: TokenView, i: int)
    ensures
        joined_sounds(Seq::<TokenView>::empty()).len() == 0,
        t.phonemes matches Some(p) ==> joined_sounds(tokens.push(t)) == joined_sounds(tokens) + p
            + t.whitespace,
        t.phonemes is None ==> joined_sounds(tokens.push(t)) == joined_sounds(tokens)
            + t.whitespace,
        token_texts(tokens).len() == tokens.len(),
        0 <= i < tokens.len() ==> token_texts(tokens)[i] == tokens[i].text,
{
    assert(tokens.push(t).drop_last() =~= tokens);
    if let Some(p) = t.phonemes {
        assert(joined_sounds(tokens.push(t)) =~= joined_sounds(tokens) + p + t.whitespace);
    }
}

} // verus!
