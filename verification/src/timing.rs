//! Word timings: which characters of the text are heard when.
//!
//! The phonemizer cuts the text into tokens and gives each its phonemes; the
//! model gives each phoneme id a duration. Walking the tokens through the
//! phoneme string and through the text at the same time joins the two.

use vstd::prelude::*;

use crate::chars::{chars_of, unicode_alphanumeric};
use crate::protocol::WordTiming;
use crate::search::{find, find_from, lemma_find_from, stands_at};

verus! {

/// One token of the phonemizer: the text it was cut from, its phonemes, and the
/// white space that follows it in the phoneme string.
#[derive(Debug, Clone)]
pub struct Token {
    pub text: String,
    pub phonemes: Option<String>,
    pub whitespace: String,
}

/// The contents of a [`Token`].
pub struct TokenView {
    pub text: Seq<char>,
    pub phonemes: Option<Seq<char>>,
    pub whitespace: Seq<char>,
}

impl View for Token {
    type V = TokenView;

    open spec fn view(&self) -> TokenView {
        TokenView {
            text: self.text@,
            phonemes: match self.phonemes {
                Some(p) => Some(p@),
                None => None,
            },
            whitespace: self.whitespace@,
        }
    }
}

/// The contents of a list of tokens.
pub open spec fn token_views(tokens: Seq<Token>) -> Seq<TokenView> {
    tokens.map_values(|t: Token| t@)
}

/// What timing needs of a token: its text, how many phoneme characters it and
/// the gap after it take, and whether it is a word rather than punctuation.
#[derive(Debug, Clone)]
pub struct Piece {
    pub text: Vec<char>,
    pub sounds: usize,
    pub gap: usize,
    pub spoken: bool,
}

/// The contents of a [`Piece`].
pub struct PieceView {
    pub text: Seq<char>,
    pub sounds: nat,
    pub gap: nat,
    pub spoken: bool,
}

impl View for Piece {
    type V = PieceView;

    open spec fn view(&self) -> PieceView {
        PieceView {
            text: self.text@,
            sounds: self.sounds as nat,
            gap: self.gap as nat,
            spoken: self.spoken,
        }
    }
}

/// The contents of a list of pieces.
pub open spec fn piece_views(pieces: Seq<Piece>) -> Seq<PieceView> {
    pieces.map_values(|p: Piece| p@)
}

/// A text with a letter or a digit in it.
pub open spec fn has_alphanumeric(s: Seq<char>) -> bool {
    exists|k: int| 0 <= k < s.len() && unicode_alphanumeric(#[trigger] s[k])
}

/// What timing needs of a token.
pub open spec fn piece_of(t: TokenView) -> PieceView {
    PieceView {
        text: t.text,
        sounds: match t.phonemes {
            Some(p) => p.len(),
            None => 0,
        },
        gap: t.whitespace.len(),
        spoken: has_alphanumeric(t.text),
    }
}

/// What timing needs of each token.
pub open spec fn pieces_of(tokens: Seq<TokenView>) -> Seq<PieceView> {
    tokens.map_values(|t: TokenView| piece_of(t))
}

/// Where piece `i` starts in the phoneme string.
pub open spec fn sound_start(ps: Seq<PieceView>, i: int) -> nat
    decreases i,
{
    if i <= 0 {
        0
    } else {
        sound_start(ps, i - 1) + ps[i - 1].sounds + ps[i - 1].gap
    }
}

/// How far the text is used up by the first `i` pieces. A piece that is not
/// found uses up nothing.
pub open spec fn text_cursor(text: Seq<char>, ps: Seq<PieceView>, i: int) -> int
    decreases i,
{
    if i <= 0 {
        0
    } else {
        let before = text_cursor(text, ps, i - 1);
        match find_from(text, ps[i - 1].text, before) {
            Some(at) => at + ps[i - 1].text.len(),
            None => before,
        }
    }
}

/// Where piece `i` stands in the text.
pub open spec fn located(text: Seq<char>, ps: Seq<PieceView>, i: int) -> Option<int> {
    find_from(text, ps[i].text, text_cursor(text, ps, i))
}

/// Phoneme character `k` was given an id whose two time boundaries are known.
/// The boundary list counts a pad before the first id, so id `n` sounds from
/// boundary `n + 1` to boundary `n + 2`.
pub open spec fn timed(id_of_char: Seq<Option<usize>>, bounds: Seq<u32>, k: int) -> bool {
    &&& 0 <= k < id_of_char.len()
    &&& id_of_char[k] is Some
    &&& id_of_char[k]->0 + 2 < bounds.len()
}

/// The first timed phoneme character in `[lo, hi)`.
pub open spec fn first_timed(
    id_of_char: Seq<Option<usize>>,
    bounds: Seq<u32>,
    lo: int,
    hi: int,
) -> Option<int>
    decreases hi - lo,
{
    if lo >= hi {
        None
    } else if timed(id_of_char, bounds, lo) {
        Some(lo)
    } else {
        first_timed(id_of_char, bounds, lo + 1, hi)
    }
}

/// The last timed phoneme character in `[lo, hi)`.
pub open spec fn last_timed(
    id_of_char: Seq<Option<usize>>,
    bounds: Seq<u32>,
    lo: int,
    hi: int,
) -> Option<int>
    decreases hi - lo,
{
    if lo >= hi {
        None
    } else if timed(id_of_char, bounds, hi - 1) {
        Some(hi - 1)
    } else {
        last_timed(id_of_char, bounds, lo, hi - 1)
    }
}

/// The timing of piece `i`: a word that is found in the text and of which at
/// least one phoneme is timed. It lasts from the start of its first timed
/// phoneme to the end of its last. Offsets are cut to 32 bits.
pub open spec fn word_of(
    text: Seq<char>,
    ps: Seq<PieceView>,
    id_of_char: Seq<Option<usize>>,
    bounds: Seq<u32>,
    i: int,
) -> Option<WordTiming> {
    let lo = sound_start(ps, i) as int;
    let hi = lo + ps[i].sounds;
    match (
        located(text, ps, i),
        first_timed(id_of_char, bounds, lo, hi),
        last_timed(id_of_char, bounds, lo, hi),
    ) {
        (Some(at), Some(first), Some(last)) => if ps[i].spoken {
            Some(
                WordTiming {
                    start_ms: bounds[id_of_char[first]->0 + 1],
                    end_ms: bounds[id_of_char[last]->0 + 2],
                    start_char: at as u32,
                    end_char: (at + ps[i].text.len()) as u32,
                },
            )
        } else {
            None
        },
        _ => None,
    }
}

/// Which of the first `n` pieces have a timing.
pub open spec fn timed_pieces(
    text: Seq<char>,
    ps: Seq<PieceView>,
    id_of_char: Seq<Option<usize>>,
    bounds: Seq<u32>,
    n: int,
) -> Seq<int>
    decreases n,
{
    if n <= 0 {
        Seq::empty()
    } else {
        let before = timed_pieces(text, ps, id_of_char, bounds, n - 1);
        if word_of(text, ps, id_of_char, bounds, n - 1) is Some {
            before.push(n - 1)
        } else {
            before
        }
    }
}

/// The timings of the first `n` pieces, in order.
pub open spec fn words_of(
    text: Seq<char>,
    ps: Seq<PieceView>,
    id_of_char: Seq<Option<usize>>,
    bounds: Seq<u32>,
    n: int,
) -> Seq<WordTiming> {
    timed_pieces(text, ps, id_of_char, bounds, n).map_values(
        |i: int| word_of(text, ps, id_of_char, bounds, i)->0,
    )
}

/// The text is never used up beyond its end, and never given back.
proof fn lemma_text_cursor(text: Seq<char>, ps: Seq<PieceView>, i: int)
    ensures
        0 <= text_cursor(text, ps, i) <= text.len(),
        i > 0 ==> text_cursor(text, ps, i - 1) <= text_cursor(text, ps, i),
    decreases i,
{
    if i > 0 {
        lemma_text_cursor(text, ps, i - 1);
        lemma_find_from(text, ps[i - 1].text, text_cursor(text, ps, i - 1));
    }
}

/// Adds `more` to a position in a list of `len`, stopping at the end of it.
fn advance(pos: usize, more: usize, len: usize) -> (r: usize)
    requires
        pos <= len,
    ensures
        r == (if pos + more <= len {
            pos + more
        } else {
            len as int
        }),
{
    if more <= len - pos {
        pos + more
    } else {
        len
    }
}

/// Nothing at or beyond the end of the id list is timed.
proof fn lemma_first_timed_cut(
    id_of_char: Seq<Option<usize>>,
    bounds: Seq<u32>,
    lo: int,
    hi: int,
    cut: int,
)
    requires
        id_of_char.len() <= cut,
    ensures
        lo >= cut ==> first_timed(id_of_char, bounds, lo, hi) is None,
        cut <= hi ==> first_timed(id_of_char, bounds, lo, hi) == first_timed(
            id_of_char,
            bounds,
            lo,
            cut,
        ),
    decreases hi - lo,
{
    if lo < hi {
        lemma_first_timed_cut(id_of_char, bounds, lo + 1, hi, cut);
    }
}

/// Nothing at or beyond the end of the id list is timed.
proof fn lemma_last_timed_cut(
    id_of_char: Seq<Option<usize>>,
    bounds: Seq<u32>,
    lo: int,
    hi: int,
    cut: int,
)
    requires
        id_of_char.len() <= cut,
    ensures
        lo >= cut ==> last_timed(id_of_char, bounds, lo, hi) is None,
        cut <= hi ==> last_timed(id_of_char, bounds, lo, hi) == last_timed(
            id_of_char,
            bounds,
            lo,
            cut,
        ),
    decreases hi - lo,
{
    if lo < hi {
        lemma_last_timed_cut(id_of_char, bounds, lo, hi - 1, cut);
    }
}

/// Whether phoneme character `k` is timed.
fn is_timed(id_of_char: &Vec<Option<usize>>, bounds: &Vec<u32>, k: usize) -> (r: bool)
    requires
        k < id_of_char@.len(),
    ensures
        r == timed(id_of_char@, bounds@, k as int),
{
    match id_of_char[k] {
        Some(id) => bounds.len() >= 3 && id <= bounds.len() - 3,
        None => false,
    }
}

/// The first timed phoneme character in `[lo, hi)`.
fn scan_first(
    id_of_char: &Vec<Option<usize>>,
    bounds: &Vec<u32>,
    lo: usize,
    hi: usize,
) -> (r: Option<usize>)
    requires
        lo <= hi <= id_of_char@.len(),
    ensures
        match r {
            Some(k) => first_timed(id_of_char@, bounds@, lo as int, hi as int) == Some(k as int)
                && lo <= k < hi && timed(id_of_char@, bounds@, k as int),
            None => first_timed(id_of_char@, bounds@, lo as int, hi as int) is None,
        },
{
    let mut k: usize = lo;
    while k < hi
        invariant
            lo <= k <= hi <= id_of_char@.len(),
            first_timed(id_of_char@, bounds@, lo as int, hi as int) == first_timed(
                id_of_char@,
                bounds@,
                k as int,
                hi as int,
            ),
        decreases hi - k,
    {
        if is_timed(id_of_char, bounds, k) {
            return Some(k);
        }
        k = k + 1;
    }
    None
}

/// The last timed phoneme character in `[lo, hi)`.
fn scan_last(
    id_of_char: &Vec<Option<usize>>,
    bounds: &Vec<u32>,
    lo: usize,
    hi: usize,
) -> (r: Option<usize>)
    requires
        lo <= hi <= id_of_char@.len(),
    ensures
        match r {
            Some(k) => last_timed(id_of_char@, bounds@, lo as int, hi as int) == Some(k as int)
                && lo <= k < hi && timed(id_of_char@, bounds@, k as int),
            None => last_timed(id_of_char@, bounds@, lo as int, hi as int) is None,
        },
{
    let mut k: usize = hi;
    while k > lo
        invariant
            lo <= k <= hi <= id_of_char@.len(),
            last_timed(id_of_char@, bounds@, lo as int, hi as int) == last_timed(
                id_of_char@,
                bounds@,
                lo as int,
                k as int,
            ),
        decreases k - lo,
    {
        if is_timed(id_of_char, bounds, k - 1) {
            return Some(k - 1);
        }
        k = k - 1;
    }
    None
}

/// The timings of all pieces. `bounds` holds the moments, in milliseconds, that
/// part the sounds of one id from the next, the pads included.
pub fn time_pieces(
    text: &Vec<char>,
    pieces: &Vec<Piece>,
    id_of_char: &Vec<Option<usize>>,
    bounds: &Vec<u32>,
) -> (words: Vec<WordTiming>)
    ensures
        words@ == words_of(
            text@,
            piece_views(pieces@),
            id_of_char@,
            bounds@,
            pieces@.len() as int,
        ),
{
    let ghost ps = piece_views(pieces@);
    let mut words: Vec<WordTiming> = Vec::new();
    let total: usize = text.len();
    let moments: usize = bounds.len();
    let n: usize = id_of_char.len();
    let mut heard: usize = 0;
    let mut used: usize = 0;
    for i in 0..pieces.len()
        invariant
            ps == piece_views(pieces@),
            total == text@.len(),
            moments == bounds@.len(),
            n == id_of_char@.len(),
            heard == (if sound_start(ps, i as int) <= n {
                sound_start(ps, i as int) as int
            } else {
                n as int
            }),
            used == text_cursor(text@, ps, i as int),
            used <= text@.len(),
            words@ == words_of(text@, ps, id_of_char@, bounds@, i as int),
    {
        let piece: &Piece = &pieces[i];
        assert(ps[i as int] == piece@);
        let stop: usize = advance(heard, piece.sounds, n);
        let ghost lo = sound_start(ps, i as int) as int;
        let ghost hi = lo + ps[i as int].sounds;
        proof {
            lemma_first_timed_cut(id_of_char@, bounds@, lo, hi, n as int);
            lemma_last_timed_cut(id_of_char@, bounds@, lo, hi, n as int);
            lemma_find_from(text@, ps[i as int].text, used as int);
        }
        let found: Option<usize> = find(text, &piece.text, used);
        if let Some(at) = found {
            used = at + piece.text.len();
            if piece.spoken {
                let first: Option<usize> = scan_first(id_of_char, bounds, heard, stop);
                let last: Option<usize> = scan_last(id_of_char, bounds, heard, stop);
                if let (Some(f), Some(l)) = (first, last) {
                    if let (Some(a), Some(b)) = (id_of_char[f], id_of_char[l]) {
                        words.push(
                            WordTiming {
                                start_ms: bounds[a + 1],
                                end_ms: bounds[b + 2],
                                start_char: #[verifier::truncate] (at as u32),
                                end_char: #[verifier::truncate] (used as u32),
                            },
                        );
                    }
                }
            }
        }
        heard = advance(stop, piece.gap, n);
    }
    words
}

/// What timing needs of one token.
fn measure(token: &Token) -> (piece: Piece)
    ensures
        piece@ == piece_of(token@),
{
    let text: Vec<char> = chars_of(token.text.as_str());
    let sounds: usize = match &token.phonemes {
        Some(p) => chars_of(p.as_str()).len(),
        None => 0,
    };
    let gap: usize = chars_of(token.whitespace.as_str()).len();
    let mut spoken: bool = false;
    for k in 0..text.len()
        invariant
            spoken == exists|m: int| 0 <= m < k && unicode_alphanumeric(#[trigger] text@[m]),
    {
        if text[k].is_alphanumeric() {
            spoken = true;
        }
    }
    Piece { text, sounds, gap, spoken }
}

/// The timings of a stretch of speech: none where nothing was spoken.
pub open spec fn timings_of(
    text: Seq<char>,
    tokens: Seq<TokenView>,
    id_of_char: Seq<Option<usize>>,
    bounds: Seq<u32>,
    n_samples: nat,
) -> Seq<WordTiming> {
    if n_samples == 0 {
        Seq::empty()
    } else {
        words_of(text, pieces_of(tokens), id_of_char, bounds, tokens.len() as int)
    }
}

/// Converts the boundaries between phoneme ids into word timings with character
/// offsets into `text`. Without boundaries, or where there is no sound, there
/// are no timings.
pub fn word_timings(
    text: &str,
    tokens: &Vec<Token>,
    id_of_char: &Vec<Option<usize>>,
    bounds: &Vec<u32>,
    n_samples: usize,
) -> (words: Vec<WordTiming>)
    ensures
        words@ == timings_of(
            text@,
            token_views(tokens@),
            id_of_char@,
            bounds@,
            n_samples as nat,
        ),
{
    if n_samples == 0 {
        return Vec::new();
    }
    let mut pieces: Vec<Piece> = Vec::new();
    for i in 0..tokens.len()
        invariant
            piece_views(pieces@) == pieces_of(token_views(tokens@)).take(i as int),
            pieces@.len() == i,
    {
        pieces.push(measure(&tokens[i]));
    }
    assert(piece_views(pieces@) =~= pieces_of(token_views(tokens@)));
    let letters: Vec<char> = chars_of(text);
    time_pieces(&letters, &pieces, id_of_char, bounds)
}

/// The first timed character is timed, lies in the span, and comes before every
/// other timed one of the span.
proof fn lemma_first_timed(id_of_char: Seq<Option<usize>>, bounds: Seq<u32>, lo: int, hi: int)
    ensures
        first_timed(id_of_char, bounds, lo, hi) matches Some(f) ==> lo <= f < hi && timed(
            id_of_char,
            bounds,
            f,
        ),
        forall|k: int|
            lo <= k < hi && #[trigger] timed(id_of_char, bounds, k) ==> first_timed(
                id_of_char,
                bounds,
                lo,
                hi,
            ) is Some && first_timed(id_of_char, bounds, lo, hi)->0 <= k,
    decreases hi - lo,
{
    if lo < hi {
        lemma_first_timed(id_of_char, bounds, lo + 1, hi);
    }
}

/// The last timed character is timed, lies in the span, and comes after every
/// other timed one of the span.
proof fn lemma_last_timed(id_of_char: Seq<Option<usize>>, bounds: Seq<u32>, lo: int, hi: int)
    ensures
        last_timed(id_of_char, bounds, lo, hi) matches Some(l) ==> lo <= l < hi && timed(
            id_of_char,
            bounds,
            l,
        ),
        forall|k: int|
            lo <= k < hi && #[trigger] timed(id_of_char, bounds, k) ==> last_timed(
                id_of_char,
                bounds,
                lo,
                hi,
            ) is Some && last_timed(id_of_char, bounds, lo, hi)->0 >= k,
    decreases hi - lo,
{
    if lo < hi {
        lemma_last_timed(id_of_char, bounds, lo, hi - 1);
    }
}

/// The pieces with a timing come in the order of the text.
proof fn lemma_timed_pieces(
    text: Seq<char>,
    ps: Seq<PieceView>,
    id_of_char: Seq<Option<usize>>,
    bounds: Seq<u32>,
    n: int,
)
    ensures
        ({
            let at = timed_pieces(text, ps, id_of_char, bounds, n);
            &&& forall|a: int|
                0 <= a < at.len() ==> 0 <= #[trigger] at[a] < n && word_of(
                    text,
                    ps,
                    id_of_char,
                    bounds,
                    at[a],
                ) is Some
            &&& forall|a: int, b: int| 0 <= a < b < at.len() ==> #[trigger] at[a] < #[trigger] at[b]
        }),
    decreases n,
{
    if n > 0 {
        lemma_timed_pieces(text, ps, id_of_char, bounds, n - 1);
    }
}

/// What an earlier piece used up lies before a later piece's part of the text.
proof fn lemma_cursor_grows(text: Seq<char>, ps: Seq<PieceView>, i: int, j: int)
    requires
        i <= j,
    ensures
        text_cursor(text, ps, i) <= text_cursor(text, ps, j),
    decreases j - i,
{
    if i < j {
        lemma_cursor_grows(text, ps, i, j - 1);
        lemma_text_cursor(text, ps, j);
    }
}

/// Later pieces sound later.
proof fn lemma_sound_start_grows(ps: Seq<PieceView>, i: int, j: int)
    requires
        0 <= i < j,
    ensures
        sound_start(ps, i) + ps[i].sounds <= sound_start(ps, j),
    decreases j - i,
{
    if i < j - 1 {
        lemma_sound_start_grows(ps, i, j - 1);
    }
}

/// Every timing points at the characters of the word it times: its offsets lie
/// inside the text, in order, and cut out exactly that word. Timings come in
/// the order of the text and do not overlap.
pub proof fn law_offsets_cut_out_the_words(
    text: Seq<char>,
    ps: Seq<PieceView>,
    id_of_char: Seq<Option<usize>>,
    bounds: Seq<u32>,
)
    requires
        text.len() <= u32::MAX,
        forall|i: int| 0 <= i < ps.len() && (#[trigger] ps[i]).spoken ==> ps[i].text.len() > 0,
    ensures
        ({
            let at = timed_pieces(text, ps, id_of_char, bounds, ps.len() as int);
            let words = words_of(text, ps, id_of_char, bounds, ps.len() as int);
            &&& words.len() == at.len()
            &&& forall|a: int|
                0 <= a < words.len() ==> {
                    let w = #[trigger] words[a];
                    &&& 0 <= at[a] < ps.len()
                    &&& ps[at[a]].spoken
                    &&& w.start_char < w.end_char <= text.len()
                    &&& text.subrange(w.start_char as int, w.end_char as int) == ps[at[a]].text
                }
            &&& forall|a: int, b: int|
                0 <= a < b < words.len() ==> (#[trigger] words[a]).end_char <= (
                #[trigger] words[b]).start_char
        }),
{
    let n = ps.len() as int;
    let at = timed_pieces(text, ps, id_of_char, bounds, n);
    let words = words_of(text, ps, id_of_char, bounds, n);
    lemma_timed_pieces(text, ps, id_of_char, bounds, n);
    assert forall|a: int| 0 <= a < words.len() implies {
        let w = #[trigger] words[a];
        &&& 0 <= at[a] < ps.len()
        &&& ps[at[a]].spoken
        &&& w.start_char < w.end_char <= text.len()
        &&& text.subrange(w.start_char as int, w.end_char as int) == ps[at[a]].text
        &&& text_cursor(text, ps, at[a]) <= w.start_char
        &&& w.end_char == text_cursor(text, ps, at[a] + 1)
    } by {
        let i = at[a];
        lemma_text_cursor(text, ps, i);
        lemma_find_from(text, ps[i].text, text_cursor(text, ps, i));
    }
    assert forall|a: int, b: int| 0 <= a < b < words.len() implies (#[trigger] words[a]).end_char
        <= (#[trigger] words[b]).start_char by {
        lemma_cursor_grows(text, ps, at[a] + 1, at[b]);
    }
}

/// With boundaries in order and ids given out in order, no word ends before it
/// starts, and a word ends before the next one starts.
pub proof fn law_words_follow_each_other(
    text: Seq<char>,
    ps: Seq<PieceView>,
    id_of_char: Seq<Option<usize>>,
    bounds: Seq<u32>,
)
    requires
        forall|x: int, y: int|
            0 <= x <= y < bounds.len() ==> #[trigger] bounds[x] <= #[trigger] bounds[y],
        forall|k: int, l: int|
            0 <= k < l < id_of_char.len() && (#[trigger] id_of_char[k]) is Some && (
            #[trigger] id_of_char[l]) is Some ==> id_of_char[k]->0 < id_of_char[l]->0,
    ensures
        ({
            let words = words_of(text, ps, id_of_char, bounds, ps.len() as int);
            &&& forall|a: int|
                0 <= a < words.len() ==> (#[trigger] words[a]).start_ms <= words[a].end_ms
            &&& forall|a: int, b: int|
                0 <= a < b < words.len() ==> (#[trigger] words[a]).end_ms <= (
                #[trigger] words[b]).start_ms
        }),
{
    let n = ps.len() as int;
    let at = timed_pieces(text, ps, id_of_char, bounds, n);
    let words = words_of(text, ps, id_of_char, bounds, n);
    lemma_timed_pieces(text, ps, id_of_char, bounds, n);
    assert forall|a: int| 0 <= a < words.len() implies (#[trigger] words[a]).start_ms
        <= words[a].end_ms by {
        let i = at[a];
        let lo = sound_start(ps, i) as int;
        let hi = lo + ps[i].sounds;
        lemma_first_timed(id_of_char, bounds, lo, hi);
        lemma_last_timed(id_of_char, bounds, lo, hi);
        let f = first_timed(id_of_char, bounds, lo, hi)->0;
        let l = last_timed(id_of_char, bounds, lo, hi)->0;
        assert(f <= l);
        assert(id_of_char[f]->0 <= id_of_char[l]->0);
        assert(bounds[id_of_char[f]->0 + 1] <= bounds[id_of_char[l]->0 + 2]);
    }
    assert forall|a: int, b: int| 0 <= a < b < words.len() implies (#[trigger] words[a]).end_ms
        <= (#[trigger] words[b]).start_ms by {
        let i = at[a];
        let j = at[b];
        let lo = sound_start(ps, i) as int;
        let hi = lo + ps[i].sounds;
        let lo2 = sound_start(ps, j) as int;
        let hi2 = lo2 + ps[j].sounds;
        lemma_sound_start_grows(ps, i, j);
        lemma_last_timed(id_of_char, bounds, lo, hi);
        lemma_first_timed(id_of_char, bounds, lo2, hi2);
        let l = last_timed(id_of_char, bounds, lo, hi)->0;
        let f = first_timed(id_of_char, bounds, lo2, hi2)->0;
        assert(id_of_char[l]->0 < id_of_char[f]->0);
        assert(bounds[id_of_char[l]->0 + 2] <= bounds[id_of_char[f]->0 + 1]);
    }
}

/// The pieces stand in the text one after the other, without overlap.
pub open spec fn stand_in_order(text: Seq<char>, ps: Seq<PieceView>) -> bool {
    exists|at: Seq<int>| #[trigger] stand_at(text, ps, at)
}

/// `at` gives a place for each piece, each after the one before.
pub open spec fn stand_at(text: Seq<char>, ps: Seq<PieceView>, at: Seq<int>) -> bool {
    &&& at.len() == ps.len()
    &&& forall|i: int| 0 <= i < ps.len() ==> stands_at(text, ps[i].text, #[trigger] at[i])
    &&& forall|i: int, j: int|
        0 <= i < j < ps.len() ==> #[trigger] at[i] + ps[i].text.len() <= #[trigger] at[j]
}

/// Searching piece by piece never overtakes the places where the pieces stand.
proof fn lemma_cursor_stays_behind(
    text: Seq<char>,
    ps: Seq<PieceView>,
    at: Seq<int>,
    i: int,
)
    requires
        stand_at(text, ps, at),
        0 <= i < ps.len(),
    ensures
        text_cursor(text, ps, i) <= at[i],
        located(text, ps, i) is Some,
        located(text, ps, i)->0 <= at[i],
    decreases i,
{
    if i > 0 {
        lemma_cursor_stays_behind(text, ps, at, i - 1);
    }
    lemma_text_cursor(text, ps, i);
    lemma_find_from(text, ps[i].text, text_cursor(text, ps, i));
    assert(stands_at(text, ps[i].text, at[i]));
}

/// Where the pieces stand in the text in order, every word of which something
/// is heard gets a timing, and nothing else does.
pub proof fn law_every_heard_word_is_timed(
    text: Seq<char>,
    ps: Seq<PieceView>,
    id_of_char: Seq<Option<usize>>,
    bounds: Seq<u32>,
    i: int,
)
    requires
        stand_in_order(text, ps),
        0 <= i < ps.len(),
    ensures
        word_of(text, ps, id_of_char, bounds, i) is Some <==> ps[i].spoken && exists|k: int|
            sound_start(ps, i) <= k < sound_start(ps, i) + ps[i].sounds && #[trigger] timed(
                id_of_char,
                bounds,
                k,
            ),
        timed_pieces(text, ps, id_of_char, bounds, ps.len() as int).contains(i) <==> word_of(
            text,
            ps,
            id_of_char,
            bounds,
            i,
        ) is Some,
{
    let at = choose|at: Seq<int>| #[trigger] stand_at(text, ps, at);
    lemma_cursor_stays_behind(text, ps, at, i);
    let lo = sound_start(ps, i) as int;
    let hi = lo + ps[i].sounds;
    lemma_first_timed(id_of_char, bounds, lo, hi);
    lemma_last_timed(id_of_char, bounds, lo, hi);
    lemma_timed_pieces_complete(text, ps, id_of_char, bounds, ps.len() as int, i);
}

/// A piece is listed when it has a timing, and only then.
proof fn lemma_timed_pieces_complete(
    text: Seq<char>,
    ps: Seq<PieceView>,
    id_of_char: Seq<Option<usize>>,
    bounds: Seq<u32>,
    n: int,
    i: int,
)
    requires
        0 <= i < n,
    ensures
        timed_pieces(text, ps, id_of_char, bounds, n).contains(i) <==> word_of(
            text,
            ps,
            id_of_char,
            bounds,
            i,
        ) is Some,
    decreases n,
{
    lemma_timed_pieces(text, ps, id_of_char, bounds, n);
    let all = timed_pieces(text, ps, id_of_char, bounds, n);
    let before = timed_pieces(text, ps, id_of_char, bounds, n - 1);
    if i < n - 1 {
        lemma_timed_pieces_complete(text, ps, id_of_char, bounds, n - 1, i);
        if before.contains(i) {
            let k = choose|k: int| 0 <= k < before.len() && before[k] == i;
            assert(all[k] == i);
        }
    } else if word_of(text, ps, id_of_char, bounds, i) is Some {
        assert(all[all.len() - 1] == i);
    }
}

/// Without boundaries there are no timings.
pub proof fn law_no_boundaries_no_words(
    text: Seq<char>,
    ps: Seq<PieceView>,
    id_of_char: Seq<Option<usize>>,
    bounds: Seq<u32>,
)
    requires
        bounds.len() < 3,
    ensures
        words_of(text, ps, id_of_char, bounds, ps.len() as int).len() == 0,
{
    let n = ps.len() as int;
    lemma_timed_pieces(text, ps, id_of_char, bounds, n);
    let at = timed_pieces(text, ps, id_of_char, bounds, n);
    if at.len() > 0 {
        let i = at[0];
        let lo = sound_start(ps, i) as int;
        lemma_first_timed(id_of_char, bounds, lo, lo + ps[i].sounds);
    }
}

/// `cur[i]` is how far the text is used up before piece `i`. A piece is looked for
/// from there on; the first place where it stands is taken, and used up with all
/// before it. One that stands nowhere there uses up nothing.
pub open spec fn walks_the_text(text: Seq<char>, ps: Seq<PieceView>, cur: Seq<int>) -> bool {
    &&& cur.len() == ps.len() + 1
    &&& cur[0] == 0
    &&& forall|i: int|
        0 <= i < ps.len() ==> takes_first_place(text, (#[trigger] ps[i]).text, cur[i], cur[i + 1])
}

/// From `before` on, a piece is found at the first place where it stands, and the
/// text used up to `after`; or it stands nowhere, and nothing is used up.
pub open spec fn takes_first_place(
    text: Seq<char>,
    pat: Seq<char>,
    before: int,
    after: int,
) -> bool {
    ||| {
        &&& before <= after - pat.len()
        &&& stands_at(text, pat, after - pat.len())
        &&& forall|q: int| before <= q && #[trigger] stands_at(text, pat, q) ==> after - pat.len()
            <= q
    }
    ||| {
        &&& after == before
        &&& forall|q: int| before <= q ==> !#[trigger] stands_at(text, pat, q)
    }
}

/// `son[i]` is where the phonemes of piece `i` begin: each piece takes its own and
/// those of the gap behind it.
pub open spec fn walks_the_sounds(ps: Seq<PieceView>, son: Seq<int>) -> bool {
    &&& son.len() == ps.len() + 1
    &&& son[0] == 0
    &&& forall|i: int|
        0 <= i < ps.len() ==> son[i + 1] == son[i] + (#[trigger] ps[i]).sounds + ps[i].gap
}

/// Phoneme character `k` has an id, and both moments of that id are known.
pub open spec fn has_moments(index: Seq<Option<usize>>, bounds: Seq<u32>, k: int) -> bool {
    0 <= k < index.len() && index[k] is Some && index[k]->0 + 2 < bounds.len()
}

/// `f` and `l` are the first and the last phoneme character in `[lo, hi)` whose
/// moments are known.
pub open spec fn are_ends(
    index: Seq<Option<usize>>,
    bounds: Seq<u32>,
    lo: int,
    hi: int,
    f: int,
    l: int,
) -> bool {
    &&& lo <= f <= l < hi
    &&& has_moments(index, bounds, f)
    &&& has_moments(index, bounds, l)
    &&& forall|k: int| lo <= k < hi && #[trigger] has_moments(index, bounds, k) ==> f <= k <= l
}

/// What is told of every piece, of any length. A piece is timed exactly when it is
/// a word, stands in what is left of the text, and has a sound whose moments are
/// known. It then starts with the first such sound of it and ends with the last,
/// and names the characters where it stands. Words come in the order of the pieces.
pub proof fn law_words_are_told_as_they_are_heard(
    text: Seq<char>,
    ps: Seq<PieceView>,
    index: Seq<Option<usize>>,
    bounds: Seq<u32>,
    cur: Seq<int>,
    son: Seq<int>,
    i: int,
    a: int,
    b: int,
)
    requires
        walks_the_text(text, ps, cur),
        walks_the_sounds(ps, son),
        0 <= i < ps.len(),
    ensures
        ({
            let n = ps.len() as int;
            let words = words_of(text, ps, index, bounds, n);
            let at = timed_pieces(text, ps, index, bounds, n);
            &&& words.len() == at.len()
            &&& at.contains(i) <==> {
                &&& ps[i].spoken
                &&& exists|q: int| cur[i] <= q && #[trigger] stands_at(text, ps[i].text, q)
                &&& exists|k: int|
                    son[i] <= k < son[i] + ps[i].sounds && #[trigger] has_moments(index, bounds, k)
            }
            &&& 0 <= a < words.len() ==> 0 <= at[a] < n
            &&& 0 <= a < b < words.len() ==> at[a] < at[b]
            &&& 0 <= a < words.len() && at[a] == i ==> {
                &&& words[a].start_char == (cur[i + 1] - ps[i].text.len()) as u32
                &&& words[a].end_char == cur[i + 1] as u32
                &&& exists|f: int, l: int|
                    #[trigger] are_ends(index, bounds, son[i], son[i] + ps[i].sounds, f, l)
                        && words[a].start_ms == bounds[index[f]->0 + 1] && words[a].end_ms
                        == bounds[index[l]->0 + 2]
            }
        }),
{
    let n = ps.len() as int;
    let words = words_of(text, ps, index, bounds, n);
    let at = timed_pieces(text, ps, index, bounds, n);
    lemma_walks(text, ps, cur, son, i);
    lemma_walks(text, ps, cur, son, i + 1);
    lemma_timed_pieces(text, ps, index, bounds, n);
    lemma_timed_pieces_complete(text, ps, index, bounds, n, i);
    lemma_text_cursor(text, ps, i);
    lemma_find_from(text, ps[i].text, cur[i]);
    let lo = son[i];
    let hi = lo + ps[i].sounds;
    lemma_first_timed(index, bounds, lo, hi);
    lemma_last_timed(index, bounds, lo, hi);
    assert forall|k: int| #[trigger] has_moments(index, bounds, k) == timed(index, bounds, k) by {}
    assert forall|k: int| #[trigger] timed(index, bounds, k) == has_moments(index, bounds, k) by {}
    if word_of(text, ps, index, bounds, i) is Some {
        let f = first_timed(index, bounds, lo, hi)->0;
        let l = last_timed(index, bounds, lo, hi)->0;
        assert(has_moments(index, bounds, f) && has_moments(index, bounds, l));
        assert(are_ends(index, bounds, lo, hi, f, l));
        assert(stands_at(text, ps[i].text, located(text, ps, i)->0));
    }
}

/// The walks are those that the timings go by.
proof fn lemma_walks(
    text: Seq<char>,
    ps: Seq<PieceView>,
    cur: Seq<int>,
    son: Seq<int>,
    i: int,
)
    requires
        walks_the_text(text, ps, cur),
        walks_the_sounds(ps, son),
        0 <= i <= ps.len(),
    ensures
        cur[i] == text_cursor(text, ps, i),
        son[i] == sound_start(ps, i),
    decreases i,
{
    if i > 0 {
        lemma_walks(text, ps, cur, son, i - 1);
        lemma_text_cursor(text, ps, i - 1);
        let pat = ps[i - 1].text;
        lemma_find_from(text, pat, cur[i - 1]);
        assert(takes_first_place(text, pat, cur[i - 1], cur[i - 1 + 1]));
        assert(son[i - 1 + 1] == son[i - 1] + ps[i - 1].sounds + ps[i - 1].gap);
        if let Some(p) = find_from(text, pat, cur[i - 1]) {
            assert(stands_at(text, pat, p));
        }
    }
}

/// A word lasts over all of its sounds: none whose moments are known starts before
/// it or ends after it, where the moments are in order and ids are given in order.
pub proof fn law_a_word_lasts_over_its_sounds(
    text: Seq<char>,
    ps: Seq<PieceView>,
    index: Seq<Option<usize>>,
    bounds: Seq<u32>,
    son: Seq<int>,
    a: int,
    k: int,
)
    requires
        walks_the_sounds(ps, son),
        forall|x: int, y: int|
            0 <= x <= y < bounds.len() ==> #[trigger] bounds[x] <= #[trigger] bounds[y],
        forall|x: int, y: int|
            0 <= x < y < index.len() && (#[trigger] index[x]) is Some && (
            #[trigger] index[y]) is Some ==> index[x]->0 < index[y]->0,
        0 <= a < words_of(text, ps, index, bounds, ps.len() as int).len(),
    ensures
        ({
            let w = words_of(text, ps, index, bounds, ps.len() as int)[a];
            let i = timed_pieces(text, ps, index, bounds, ps.len() as int)[a];
            0 <= i < ps.len() && (son[i] <= k < son[i] + ps[i].sounds && has_moments(
                index,
                bounds,
                k,
            ) ==> w.start_ms <= bounds[index[k]->0 + 1] && bounds[index[k]->0 + 2] <= w.end_ms)
        }),
{
    let n = ps.len() as int;
    let i = timed_pieces(text, ps, index, bounds, n)[a];
    lemma_timed_pieces(text, ps, index, bounds, n);
    lemma_sound_walk(ps, son, i);
    let lo = son[i];
    let hi = lo + ps[i].sounds;
    lemma_first_timed(index, bounds, lo, hi);
    lemma_last_timed(index, bounds, lo, hi);
    if lo <= k < hi && has_moments(index, bounds, k) {
        assert(timed(index, bounds, k));
        let f = first_timed(index, bounds, lo, hi)->0;
        let l = last_timed(index, bounds, lo, hi)->0;
        assert(index[f]->0 <= index[k]->0 && index[k]->0 <= index[l]->0);
        assert(bounds[index[f]->0 + 1] <= bounds[index[k]->0 + 1]);
        assert(bounds[index[k]->0 + 2] <= bounds[index[l]->0 + 2]);
    }
}

/// The walk through the phonemes is the one that the timings go by.
proof fn lemma_sound_walk(ps: Seq<PieceView>, son: Seq<int>, i: int)
    requires
        walks_the_sounds(ps, son),
        0 <= i <= ps.len(),
    ensures
        son[i] == sound_start(ps, i),
    decreases i,
{
    if i > 0 {
        lemma_sound_walk(ps, son, i - 1);
        assert(son[i - 1 + 1] == son[i - 1] + ps[i - 1].sounds + ps[i - 1].gap);
    }
}

/// Timing sees a token whole: its own text, all of its phoneme characters, all of
/// the white space behind it, and whether a letter or digit is in it.
pub proof fn law_tokens_are_measured_whole(tokens: Seq<TokenView>, i: int, k: int)
    requires
        0 <= i < tokens.len(),
    ensures
        pieces_of(tokens).len() == tokens.len(),
        pieces_of(tokens)[i].text == tokens[i].text,
        tokens[i].phonemes is None ==> pieces_of(tokens)[i].sounds == 0,
        tokens[i].phonemes matches Some(p) ==> pieces_of(tokens)[i].sounds == p.len(),
        pieces_of(tokens)[i].gap == tokens[i].whitespace.len(),
        0 <= k < tokens[i].text.len() && unicode_alphanumeric(tokens[i].text[k])
            ==> pieces_of(tokens)[i].spoken,
        pieces_of(tokens)[i].spoken ==> exists|m: int|
            0 <= m < tokens[i].text.len() && unicode_alphanumeric(#[trigger] tokens[i].text[m]),
{
}

/// Speech has the timings of its tokens where there is a sample, and none where
/// there is none.
pub proof fn law_timings_need_a_sound(
    text: Seq<char>,
    tokens: Seq<TokenView>,
    index: Seq<Option<usize>>,
    bounds: Seq<u32>,
    n_samples: nat,
)
    ensures
        n_samples == 0 ==> timings_of(text, tokens, index, bounds, n_samples).len() == 0,
        n_samples > 0 ==> timings_of(text, tokens, index, bounds, n_samples) == words_of(
            text,
            pieces_of(tokens),
            index,
            bounds,
            pieces_of(tokens).len() as int,
        ),
{
}

/// The contents of tokens and pieces are all of their fields, in their places.
pub proof fn law_contents_are_whole(tokens: Seq<Token>, pieces: Seq<Piece>, i: int)
    ensures
        token_views(tokens).len() == tokens.len(),
        piece_views(pieces).len() == pieces.len(),
        0 <= i < tokens.len() ==> {
            let t = token_views(tokens)[i];
            &&& t.text == tokens[i].text@
            &&& t.whitespace == tokens[i].whitespace@
            &&& t.phonemes is Some <==> tokens[i].phonemes is Some
            &&& tokens[i].phonemes matches Some(p) ==> t.phonemes == Some(p@)
        },
        0 <= i < pieces.len() ==> {
            let p = piece_views(pieces)[i];
            &&& p.text == pieces[i].text@
            &&& p.sounds == pieces[i].sounds
            &&& p.gap == pieces[i].gap
            &&& p.spoken == pieces[i].spoken
        },
{
}

} // verus!
