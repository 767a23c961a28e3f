//! Turning book prose into text that reads well aloud.
//!
//! Typographic apostrophes become straight ones, and words set in capitals for
//! style are written in lower case so that they are not spelled out. Every
//! character keeps its place, so an offset into the result is an offset into
//! the prose.

use vstd::prelude::*;

use crate::chars::{chars_of, string_of};

verus! {

/// The straight apostrophe for a typographic one; any other character itself.
pub open spec fn straight(c: char) -> char {
    if c == '\u{2018}' || c == '\u{2019}' || c == '\u{02BC}' {
        '\''
    } else {
        c
    }
}

/// An ASCII capital letter.
pub open spec fn is_capital(c: char) -> bool {
    'A' <= c && c <= 'Z'
}

/// A character that a run of capitals may hold: a capital or an apostrophe.
pub open spec fn in_run(c: char) -> bool {
    is_capital(c) || c == '\''
}

/// The ASCII lower case of a character.
pub open spec fn lower(c: char) -> char {
    if is_capital(c) {
        (c as u32 + 32) as char
    } else {
        c
    }
}

/// `[i, j)` is a run of capitals: it starts at a capital, holds capitals and
/// apostrophes only, cannot be continued, and no capital stands before it in
/// the same unbroken stretch.
pub open spec fn caps_run(s: Seq<char>, i: int, j: int) -> bool {
    &&& 0 <= i < j <= s.len()
    &&& is_capital(s[i])
    &&& forall|k: int| i <= k < j ==> in_run(#[trigger] s[k])
    &&& j == s.len() || !in_run(s[j])
    &&& stretch_starts(s, i)
}

/// No capital is joined to position `i` from the left.
pub open spec fn stretch_starts(s: Seq<char>, i: int) -> bool {
    forall|b: int|
        0 <= b < i && is_capital(#[trigger] s[b]) ==> exists|m: int|
            b < m < i && !in_run(#[trigger] s[m])
}

/// A run that is a word set in capitals: at least two of them, and no letter
/// touches the run on either side. `letter[k]` tells whether `s[k]` is a letter.
pub open spec fn shouted(s: Seq<char>, letter: Seq<bool>, i: int, j: int) -> bool {
    &&& caps_run(s, i, j)
    &&& exists|k: int| i < k < j && is_capital(#[trigger] s[k])
    &&& i == 0 || !letter[i - 1]
    &&& j == s.len() || !letter[j]
}

/// Position `k` lies in a word set in capitals.
pub open spec fn shouting_at(s: Seq<char>, letter: Seq<bool>, k: int) -> bool {
    exists|i: int, j: int| #[trigger] shouted(s, letter, i, j) && i <= k < j
}

/// The text with every word set in capitals written in lower case.
pub open spec fn calmed(s: Seq<char>, letter: Seq<bool>) -> Seq<char> {
    Seq::new(
        s.len(),
        |k: int|
            if shouting_at(s, letter, k) {
                lower(s[k])
            } else {
                s[k]
            },
    )
}

/// The text with its apostrophes straightened.
pub open spec fn straightened(s: Seq<char>) -> Seq<char> {
    s.map_values(|c: char| straight(c))
}

/// Which characters of a text are letters.
pub open spec fn letters(s: Seq<char>) -> Seq<bool> {
    s.map_values(|c: char| crate::chars::is_letter(c))
}

/// What is read aloud for a text.
pub open spec fn speakable(s: Seq<char>) -> Seq<char> {
    calmed(straightened(s), letters(straightened(s)))
}

/// Two runs that share a position are the same run.
proof fn lemma_run_unique(s: Seq<char>, a: int, b: int, i: int, j: int, k: int)
    requires
        caps_run(s, a, b),
        caps_run(s, i, j),
        a <= k < b,
        i <= k < j,
    ensures
        a == i,
        b == j,
{
    if a < i {
        assert(is_capital(s[a]));
        let m = choose|m: int| a < m < i && !in_run(#[trigger] s[m]);
        assert(in_run(s[m]));
    }
    if i < a {
        assert(is_capital(s[i]));
        let m = choose|m: int| i < m < a && !in_run(#[trigger] s[m]);
        assert(in_run(s[m]));
    }
    if b < j {
        assert(in_run(s[b]));
    }
    if j < b {
        assert(in_run(s[j]));
    }
}

/// The ASCII lower case of a capital letter, and any other character itself.
pub fn lower_char(c: char) -> (r: char)
    ensures
        r == lower(c),
{
    if 'A' <= c && c <= 'Z' {
        ((c as u8) + 32) as char
    } else {
        c
    }
}

/// Writes every word set in capitals in lower case, where `letter` tells which
/// characters are letters.
pub fn calm(chars: &Vec<char>, letter: &Vec<bool>) -> (out: Vec<char>)
    requires
        letter@.len() == chars@.len(),
    ensures
        out@ == calmed(chars@, letter@),
{
    let n: usize = chars.len();
    let mut out: Vec<char> = Vec::new();
    let mut i: usize = 0;
    while i < n
        invariant
            n == chars@.len(),
            letter@.len() == n,
            i <= n,
            out@ == calmed(chars@, letter@).take(i as int),
            i == n || stretch_starts(chars@, i as int) || !in_run(chars@[i as int]),
        decreases n - i,
    {
        if !('A' <= chars[i] && chars[i] <= 'Z') {
            out.push(chars[i]);
            i = i + 1;
            proof {
                if i < n {
                    assert forall|b: int| 0 <= b < i && is_capital(#[trigger] chars@[b]) implies exists|
                        m: int,
                    | b < m < i && !in_run(#[trigger] chars@[m]) by {
                        if in_run(chars@[i - 1]) {
                            let m = choose|m: int| b < m < i - 1 && !in_run(#[trigger] chars@[m]);
                            assert(!in_run(chars@[m]));
                        } else {
                            assert(!in_run(chars@[i - 1]));
                        }
                    }
                }
            }
            continue ;
        }
        let mut j: usize = i + 1;
        let mut many: bool = false;
        while j < n && (('A' <= chars[j] && chars[j] <= 'Z') || chars[j] == '\'')
            invariant
                n == chars@.len(),
                i < j <= n,
                is_capital(chars@[i as int]),
                forall|k: int| i <= k < j ==> in_run(#[trigger] chars@[k]),
                many == exists|k: int| i < k < j && is_capital(#[trigger] chars@[k]),
            decreases n - j,
        {
            if chars[j] != '\'' {
                many = true;
            }
            j = j + 1;
            assert(many == exists|k: int| i < k < j && is_capital(#[trigger] chars@[k])) by {
                if is_capital(chars@[j - 1]) {
                } else if exists|k: int| i < k < j && is_capital(#[trigger] chars@[k]) {
                    let k = choose|k: int| i < k < j && is_capital(#[trigger] chars@[k]);
                    assert(i < k < j - 1);
                }
            }
        }
        assert(caps_run(chars@, i as int, j as int));
        let before: bool = i == 0 || !letter[i - 1];
        let after: bool = j >= n || !letter[j];
        let loud: bool = many && before && after;
        assert(loud == shouted(chars@, letter@, i as int, j as int));
        let mut k: usize = i;
        while k < j
            invariant
                n == chars@.len(),
                i <= k <= j <= n,
                caps_run(chars@, i as int, j as int),
                loud == shouted(chars@, letter@, i as int, j as int),
                out@ == calmed(chars@, letter@).take(k as int),
            decreases j - k,
        {
            proof {
                if shouting_at(chars@, letter@, k as int) {
                    let (a, b) = choose|a: int, b: int| #[trigger]
                        shouted(chars@, letter@, a, b) && a <= k < b;
                    lemma_run_unique(chars@, a, b, i as int, j as int, k as int);
                }
            }
            if loud {
                out.push(lower_char(chars[k]));
            } else {
                out.push(chars[k]);
            }
            k = k + 1;
        }
        i = j;
    }
    out
}

/// The text as it is spoken: straight apostrophes, and words set in capitals in
/// lower case. Single capitals and capitals inside a word stay as they are.
pub fn speakable_text(text: &str) -> (r: String)
    ensures
        r@ == speakable(text@),
{
    let raw: Vec<char> = chars_of(text);
    let mut plain: Vec<char> = Vec::new();
    let mut letter: Vec<bool> = Vec::new();
    for k in 0..raw.len()
        invariant
            raw@ == text@,
            plain@ == straightened(text@).take(k as int),
            letter@ == letters(straightened(text@)).take(k as int),
    {
        let c: char = raw[k];
        let d: char = if c == '\u{2018}' || c == '\u{2019}' || c == '\u{02BC}' {
            '\''
        } else {
            c
        };
        plain.push(d);
        letter.push(d.is_alphabetic());
    }
    assert(plain@ == straightened(text@));
    assert(letter@ == letters(straightened(text@)));
    let out: Vec<char> = calm(&plain, &letter);
    string_of(&out)
}

/// What is spoken has a character for each character of the text, and each is
/// the straightened character or its lower case. In particular, a character
/// that is neither a capital nor a typographic apostrophe is spoken as written.
pub proof fn law_offsets_are_kept(s: Seq<char>)
    ensures
        speakable(s).len() == s.len(),
        forall|k: int|
            0 <= k < s.len() ==> {
                ||| #[trigger] speakable(s)[k] == straight(s[k])
                ||| speakable(s)[k] == lower(straight(s[k]))
            },
        forall|k: int|
            0 <= k < s.len() && !is_capital(s[k]) && straight(s[k]) == s[k]
                ==> #[trigger] speakable(s)[k] == s[k],
{
}

/// Text that is already in its spoken form is spoken unchanged.
pub proof fn law_speakable_is_stable(s: Seq<char>)
    ensures
        speakable(speakable(s)) == speakable(s),
{
    let p = straightened(s);
    let t = speakable(s);
    assert(straightened(t) =~= t) by {
        assert forall|k: int| 0 <= k < t.len() implies straight(#[trigger] t[k]) == t[k] by {
            lemma_lower_is_no_capital(p[k]);
        }
    }
    assert forall|k: int| 0 <= k < t.len() implies #[trigger] speakable(t)[k] == t[k] by {
        if shouting_at(t, letters(t), k) {
            let (i, j) = choose|i: int, j: int| #[trigger]
                shouted(t, letters(t), i, j) && i <= k < j;
            lemma_nothing_left_to_calm(p, i, j);
        }
    }
    assert(speakable(t) =~= t);
}

/// Calming goes by runs. Take a run `[a, j)` that starts at a capital, holds only
/// capitals and straight apostrophes, ends where neither follows, and is joined to
/// no capital before it: `b` is where the apostrophes before it begin. Each
/// capital of it is lowered where it holds two and no letter stands on either
/// side, whatever its length, and stays otherwise.
pub proof fn law_calm_goes_by_runs(
    p: Seq<char>,
    letter: Seq<bool>,
    b: int,
    a: int,
    j: int,
    k: int,
)
    requires
        0 <= b <= a <= k < j <= p.len(),
        forall|m: int| b <= m < a ==> #[trigger] p[m] == '\'',
        forall|m: int|
            a <= m < j ==> ('A' <= #[trigger] p[m] && p[m] <= 'Z') || p[m] == '\'',
        'A' <= p[a] && p[a] <= 'Z',
        b > 0 ==> !('A' <= p[b - 1] && p[b - 1] <= 'Z') && p[b - 1] != '\'',
        j < p.len() ==> !('A' <= p[j] && p[j] <= 'Z') && p[j] != '\'',
    ensures
        calmed(p, letter).len() == p.len(),
        ({
            let loud = (exists|y: int| a < y < j && 'A' <= #[trigger] p[y] && p[y] <= 'Z') && (a
                == 0 || !letter[a - 1]) && (j == p.len() || !letter[j]);
            calmed(p, letter)[k] == if loud && p[k] != '\'' {
                (p[k] as u32 + 32) as char
            } else {
                p[k]
            }
        }),
{
    assert(stretch_starts(p, a)) by {
        assert forall|x: int| 0 <= x < a && is_capital(#[trigger] p[x]) implies exists|m: int|
            x < m < a && !in_run(#[trigger] p[m]) by {
            assert(x < b);
            assert(!in_run(p[b - 1]));
        }
    }
    assert forall|m: int| a <= m < j implies in_run(#[trigger] p[m]) by {}
    assert(caps_run(p, a, j));
    assert((exists|y: int| a < y < j && 'A' <= #[trigger] p[y] && p[y] <= 'Z') == (exists|y: int|
        a < y < j && is_capital(#[trigger] p[y]))) by {
        if exists|y: int| a < y < j && is_capital(#[trigger] p[y]) {
            let y = choose|y: int| a < y < j && is_capital(#[trigger] p[y]);
            assert('A' <= p[y] && p[y] <= 'Z');
        }
        if exists|y: int| a < y < j && 'A' <= #[trigger] p[y] && p[y] <= 'Z' {
            let y = choose|y: int| a < y < j && 'A' <= #[trigger] p[y] && p[y] <= 'Z';
            assert(is_capital(p[y]));
        }
    }
    if shouting_at(p, letter, k) {
        let (c, d) = choose|c: int, d: int| #[trigger] shouted(p, letter, c, d) && c <= k < d;
        lemma_run_unique(p, c, d, a, j, k);
    }
    if shouted(p, letter, a, j) {
        assert(shouting_at(p, letter, k));
    }
}

/// Calming leaves alone what is no capital.
pub proof fn law_calm_touches_capitals_only(p: Seq<char>, letter: Seq<bool>, k: int)
    requires
        0 <= k < p.len(),
        !('A' <= p[k] && p[k] <= 'Z'),
    ensures
        calmed(p, letter)[k] == p[k],
{
}

/// A stretch of text is all capitals and apostrophes, of whatever kind.
pub open spec fn is_block(s: Seq<char>, i: int, j: int) -> bool {
    &&& 0 <= i < j <= s.len()
    &&& forall|m: int|
        i <= m < j ==> {
            ||| 'A' <= #[trigger] s[m] && s[m] <= 'Z'
            ||| s[m] == '\'' || s[m] == '\u{2018}' || s[m] == '\u{2019}' || s[m] == '\u{2BC}'
        }
}

/// Words set in capitals come out in lower case, whatever their length, and other
/// capitals as they are. Take a stretch `[i, j)` of capitals and apostrophes that
/// goes on neither to the left nor to the right. Where it holds two capitals and
/// no letter touches it, be it that an apostrophe comes first, every capital of it
/// is lowered; otherwise none is. Its apostrophes come out straight.
pub proof fn law_words_in_capitals_are_lowered(s: Seq<char>, i: int, j: int, k: int)
    requires
        is_block(s, i, j),
        !is_block(s, i - 1, j),
        !is_block(s, i, j + 1),
        i <= k < j,
    ensures
        ({
            let first = i == 0 || !('A' <= s[i] && s[i] <= 'Z') || !(('a' <= s[i - 1] && s[i - 1]
                <= 'z') || (s[i - 1] > '\u{7F}' && crate::chars::unicode_alphabetic(s[i - 1])));
            let last = j == s.len() || !(('a' <= s[j] && s[j] <= 'z') || (s[j] > '\u{7F}'
                && crate::chars::unicode_alphabetic(s[j])));
            let two = exists|x: int, y: int|
                i <= x < y < j && 'A' <= #[trigger] s[x] && s[x] <= 'Z' && 'A' <= #[trigger] s[y]
                    && s[y] <= 'Z';
            speakable(s)[k] == if !('A' <= s[k] && s[k] <= 'Z') {
                '\''
            } else if two && first && last {
                (s[k] as u32 + 32) as char
            } else {
                s[k]
            }
        }),
{
    let p = straightened(s);
    let w = letters(p);
    assert forall|m: int| i <= m < j implies in_run(#[trigger] p[m]) by {
        assert('A' <= s[m] && s[m] <= 'Z' || straight(s[m]) == '\'');
    }
    assert(i > 0 ==> !in_run(p[i - 1])) by {
        if i > 0 && in_run(p[i - 1]) {
            assert(is_block(s, i - 1, j));
        }
    }
    assert(j < s.len() ==> !in_run(p[j])) by {
        if j < s.len() && in_run(p[j]) {
            assert(is_block(s, i, j + 1));
        }
    }
    if is_capital(s[k]) {
        let a = lemma_first_capital_from(p, i, k);
        assert(stretch_starts(p, a)) by {
            assert forall|b: int| 0 <= b < a && is_capital(#[trigger] p[b]) implies exists|m: int|
                b < m < a && !in_run(#[trigger] p[m]) by {
                assert(b < i);
                assert(!in_run(p[i - 1]));
            }
        }
        assert(caps_run(p, a, j));
        let two = exists|x: int, y: int|
            i <= x < y < j && 'A' <= #[trigger] s[x] && s[x] <= 'Z' && 'A' <= #[trigger] s[y]
                && s[y] <= 'Z';
        assert(two == exists|y: int| a < y < j && is_capital(#[trigger] p[y])) by {
            if two {
                let (x, y) = choose|x: int, y: int|
                    i <= x < y < j && 'A' <= #[trigger] s[x] && s[x] <= 'Z' && 'A'
                        <= #[trigger] s[y] && s[y] <= 'Z';
                assert(is_capital(p[x]) && is_capital(p[y]));
                assert(a <= x);
            }
            if exists|y: int| a < y < j && is_capital(#[trigger] p[y]) {
                let y = choose|y: int| a < y < j && is_capital(#[trigger] p[y]);
                assert('A' <= s[a] && s[a] <= 'Z' && 'A' <= s[y] && s[y] <= 'Z');
            }
        }
        if a > i {
            assert(p[a - 1] == '\'');
            assert(!is_capital(p[i]));
            assert(!w[a - 1]);
        } else if i > 0 {
            assert(!is_capital(s[i - 1]));
            assert(p[i - 1] == s[i - 1]);
        }
        if j < s.len() {
            assert(!is_capital(s[j]));
            assert(p[j] == s[j]);
        }
        if shouting_at(p, w, k) {
            let (c, d) = choose|c: int, d: int| #[trigger] shouted(p, w, c, d) && c <= k < d;
            lemma_run_unique(p, c, d, a, j, k);
        }
        if shouted(p, w, a, j) {
            assert(shouting_at(p, w, k));
        }
    } else {
        assert(p[k] == '\'');
    }
}

/// There is a first capital between `i` and a capital at `k`.
proof fn lemma_first_capital_from(p: Seq<char>, i: int, k: int) -> (a: int)
    requires
        0 <= i <= k < p.len(),
        is_capital(p[k]),
    ensures
        i <= a <= k,
        is_capital(p[a]),
        forall|m: int| i <= m < a ==> !is_capital(#[trigger] p[m]),
    decreases k - i,
{
    if is_capital(p[i]) {
        i
    } else {
        lemma_first_capital_from(p, i + 1, k)
    }
}

/// What is neither a capital nor an apostrophe is spoken as written, and nothing
/// is added or left out.
pub proof fn law_other_characters_stay(s: Seq<char>, k: int)
    requires
        0 <= k < s.len(),
    ensures
        speakable(s).len() == s.len(),
        !('A' <= s[k] && s[k] <= 'Z') && s[k] != '\'' && s[k] != '\u{2018}' && s[k] != '\u{2019}'
            && s[k] != '\u{2BC}' ==> speakable(s)[k] == s[k],
{
}

/// A character that parts words: it is no letter and no apostrophe of any kind.
pub open spec fn is_separator(c: char) -> bool {
    straight(c) != '\'' && !crate::chars::is_letter(c)
}

/// A separator parts the spoken form: what stands on one side of it has no part in
/// how the other side is spoken.
pub proof fn law_separators_part_the_spoken_form(a: Seq<char>, c: char, b: Seq<char>)
    requires
        is_separator(c),
    ensures
        speakable(a + seq![c] + b) == speakable(a) + seq![c] + speakable(b),
{
    let whole = a + seq![c] + b;
    let n = a.len() as int;
    let p = straightened(whole);
    let pa = straightened(a);
    let pb = straightened(b);
    assert(p =~= pa + seq![c] + pb);
    assert forall|k: int| 0 <= k < whole.len() implies #[trigger] speakable(whole)[k] == (speakable(
        a,
    ) + seq![c] + speakable(b))[k] by {
        if k < n {
            lemma_left_of_separator(pa, c, pb, k);
            assert(p[k] == pa[k]);
        } else if k == n {
            assert(p[k] == c);
            assert(!shouting_at(p, letters(p), k)) by {
                if shouting_at(p, letters(p), k) {
                    let (i, j) = choose|i: int, j: int| #[trigger]
                        shouted(p, letters(p), i, j) && i <= k < j;
                    assert(in_run(p[k]));
                }
            }
        } else {
            lemma_right_of_separator(pa, c, pb, k - n - 1);
            assert(p[k] == pb[k - n - 1]);
        }
    }
    assert(speakable(whole) =~= speakable(a) + seq![c] + speakable(b));
}

/// Left of a separator, a word is set in capitals with what follows exactly when
/// it is without.
proof fn lemma_left_of_separator(a: Seq<char>, c: char, b: Seq<char>, k: int)
    requires
        is_separator(c),
        0 <= k < a.len(),
    ensures
        ({
            let p = a + seq![c] + b;
            shouting_at(p, letters(p), k) == shouting_at(a, letters(a), k)
        }),
{
    let p = a + seq![c] + b;
    let n = a.len() as int;
    assert(p[n] == c);
    assert forall|i: int, j: int| #[trigger] shouted(p, letters(p), i, j) && i <= k < j implies
        shouted(a, letters(a), i, j) by {
        if j > n {
            assert(in_run(p[n]));
        }
        lemma_run_left(a, c, b, i, j);
    }
    assert forall|i: int, j: int| #[trigger] shouted(a, letters(a), i, j) && i <= k < j implies
        shouted(p, letters(p), i, j) by {
        lemma_run_left(a, c, b, i, j);
    }
    if shouting_at(p, letters(p), k) {
        let (i, j) = choose|i: int, j: int| #[trigger] shouted(p, letters(p), i, j) && i <= k < j;
        assert(shouted(a, letters(a), i, j));
    }
    if shouting_at(a, letters(a), k) {
        let (i, j) = choose|i: int, j: int| #[trigger] shouted(a, letters(a), i, j) && i <= k < j;
        assert(shouted(p, letters(p), i, j));
    }
}

/// A run that ends left of a separator is one with what follows exactly when it
/// is one without.
proof fn lemma_run_left(a: Seq<char>, c: char, b: Seq<char>, i: int, j: int)
    requires
        is_separator(c),
        0 <= i < j <= a.len(),
    ensures
        shouted(a + seq![c] + b, letters(a + seq![c] + b), i, j) == shouted(a, letters(a), i, j),
{
    let p = a + seq![c] + b;
    let n = a.len() as int;
    assert(p[n] == c);
    assert forall|m: int| 0 <= m < n implies #[trigger] p[m] == a[m] by {}
    assert(stretch_starts(p, i) == stretch_starts(a, i)) by {
        if stretch_starts(p, i) {
            assert forall|x: int| 0 <= x < i && is_capital(#[trigger] a[x]) implies exists|m: int|
                x < m < i && !in_run(#[trigger] a[m]) by {
                assert(is_capital(p[x]));
                let m = choose|m: int| x < m < i && !in_run(#[trigger] p[m]);
                assert(!in_run(a[m]));
            }
        }
        if stretch_starts(a, i) {
            assert forall|x: int| 0 <= x < i && is_capital(#[trigger] p[x]) implies exists|m: int|
                x < m < i && !in_run(#[trigger] p[m]) by {
                assert(is_capital(a[x]));
                let m = choose|m: int| x < m < i && !in_run(#[trigger] a[m]);
                assert(!in_run(p[m]));
            }
        }
    }
    assert(caps_run(p, i, j) == caps_run(a, i, j)) by {
        if caps_run(p, i, j) {
            assert forall|k: int| i <= k < j implies in_run(#[trigger] a[k]) by {
                assert(in_run(p[k]));
            }
        }
        if caps_run(a, i, j) {
            assert forall|k: int| i <= k < j implies in_run(#[trigger] p[k]) by {
                assert(in_run(a[k]));
            }
        }
    }
    if exists|k: int| i < k < j && is_capital(#[trigger] p[k]) {
        let k = choose|k: int| i < k < j && is_capital(#[trigger] p[k]);
        assert(is_capital(a[k]));
    }
    if exists|k: int| i < k < j && is_capital(#[trigger] a[k]) {
        let k = choose|k: int| i < k < j && is_capital(#[trigger] a[k]);
        assert(is_capital(p[k]));
    }
    assert(i > 0 ==> letters(p)[i - 1] == letters(a)[i - 1]);
    assert(j < n ==> letters(p)[j] == letters(a)[j]);
    assert(!letters(p)[n]);
}

/// Right of a separator, a word is set in capitals with what comes before exactly
/// when it is without.
proof fn lemma_right_of_separator(a: Seq<char>, c: char, b: Seq<char>, k: int)
    requires
        is_separator(c),
        0 <= k < b.len(),
    ensures
        ({
            let p = a + seq![c] + b;
            shouting_at(p, letters(p), a.len() + 1 + k) == shouting_at(b, letters(b), k)
        }),
{
    let p = a + seq![c] + b;
    let d = a.len() + 1;
    assert(p[d - 1] == c);
    if shouting_at(p, letters(p), d + k) {
        let (i, j) = choose|i: int, j: int| #[trigger]
            shouted(p, letters(p), i, j) && i <= d + k < j;
        if i < d {
            assert(in_run(p[d - 1]));
        }
        lemma_run_right(a, c, b, i - d, j - d);
        assert(shouted(b, letters(b), i - d, j - d));
    }
    if shouting_at(b, letters(b), k) {
        let (i, j) = choose|i: int, j: int| #[trigger] shouted(b, letters(b), i, j) && i <= k < j;
        lemma_run_right(a, c, b, i, j);
        assert(shouted(p, letters(p), d + i, d + j));
    }
}

/// A run that starts right of a separator is one with what comes before exactly
/// when it is one without.
proof fn lemma_run_right(a: Seq<char>, c: char, b: Seq<char>, i: int, j: int)
    requires
        is_separator(c),
        0 <= i < j <= b.len(),
    ensures
        ({
            let p = a + seq![c] + b;
            let d = a.len() + 1;
            shouted(p, letters(p), d + i, d + j) == shouted(b, letters(b), i, j)
        }),
{
    let p = a + seq![c] + b;
    let d = a.len() + 1;
    assert(p[d - 1] == c);
    assert(!in_run(p[d - 1]));
    assert forall|m: int| 0 <= m < b.len() implies #[trigger] b[m] == p[d + m] by {}
    assert forall|m: int| d <= m < p.len() implies #[trigger] p[m] == b[m - d] by {}
    assert(stretch_starts(p, d + i) == stretch_starts(b, i)) by {
        if stretch_starts(p, d + i) {
            assert forall|x: int| 0 <= x < i && is_capital(#[trigger] b[x]) implies exists|m: int|
                x < m < i && !in_run(#[trigger] b[m]) by {
                assert(is_capital(p[d + x]));
                let m = choose|m: int| d + x < m < d + i && !in_run(#[trigger] p[m]);
                assert(!in_run(b[m - d]));
            }
        }
        if stretch_starts(b, i) {
            assert forall|x: int| 0 <= x < d + i && is_capital(#[trigger] p[x]) implies exists|
                m: int,
            | x < m < d + i && !in_run(#[trigger] p[m]) by {
                if x < d {
                    assert(x < d - 1 < d + i && !in_run(p[d - 1]));
                } else {
                    assert(is_capital(b[x - d]));
                    let m = choose|m: int| x - d < m < i && !in_run(#[trigger] b[m]);
                    assert(!in_run(p[d + m]));
                }
            }
        }
    }
    assert(caps_run(p, d + i, d + j) == caps_run(b, i, j)) by {
        if caps_run(p, d + i, d + j) {
            assert forall|k: int| i <= k < j implies in_run(#[trigger] b[k]) by {
                assert(in_run(p[d + k]));
            }
        }
        if caps_run(b, i, j) {
            assert forall|k: int| d + i <= k < d + j implies in_run(#[trigger] p[k]) by {
                assert(in_run(b[k - d]));
            }
        }
    }
    if exists|k: int| d + i < k < d + j && is_capital(#[trigger] p[k]) {
        let k = choose|k: int| d + i < k < d + j && is_capital(#[trigger] p[k]);
        assert(is_capital(b[k - d]));
    }
    if exists|k: int| i < k < j && is_capital(#[trigger] b[k]) {
        let k = choose|k: int| i < k < j && is_capital(#[trigger] b[k]);
        assert(is_capital(p[d + k]));
    }
    assert(i > 0 ==> letters(p)[d + i - 1] == letters(b)[i - 1]);
    assert(j < b.len() ==> letters(p)[d + j] == letters(b)[j]);
    assert(!letters(p)[d - 1]);
}

/// The lower case of a character is no capital, and no apostrophe unless the
/// character was one.
proof fn lemma_lower_is_no_capital(c: char)
    ensures
        !is_capital(lower(c)),
        c != '\'' ==> lower(c) != '\'',
        is_capital(c) ==> straight(lower(c)) == lower(c),
{
}

/// A stretch of capitals and apostrophes that ends in position `i` and holds a
/// capital has a first one.
proof fn lemma_first_capital(s: Seq<char>, b: int, i: int) -> (a: int)
    requires
        0 <= b < i <= s.len(),
        is_capital(s[b]),
        forall|m: int| b <= m < i ==> in_run(#[trigger] s[m]),
    ensures
        0 <= a <= b,
        is_capital(s[a]),
        forall|m: int| a <= m < i ==> in_run(#[trigger] s[m]),
        stretch_starts(s, a),
    decreases b,
{
    if stretch_starts(s, b) {
        b
    } else {
        let c = choose|c: int|
            0 <= c < b && is_capital(#[trigger] s[c]) && !(exists|m: int|
                c < m < b && !in_run(#[trigger] s[m]));
        assert forall|m: int| c <= m < i implies in_run(#[trigger] s[m]) by {
            if c < m < b && !in_run(s[m]) {
                assert(exists|m: int| c < m < b && !in_run(#[trigger] s[m]));
            }
        }
        lemma_first_capital(s, c, i)
    }
}

/// After calming, no run is a word set in capitals any more.
proof fn lemma_nothing_left_to_calm(p: Seq<char>, i: int, j: int)
    ensures
        ({
            let t = calmed(p, letters(p));
            !shouted(t, letters(t), i, j)
        }),
{
    let w = letters(p);
    let t = calmed(p, w);
    if shouted(t, letters(t), i, j) {
        assert forall|k: int| 0 <= k < t.len() && in_run(#[trigger] t[k]) implies t[k] == p[k] by {
            lemma_lower_is_no_capital(p[k]);
        }
        assert(!shouting_at(p, w, i)) by {
            lemma_lower_is_no_capital(p[i]);
        }
        assert(j < t.len() ==> !shouting_at(p, w, j)) by {
            if j < t.len() && shouting_at(p, w, j) {
                let (a, b) = choose|a: int, b: int| #[trigger] shouted(p, w, a, b) && a <= j < b;
                if a <= i {
                    assert(shouting_at(p, w, i));
                } else {
                    assert(is_capital(p[i]));
                    let m = choose|m: int| i < m < a && !in_run(#[trigger] p[m]);
                    assert(in_run(t[m]));
                }
            }
        }
        assert(stretch_starts(p, i)) by {
            if !stretch_starts(p, i) {
                let b = choose|b: int|
                    0 <= b < i && is_capital(#[trigger] p[b]) && !(exists|m: int|
                        b < m < i && !in_run(#[trigger] p[m]));
                assert forall|m: int| b <= m < i implies in_run(#[trigger] p[m]) by {
                    if b < m < i && !in_run(p[m]) {
                        assert(exists|m: int| b < m < i && !in_run(#[trigger] p[m]));
                    }
                }
                let a = lemma_first_capital(p, b, i);
                assert forall|m: int| a <= m < j implies in_run(#[trigger] p[m]) by {
                    if i <= m {
                        assert(in_run(t[m]));
                    }
                }
                assert(caps_run(p, a, j));
                assert forall|m: int| a <= m < j implies #[trigger] t[m] == p[m] by {
                    if shouting_at(p, w, m) {
                        let (c, d) = choose|c: int, d: int| #[trigger]
                            shouted(p, w, c, d) && c <= m < d;
                        lemma_run_unique(p, c, d, a, j, m);
                        assert(shouting_at(p, w, i));
                    }
                }
                assert(is_capital(t[a]));
                let m = choose|m: int| a < m < i && !in_run(#[trigger] t[m]);
                assert(in_run(p[m]));
            }
        }
        assert forall|k: int| i <= k < j implies in_run(#[trigger] p[k]) by {
            assert(in_run(t[k]));
        }
        assert(caps_run(p, i, j));
        let k2 = choose|k: int| i < k < j && is_capital(#[trigger] t[k]);
        assert(is_capital(p[k2]));
        if i > 0 {
            if shouting_at(p, w, i - 1) {
                let (a, b) = choose|a: int, b: int| #[trigger]
                    shouted(p, w, a, b) && a <= i - 1 < b;
                if b == i {
                    assert(in_run(t[i]));
                }
                assert(shouting_at(p, w, i));
            }
            assert(t[i - 1] == p[i - 1]);
            assert(letters(t)[i - 1] == w[i - 1]);
        }
        if j < t.len() {
            assert(letters(t)[j] == w[j]);
        }
        assert(shouted(p, w, i, j));
    }
}

/// Lower case, character by character: the 26 capitals become the letter that is 32
/// further on, and every other character stays.
pub proof fn law_lower_case_is_that_of_ascii(c: char)
    ensures
        'A' <= c && c <= 'Z' ==> lower(c) as int == c as int + 32,
        !('A' <= c && c <= 'Z') ==> lower(c) == c,
{
}

} // verus!
