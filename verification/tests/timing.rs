use novus_voice::protocol::WordTiming;
use novus_voice::search::{contains, find};
use novus_voice::timing::{time_pieces, word_timings, Piece, Token};

fn token(text: &str, phonemes: Option<&str>) -> Token {
    Token {
        text: text.to_string(),
        phonemes: phonemes.map(|p| p.to_string()),
        whitespace: " ".to_string(),
    }
}

fn chars(text: &str) -> Vec<char> {
    text.chars().collect()
}

fn ids(index: &[i32]) -> Vec<Option<usize>> {
    index.iter().map(|&i| if i < 0 { None } else { Some(i as usize) }).collect()
}

/// "The cat." as "ðə kæt . ", with an id for each sound and none for a space.
fn the_cat() -> (Vec<Token>, Vec<Option<usize>>) {
    let tokens = vec![
        token("The", Some("ðə")),
        token("cat", Some("kæt")),
        token(".", Some(".")),
    ];
    (tokens, ids(&[0, 1, -1, 2, 3, 4, -1, 5, -1]))
}

#[test]
fn words_are_timed_from_first_to_last_sound() {
    let (tokens, index) = the_cat();
    // Pad, six sounds, pad: nine boundaries.
    let bounds = vec![0, 10, 20, 30, 40, 50, 60, 70, 80];
    assert_eq!(
        word_timings("The cat.", &tokens, &index, &bounds, 100),
        vec![
            WordTiming { start_ms: 10, end_ms: 30, start_char: 0, end_char: 3 },
            WordTiming { start_ms: 30, end_ms: 60, start_char: 4, end_char: 7 },
        ]
    );
}

#[test]
fn no_sound_no_timings() {
    let (tokens, index) = the_cat();
    let bounds = vec![0, 10, 20, 30, 40, 50, 60, 70, 80];
    assert_eq!(word_timings("The cat.", &tokens, &index, &bounds, 0), vec![]);
}

#[test]
fn no_boundaries_no_timings() {
    let (tokens, index) = the_cat();
    assert_eq!(word_timings("The cat.", &tokens, &index, &vec![], 100), vec![]);
    assert_eq!(word_timings("The cat.", &tokens, &index, &vec![0, 5], 100), vec![]);
}

#[test]
fn too_few_boundaries_cut_the_end_off() {
    let (tokens, index) = the_cat();
    let bounds = vec![0, 10, 20, 30, 40];
    assert_eq!(
        word_timings("The cat.", &tokens, &index, &bounds, 100),
        vec![
            WordTiming { start_ms: 10, end_ms: 30, start_char: 0, end_char: 3 },
            WordTiming { start_ms: 30, end_ms: 40, start_char: 4, end_char: 7 },
        ]
    );
}

#[test]
fn offsets_count_characters() {
    let tokens = vec![token("“", Some("“")), token("é", Some("e")), token("ab", Some("a"))];
    let index = ids(&[-1, -1, 0, -1, 1, -1]);
    let bounds = vec![0, 1, 2, 3, 4];
    assert_eq!(
        word_timings("“é ab", &tokens, &index, &bounds, 9),
        vec![
            WordTiming { start_ms: 1, end_ms: 2, start_char: 1, end_char: 2 },
            WordTiming { start_ms: 2, end_ms: 3, start_char: 3, end_char: 5 },
        ]
    );
}

#[test]
fn a_token_that_is_not_found_uses_up_no_text() {
    let tokens = vec![token("zzz", Some("z")), token("a", Some("a"))];
    let index = ids(&[0, -1, 1, -1]);
    let bounds = vec![0, 1, 2, 3, 4];
    assert_eq!(
        word_timings("a", &tokens, &index, &bounds, 9),
        vec![WordTiming { start_ms: 2, end_ms: 3, start_char: 0, end_char: 1 }]
    );
}

#[test]
fn repeated_words_are_found_one_after_the_other() {
    let tokens = vec![token("a", Some("a")), token("a", Some("a"))];
    let index = ids(&[0, -1, 1, -1]);
    let bounds = vec![0, 1, 2, 3, 4];
    let words = word_timings("a a", &tokens, &index, &bounds, 9);
    assert_eq!(words.len(), 2);
    assert_eq!((words[0].start_char, words[1].start_char), (0, 2));
    assert!(words[0].end_ms <= words[1].start_ms);
    assert!(words[0].end_char <= words[1].start_char);
}

#[test]
fn a_word_without_phonemes_is_not_timed() {
    let tokens = vec![token("a", None), token("b", Some("b"))];
    let index = ids(&[-1, 0, -1]);
    let bounds = vec![0, 1, 2, 3];
    assert_eq!(
        word_timings("a b", &tokens, &index, &bounds, 9),
        vec![WordTiming { start_ms: 1, end_ms: 2, start_char: 2, end_char: 3 }]
    );
}

#[test]
fn pieces_are_timed_by_what_they_say() {
    let piece = Piece { text: chars("ab"), sounds: 2, gap: 0, spoken: true };
    let silent = Piece { text: chars("ab"), sounds: 2, gap: 0, spoken: false };
    let index = ids(&[0, 1]);
    let bounds = vec![0, 5, 6, 7];
    assert_eq!(
        time_pieces(&chars("xab"), &vec![piece], &index, &bounds),
        vec![WordTiming { start_ms: 5, end_ms: 7, start_char: 1, end_char: 3 }]
    );
    assert_eq!(time_pieces(&chars("xab"), &vec![silent], &index, &bounds), vec![]);
}

#[test]
fn finds_the_first_match_from_a_position() {
    assert_eq!(find(&chars("abcabc"), &chars("bc"), 0), Some(1));
    assert_eq!(find(&chars("abcabc"), &chars("bc"), 2), Some(4));
    assert_eq!(find(&chars("abcabc"), &chars("bc"), 5), None);
    assert_eq!(find(&chars("abc"), &chars(""), 3), Some(3));
    assert!(contains(&chars("audio_out"), &chars("audio")));
    assert!(!contains(&chars("output"), &chars("audio")));
}
