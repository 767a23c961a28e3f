use novus_voice::encode::{encode, pad, MAX_PHONEME_IDS};
use novus_voice::vocab::{parse_vocab, vocab_from_entries, Vocab, VocabError};

#[test]
fn reads_single_characters_with_integers() {
    let raw = r#"{"model":{"vocab":{"a":1,"ˈ":156,"ab":2,"c":"3","d":4.5,"e":-7,"":8}}}"#;
    let vocab = parse_vocab(raw).unwrap();
    assert_eq!(vocab.get('a'), Some(1));
    assert_eq!(vocab.get('ˈ'), Some(156));
    assert_eq!(vocab.get('e'), Some(-7));
    assert_eq!(vocab.get('b'), None);
    assert_eq!(vocab.get('c'), None);
    assert_eq!(vocab.get('d'), None);
}

#[test]
fn integers_beyond_64_bits_do_not_count() {
    let raw = r#"{"model":{"vocab":{"a":9223372036854775807,"b":9223372036854775808}}}"#;
    let vocab = parse_vocab(raw).unwrap();
    assert_eq!(vocab.get('a'), Some(i64::MAX));
    assert_eq!(vocab.get('b'), None);
}

#[test]
fn no_json_is_an_error() {
    match parse_vocab("{") {
        Err(VocabError::Json(text)) => {
            assert_eq!(text, "EOF while parsing an object at line 1 column 1")
        }
        other => panic!("{other:?}"),
    }
}

#[test]
fn json_without_a_vocabulary_is_an_error() {
    for raw in ["{}", "[]", "null", r#"{"model":{}}"#, r#"{"model":{"vocab":[1]}}"#] {
        let error = parse_vocab(raw).unwrap_err();
        assert!(matches!(error, VocabError::NoVocab));
        assert_eq!(error.message(), "tokenizer.json has no model.vocab");
    }
}

#[test]
fn a_json_error_speaks_for_itself() {
    assert_eq!(VocabError::Json("odd".to_string()).message(), "odd");
}

#[test]
fn later_entries_replace_earlier_ones() {
    let entries = vec![
        ("a".to_string(), Some(1)),
        ("a".to_string(), Some(2)),
        ("b".to_string(), None),
        ("cd".to_string(), Some(3)),
    ];
    let vocab = vocab_from_entries(&entries);
    assert_eq!(vocab.get('a'), Some(2));
    assert_eq!(vocab.get('b'), None);
    assert_eq!(vocab.get('c'), None);
}

#[test]
fn known_characters_get_ids_in_order() {
    let mut vocab = Vocab::new();
    vocab.insert('a', 10);
    vocab.insert('b', 20);
    let (ids, index) = encode(&vocab, "axba");
    assert_eq!(ids, vec![10, 20, 10]);
    assert_eq!(index, vec![Some(0), None, Some(1), Some(2)]);
    assert_eq!(pad(&ids), vec![0, 10, 20, 10, 0]);
}

#[test]
fn nothing_known_gives_no_ids() {
    let (ids, index) = encode(&Vocab::new(), "ab");
    assert!(ids.is_empty());
    assert_eq!(index, vec![None, None]);
}

#[test]
fn the_model_is_never_given_too_many_ids() {
    let mut vocab = Vocab::new();
    vocab.insert('a', 1);
    let text = "a".repeat(MAX_PHONEME_IDS + 2);
    let (ids, index) = encode(&vocab, &text);
    assert_eq!(MAX_PHONEME_IDS, 510);
    assert_eq!(ids.len(), 510);
    assert_eq!(index[509], Some(509));
    assert_eq!(index[510], None);
    assert_eq!(index.len(), 512);
}
