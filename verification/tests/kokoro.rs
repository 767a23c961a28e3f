use novus_voice::kokoro::{language_of, KokoroEngine, PackFiles, SynthesisError};
use novus_voice::outputs::find_outputs;
use novus_voice::pack::{Engine, Pack, PackConfig};
use novus_voice::phonemes::{is_unstemmable, Language};
use novus_voice::protocol::WordTiming;
use novus_voice::timing::Token;

fn engine(language: &str, outputs: &[&str]) -> KokoroEngine {
    let pack = Pack {
        config: PackConfig {
            id: "p1".to_string(),
            engine: Engine::Kokoro,
            sample_rate: 24000,
            model: "m.onnx".to_string(),
            tokenizer: Some("t.json".to_string()),
            voices: vec![
                ("v".to_string(), "v.bin".to_string()),
                ("empty".to_string(), "empty.bin".to_string()),
            ],
            word_timings: true,
            language: language.to_string(),
        },
        dir: std::path::PathBuf::from("/p"),
    };
    // Eight rows, each filled with its number.
    let mut style: Vec<u8> = Vec::new();
    for row in 0..8u32 {
        for _ in 0..256 {
            style.extend_from_slice(&row.to_le_bytes());
        }
    }
    let files = PackFiles {
        model: Ok(outputs.iter().map(|o| o.to_string()).collect()),
        tokenizer: Ok(r#"{"model":{"vocab":{"k":5,"æ":6,"t":7,"a":8}}}"#.to_string()),
        styles: vec![Ok(style), Ok(vec![])],
    };
    match KokoroEngine::load(&pack, &files) {
        Ok(engine) => engine,
        Err(e) => panic!("{e:?}"),
    }
}

#[test]
fn american_speech_is_planned_and_timed() {
    let engine = engine("en-US", &["waveform", "durations"]);
    assert_eq!(engine.sample_rate(), 24000);
    assert_eq!(engine.audio_output(), "waveform");
    assert_eq!(engine.duration_output(), Some("durations"));
    let plan = engine.try_synthesize("The CAT.", "v", 0x3f80_0000).unwrap().unwrap();
    assert_eq!(plan.speak, "The cat.");
    let texts: Vec<&str> = plan.tokens.iter().map(|t| t.text.as_str()).collect();
    assert_eq!(texts, vec!["The", "cat", "."]);
    assert_eq!(plan.tokens[1].phonemes.as_deref(), Some("kˈæt"));
    assert_eq!(plan.tokens[1].whitespace, " ");
    assert_eq!(plan.input_ids, vec![0, 5, 6, 7, 0]);
    assert_eq!(plan.style, vec![3; 256]);
    assert_eq!(f32::from_bits(plan.speed), 1.0);
    let total: usize = plan
        .tokens
        .iter()
        .map(|t| t.phonemes.as_ref().unwrap().chars().count() + t.whitespace.chars().count())
        .sum();
    assert_eq!(plan.id_of_char.len(), total);
    let speech = engine.finish(&plan, vec![1, 2, 3], &vec![0, 100, 200, 300, 400, 500]);
    assert_eq!(speech.samples, vec![1, 2, 3]);
    assert_eq!(speech.sample_rate, 24000);
    assert_eq!(
        speech.words,
        vec![WordTiming { start_ms: 100, end_ms: 400, start_char: 4, end_char: 7 }]
    );
    assert!(engine.finish(&plan, vec![], &vec![0, 100, 200, 300, 400, 500]).words.is_empty());
}

#[test]
fn british_speech_uses_its_own_sounds() {
    let engine = engine("EN-gb", &["output"]);
    assert_eq!(engine.audio_output(), "output");
    assert_eq!(engine.duration_output(), None);
    let plan = engine.try_synthesize("cat", "v", 0x3f80_0000).unwrap().unwrap();
    assert_eq!(plan.input_ids, vec![0, 5, 8, 7, 0]);
    let speech = engine.finish(&plan, vec![1], &vec![0, 1, 2, 3, 4, 5]);
    assert!(speech.words.is_empty());
}

#[test]
fn speech_that_cannot_be_planned_is_refused() {
    let engine = engine("en-US", &["audio"]);
    let error = engine.try_synthesize("", "v", 0x3f80_0000).unwrap().unwrap_err();
    assert!(matches!(error, SynthesisError::Unspeakable));
    assert_eq!(error.message(), "no speakable content in text");
    let error = engine.try_synthesize("cat", "w", 0x3f80_0000).unwrap().unwrap_err();
    assert!(matches!(error, SynthesisError::VoiceNotLoaded { .. }));
    assert_eq!(error.message(), "voice 'w' not loaded");
    let error = SynthesisError::Phonemizer("Odd".to_string());
    assert_eq!(error.message(), "g2p failed: Odd");
    let error = engine.try_synthesize("", "empty", 0x3f80_0000).unwrap().unwrap_err();
    assert!(matches!(error, SynthesisError::Unspeakable));
    // A style table without rows, and a word that the phonemizer cannot stem.
    assert!(engine.try_synthesize("cat", "empty", 0x3f80_0000).is_none());
    assert!(engine.try_synthesize("He was sautéing onions.", "v", 0x3f80_0000).is_none());
    assert!(engine.try_synthesize("sautéing's éing", "v", 0x3f80_0000).is_some());
}

#[test]
fn plans_go_by_the_phonemes_they_are_given() {
    let engine = engine("en-US", &["audio"]);
    let token = Token {
        text: "x".to_string(),
        phonemes: Some("tat".to_string()),
        whitespace: " ".to_string(),
    };
    let plan = engine.plan("x".to_string(), "tat ", vec![token], "v", 1).unwrap();
    assert_eq!(plan.input_ids, vec![0, 7, 8, 7, 0]);
    assert_eq!(plan.id_of_char, vec![Some(0), Some(1), Some(2), None]);
    let long = "t".repeat(600);
    let plan = engine.plan("x".to_string(), &long, vec![], "v", 1).unwrap();
    assert_eq!(plan.input_ids.len(), 512);
    assert_eq!(plan.style, vec![7; 256]);
    assert!(matches!(
        engine.plan("x".to_string(), "zzz", vec![], "empty", 1),
        Err(SynthesisError::Unspeakable)
    ));
}

#[test]
fn languages_are_known_by_their_tags() {
    assert_eq!(language_of("en-GB"), Language::EnglishGB);
    assert_eq!(language_of("en-gb"), Language::EnglishGB);
    assert_eq!(language_of("en-US"), Language::EnglishUS);
    assert_eq!(language_of("en-gbx"), Language::EnglishUS);
    assert_eq!(language_of(""), Language::EnglishUS);
}

#[test]
fn outputs_are_known_by_their_names() {
    let names = |list: &[&str]| -> Vec<String> { list.iter().map(|n| n.to_string()).collect() };
    assert_eq!(find_outputs(&names(&["x", "pred_dur", "audio_out"])), (2, Some(1)));
    assert_eq!(find_outputs(&names(&["x", "y"])), (0, None));
    assert_eq!(find_outputs(&names(&["x", "mywav", "audio"])), (1, None));
    assert_eq!(find_outputs(&names(&["duration", "durations"])), (0, Some(0)));
}

#[test]
fn output_names_are_read_in_any_case() {
    let engine = engine("en-US", &["first", "WAVEFORM", "Durations"]);
    assert_eq!(engine.audio_output(), "WAVEFORM");
    assert_eq!(engine.duration_output(), Some("Durations"));
}

#[test]
fn words_that_cannot_be_stemmed() {
    assert!(is_unstemmable("sautéing"));
    assert!(!is_unstemmable("éing"));
    assert!(is_unstemmable("世ing"));
    assert!(!is_unstemmable("walking"));
    assert!(!is_unstemmable("sautéed"));
    assert!(!is_unstemmable("ing"));
}
