use novus_voice::kokoro::{KokoroEngine, LoadError, PackFiles, Synthesis};
use novus_voice::pack::{Engine, Pack, PackConfig};
use novus_voice::protocol::{Body, Cmd, Envelope, Reply};
use novus_voice::session::{blank, load_pack, Action, PackMeta, Sidecar};

fn pack(engine: Engine) -> Pack {
    Pack {
        config: PackConfig {
            id: "p1".to_string(),
            engine,
            sample_rate: 24000,
            model: "m.onnx".to_string(),
            tokenizer: Some("t.json".to_string()),
            voices: vec![
                ("b".to_string(), "b.bin".to_string()),
                ("a".to_string(), "a.bin".to_string()),
            ],
            word_timings: true,
            language: "en-US".to_string(),
        },
        dir: std::path::PathBuf::from("/p"),
    }
}

fn files() -> PackFiles {
    PackFiles {
        model: Ok(vec!["audio".to_string()]),
        tokenizer: Ok(r#"{"model":{"vocab":{"k":5}}}"#.to_string()),
        styles: vec![Ok(vec![0; 1024]), Ok(vec![0; 1024])],
    }
}

fn loaded() -> (KokoroEngine, PackMeta) {
    match load_pack(&pack(Engine::Kokoro), &files()) {
        Ok(pair) => pair,
        Err(e) => panic!("{e:?}"),
    }
}

fn request(id: u64, cmd: Cmd) -> Result<Envelope, String> {
    Ok(Envelope { id, cmd })
}

fn speak(id: u64, speed: f32) -> Result<Envelope, String> {
    request(
        id,
        Cmd::Synthesize {
            text: "Hi.".to_string(),
            voice_id: "a".to_string(),
            speed: speed.to_bits(),
        },
    )
}

fn refused(reply: &Reply, id: u64, error: &str) {
    assert_eq!(reply.id, id);
    assert!(!reply.ok);
    assert_eq!(reply.error.as_deref(), Some(error));
    assert!(reply.body.is_none());
}

fn acknowledged(reply: &Reply, id: u64) {
    assert_eq!(reply.id, id);
    assert!(reply.ok);
    assert!(reply.error.is_none());
    assert!(reply.body.is_none());
}

#[test]
fn blank_lines_are_skipped() {
    assert!(blank(""));
    assert!(blank(" \t\u{3000}\r"));
    assert!(!blank(" x "));
    let mut sidecar = Sidecar::new();
    let action = sidecar.receive("  ", Err("EOF".to_string()));
    assert!(matches!(action, Action::Skip));
}

#[test]
fn white_space_is_that_of_unicode() {
    for c in (0..=0x10FFFFu32).filter_map(char::from_u32) {
        if c.is_whitespace() {
            assert!(blank(&c.to_string()));
        }
        let listed = matches!(
            c,
            '\u{9}'..='\u{D}' | ' ' | '\u{85}' | '\u{A0}' | '\u{1680}' | '\u{2000}'..='\u{200A}'
                | '\u{2028}' | '\u{2029}' | '\u{202F}' | '\u{205F}' | '\u{3000}'
        );
        assert_eq!(c.is_whitespace(), listed, "{c:?}");
    }
}

#[test]
fn a_dialogue_has_one_reply_for_each_request() {
    let lines: Vec<(&str, Result<Envelope, String>)> = vec![
        ("{}", speak(11, 1.0)),
        ("  ", Err("EOF".to_string())),
        ("x", Err("odd".to_string())),
        ("{}", request(12, Cmd::LoadVoice { pack_dir: "/p".to_string() })),
        ("{}", request(13, Cmd::Unload)),
        ("", Err("EOF".to_string())),
        ("{}", request(14, Cmd::Shutdown)),
        ("{}", request(15, Cmd::Unload)),
    ];
    let mut sidecar = Sidecar::new();
    let mut ids = Vec::new();
    for (line, request) in lines {
        let last = matches!(&request, Ok(Envelope { cmd: Cmd::Shutdown, .. }));
        let pack = Err("gone".to_string());
        let speech = Err("odd".to_string());
        ids.extend(sidecar.turn(line, request, pack, speech).map(|reply| reply.id));
        if last {
            break;
        }
    }
    assert_eq!(ids, vec![11u64, 0, 12, 13, 14]);
}

#[test]
fn turns_load_speak_and_drop() {
    let speech = || -> Result<Synthesis, String> {
        Ok(Synthesis { samples: vec![0], sample_rate: 1000, words: vec![] })
    };
    let gone = || -> Result<(KokoroEngine, PackMeta), String> { Err("gone".to_string()) };
    let load = |id: u64| request(id, Cmd::LoadVoice { pack_dir: "/p".to_string() });
    let mut sidecar = Sidecar::new();
    assert!(sidecar.turn(" ", speak(1, 1.0), gone(), speech()).is_none());
    let reply = sidecar.turn("{}", speak(2, 1.0), gone(), speech()).unwrap();
    refused(&reply, 2, "no voice pack loaded");
    let reply = sidecar.turn("{}", load(3), Ok(loaded()), speech()).unwrap();
    assert!(reply.ok);
    assert!(matches!(reply.body, Some(Body::Loaded { .. })));
    let reply = sidecar.turn("{}", load(4), gone(), speech()).unwrap();
    refused(&reply, 4, "gone");
    let reply = sidecar.turn("{}", speak(5, 1.0), gone(), speech()).unwrap();
    assert_eq!(reply.id, 5);
    assert!(matches!(reply.body, Some(Body::Audio { .. })));
    let reply = sidecar.turn("{}", request(6, Cmd::Unload), gone(), speech()).unwrap();
    acknowledged(&reply, 6);
    assert!(sidecar.engine().is_none());
}

#[test]
fn a_second_load_replaces_the_first() {
    let mut other = pack(Engine::Kokoro);
    other.config.id = "p2".to_string();
    other.config.sample_rate = 16000;
    let second = match load_pack(&other, &files()) {
        Ok(pair) => pair,
        Err(e) => panic!("{e:?}"),
    };
    let load = |id: u64| request(id, Cmd::LoadVoice { pack_dir: "/p".to_string() });
    let mut sidecar = Sidecar::new();
    let speech = Err("odd".to_string());
    assert!(sidecar.turn("{}", load(1), Ok(loaded()), speech.clone()).unwrap().ok);
    assert_eq!(sidecar.engine().unwrap().sample_rate(), 24000);
    assert!(sidecar.turn("{}", load(2), Ok(second), speech.clone()).unwrap().ok);
    assert_eq!(sidecar.engine().unwrap().sample_rate(), 16000);
    assert_eq!(sidecar.meta().unwrap().id, "p2");
    refused(
        &sidecar.turn("{}", load(3), Err("gone".to_string()), speech).unwrap(),
        3,
        "gone",
    );
    assert_eq!(sidecar.meta().unwrap().id, "p2");
}

#[test]
fn a_malformed_line_is_refused_under_id_zero() {
    let mut sidecar = Sidecar::new();
    match sidecar.receive("x", Err("expected value".to_string())) {
        Action::Answer(reply) => refused(&reply, 0, "bad request: expected value"),
        other => panic!("{other:?}"),
    }
}

#[test]
fn speech_without_a_pack_is_refused() {
    let mut sidecar = Sidecar::new();
    match sidecar.receive("{}", speak(7, 1.0)) {
        Action::Answer(reply) => refused(&reply, 7, "no voice pack loaded"),
        other => panic!("{other:?}"),
    }
}

#[test]
fn loading_is_asked_for() {
    let mut sidecar = Sidecar::new();
    match sidecar.receive("{}", request(3, Cmd::LoadVoice { pack_dir: "/p".to_string() })) {
        Action::Load { id, dir } => {
            assert_eq!(id, 3);
            assert_eq!(dir, "/p");
        }
        other => panic!("{other:?}"),
    }
    assert!(sidecar.engine().is_none());
}

#[test]
fn shutdown_stops() {
    let mut sidecar = Sidecar::new();
    match sidecar.receive("{}", request(9, Cmd::Shutdown)) {
        Action::Stop(reply) => acknowledged(&reply, 9),
        other => panic!("{other:?}"),
    }
}

#[test]
fn a_pack_stays_loaded_until_it_is_dropped() {
    let mut sidecar = Sidecar::new();
    let reply = sidecar.loaded(1, Ok(loaded()));
    assert_eq!(reply.id, 1);
    assert!(reply.ok);
    match reply.body {
        Some(Body::Loaded { pack_id, voices, word_timings }) => {
            assert_eq!(pack_id, "p1");
            assert_eq!(voices, vec!["a".to_string(), "b".to_string()]);
            assert!(word_timings);
        }
        other => panic!("{other:?}"),
    }
    refused(&sidecar.loaded(2, Err("gone".to_string())), 2, "gone");
    assert!(sidecar.engine().is_some());
    assert_eq!(sidecar.meta().unwrap().id, "p1");
    match sidecar.receive("{}", speak(3, 9.0)) {
        Action::Speak { id, text, voice_id, speed } => {
            assert_eq!(id, 3);
            assert_eq!(text, "Hi.");
            assert_eq!(voice_id, "a");
            assert_eq!(f32::from_bits(speed), 3.0);
        }
        other => panic!("{other:?}"),
    }
    match sidecar.receive("{}", request(4, Cmd::Unload)) {
        Action::Free(reply) => acknowledged(&reply, 4),
        other => panic!("{other:?}"),
    }
    assert!(sidecar.engine().is_none());
    assert!(sidecar.meta().is_none());
    match sidecar.receive("{}", speak(5, 1.0)) {
        Action::Answer(reply) => refused(&reply, 5, "no voice pack loaded"),
        other => panic!("{other:?}"),
    }
}

#[test]
fn unloading_nothing_is_acknowledged() {
    let mut sidecar = Sidecar::new();
    match sidecar.receive("{}", request(4, Cmd::Unload)) {
        Action::Free(reply) => acknowledged(&reply, 4),
        other => panic!("{other:?}"),
    }
}

#[test]
fn speech_and_failure_are_reported() {
    let speech = Synthesis { samples: vec![0], sample_rate: 1000, words: vec![] };
    let reply = Sidecar::spoken(6, Ok(speech));
    assert!(reply.ok);
    assert_eq!(reply.id, 6);
    match reply.body {
        Some(Body::Audio { pcm_base64, sample_rate, duration_ms, words }) => {
            assert_eq!(pcm_base64, "AAA=");
            assert_eq!(sample_rate, 1000);
            assert_eq!(duration_ms, 1);
            assert!(words.is_empty());
        }
        other => panic!("{other:?}"),
    }
    refused(&Sidecar::spoken(7, Err("odd".to_string())), 7, "odd");
}

#[test]
fn another_engine_is_not_supported() {
    let none = PackFiles { model: Err(String::new()), tokenizer: Err(String::new()), styles: vec![] };
    match load_pack(&pack(Engine::Piper), &none) {
        Err(LoadError::Unsupported { engine }) => {
            assert_eq!(engine, Engine::Piper);
            let error = LoadError::Unsupported { engine };
            assert_eq!(error.message(), "engine Piper not supported yet");
        }
        _ => panic!("loaded"),
    }
}

fn load_failure(pack: &Pack, files: &PackFiles) -> String {
    match load_pack(pack, files) {
        Ok(_) => panic!("loaded"),
        Err(e) => e.message(),
    }
}

#[test]
fn faults_are_reported_in_order() {
    let mut pack = pack(Engine::Kokoro);
    let mut files = files();
    files.styles = vec![Ok(vec![0; 1023]), Err("no style".to_string())];
    files.tokenizer = Err("no tokenizer".to_string());
    files.model = Err("no model".to_string());
    assert_eq!(load_failure(&pack, &files), "no model");
    files.model = Ok(vec![]);
    pack.config.tokenizer = None;
    assert_eq!(load_failure(&pack, &files), "kokoro pack has no tokenizer file");
    pack.config.tokenizer = Some("t.json".to_string());
    assert_eq!(load_failure(&pack, &files), "no tokenizer");
    files.tokenizer = Ok("{}".to_string());
    assert_eq!(load_failure(&pack, &files), "tokenizer.json has no model.vocab");
    files.tokenizer = Ok(r#"{"model":{"vocab":{}}}"#.to_string());
    assert_eq!(load_failure(&pack, &files), "style file for 'b' is not rows of 256 f32s");
    files.styles[0] = Ok(vec![]);
    assert_eq!(load_failure(&pack, &files), "no style");
    files.styles[1] = Ok(vec![]);
    assert_eq!(load_failure(&pack, &files), "model has no outputs");
}
