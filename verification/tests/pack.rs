use novus_voice::order::{is_le, sort_texts};
use novus_voice::pack::{
    config_path, required_files, ConfigFile, Engine, Pack, PackConfig, PackError,
};
use novus_voice::table::find_key;
use std::path::{Path, PathBuf};

fn config() -> PackConfig {
    PackConfig {
        id: "kokoro-en-v1".to_string(),
        engine: Engine::Kokoro,
        sample_rate: 24000,
        model: "model_q8.onnx".to_string(),
        tokenizer: Some("tokenizer.json".to_string()),
        voices: vec![
            ("bf_emma".to_string(), "voices/bf_emma.bin".to_string()),
            ("af_heart".to_string(), "voices/af_heart.bin".to_string()),
        ],
        word_timings: true,
        language: "en-US".to_string(),
    }
}

fn dir() -> PathBuf {
    PathBuf::from("/p")
}

fn load(config: ConfigFile, present: &[bool]) -> Result<Pack, PackError> {
    Pack::load(dir(), config, &present.to_vec())
}

fn failure(config: ConfigFile, present: &[bool]) -> PackError {
    match load(config, present) {
        Ok(_) => panic!("loaded"),
        Err(e) => e,
    }
}

fn complete() -> Pack {
    load(ConfigFile::Parsed(config()), &[true; 4]).unwrap_or_else(|e| panic!("{e:?}"))
}

#[test]
fn names_are_joined_to_directories() {
    let pack = complete();
    assert_eq!(pack.model_path(), Path::new("/p").join("model_q8.onnx"));
    assert_eq!(pack.tokenizer_path(), Some(Path::new("/p").join("tokenizer.json")));
    assert_eq!(
        pack.voice_path("af_heart").unwrap(),
        Path::new("/p").join("voices/af_heart.bin")
    );
    assert_eq!(config_path(&dir()), Path::new("/p").join("config.json"));
}

#[test]
fn joining_is_that_of_the_platform() {
    for dir in ["", "/", "p", "p/", "/p/q", "é", "C:\\packs", "\\\\host\\share"] {
        for name in ["", "a", "a/b", "/a", "../a", "C:\\a", "\\a"] {
            let mut config = config();
            config.model = name.to_string();
            let pack = Pack { config, dir: PathBuf::from(dir) };
            let expected = Path::new(dir).join(name);
            assert_eq!(pack.model_path().as_os_str(), expected.as_os_str());
        }
    }
}

#[test]
fn a_complete_pack_is_loaded() {
    let pack = complete();
    assert_eq!(pack.dir, dir());
    assert_eq!(pack.config.id, "kokoro-en-v1");
}

#[test]
fn required_files_are_those_of_the_paths() {
    let pack = complete();
    let required = required_files(&pack.dir, &pack.config);
    assert_eq!(
        required,
        vec![
            pack.model_path(),
            pack.tokenizer_path().unwrap(),
            pack.voice_path("bf_emma").unwrap(),
            pack.voice_path("af_heart").unwrap(),
        ]
    );
}

#[test]
fn the_first_missing_file_is_named() {
    let missing = |present: &[bool]| failure(ConfigFile::Parsed(config()), present).message();
    let told = |name: &str| {
        format!("voice pack kokoro-en-v1 is missing {}", Path::new("/p").join(name).display())
    };
    assert_eq!(missing(&[false, false, true, true]), told("model_q8.onnx"));
    assert_eq!(missing(&[true, false, true, false]), told("tokenizer.json"));
    assert_eq!(missing(&[true, true, true, false]), told("voices/af_heart.bin"));
}

#[test]
fn a_pack_may_lack_a_tokenizer() {
    let mut c = config();
    c.tokenizer = None;
    assert_eq!(required_files(&dir(), &c).len(), 3);
    let pack = load(ConfigFile::Parsed(c), &[true; 3]).unwrap_or_else(|e| panic!("{e:?}"));
    assert_eq!(pack.tokenizer_path(), None);
}

#[test]
fn an_unreadable_configuration_is_an_error() {
    let error = failure(ConfigFile::Unreadable("gone".to_string()), &[]);
    assert!(matches!(error, PackError::Unreadable { .. }));
    let path = Path::new("/p").join("config.json");
    assert_eq!(error.message(), format!("reading {}: gone", path.display()));
}

#[test]
fn a_malformed_configuration_is_an_error() {
    let error = failure(ConfigFile::Malformed("odd".to_string()), &[]);
    assert!(matches!(error, PackError::Malformed { .. }));
    assert_eq!(error.message(), "parsing pack config.json: odd");
}

#[test]
fn an_unknown_voice_is_an_error() {
    let error = complete().voice_path("zz").unwrap_err();
    assert_eq!(error.message(), "unknown voice 'zz' in pack kokoro-en-v1");
}

#[test]
fn tables_are_searched_by_key() {
    let table = vec![("a".to_string(), 1), ("b".to_string(), 2)];
    assert_eq!(find_key(&table, "b"), Some(1));
    assert_eq!(find_key(&table, "c"), None);
    let doubled = vec![("a".to_string(), 1), ("b".to_string(), 1), ("b".to_string(), 1)];
    assert_eq!(find_key(&doubled, "b"), Some(1));
}

#[test]
fn dictionary_order_goes_by_code_points() {
    assert!(is_le("", "a"));
    assert!(is_le("a", "a"));
    assert!(is_le("Z", "a"));
    assert!(is_le("ab", "abc"));
    assert!(!is_le("b", "abc"));
    assert!(is_le("z", "é"));
}

#[test]
fn sorting_agrees_with_strings_and_forgets_the_order() {
    let texts: Vec<String> =
        ["bf_emma", "af_heart", "", "am_adam", "é", "Z", "af_heart"].iter().map(|t| t.to_string()).collect();
    let mut expected = texts.clone();
    expected.sort();
    assert_eq!(sort_texts(&texts), expected);
    let reversed: Vec<String> = texts.into_iter().rev().collect();
    assert_eq!(sort_texts(&reversed), expected);
}
