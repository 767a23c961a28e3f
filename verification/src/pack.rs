//! Voice packs: a directory with a model, a tokenizer, voice styles and a
//! `config.json`.

use std::path::PathBuf;

use vstd::prelude::*;

use crate::table::{as_map, distinct_keys, find_key, first_under, keys_of, lemma_has_first};

verus! {

/// The speech engine that a pack is made for.
#[derive(Debug, Clone, Copy, PartialEq, Eq, Structural)]
pub enum Engine {
    Kokoro,
    Piper,
}

/// The name of an engine.
pub open spec fn engine_name(engine: Engine) -> Seq<char> {
    match engine {
        Engine::Kokoro => "Kokoro"@,
        Engine::Piper => "Piper"@,
    }
}

impl Engine {
    /// The name of the engine.
    pub fn name(&self) -> (r: &'static str)
        ensures
            r@ == engine_name(*self),
    {
        match self {
            Engine::Kokoro => "Kokoro",
            Engine::Piper => "Piper",
        }
    }
}

/// `config.json` at the root of every voice pack.
#[derive(Debug, Clone)]
pub struct PackConfig {
    pub id: String,
    pub engine: Engine,
    pub sample_rate: u32,
    pub model: String,
    pub tokenizer: Option<String>,
    /// Style files by voice id.
    pub voices: Vec<(String, String)>,
    pub word_timings: bool,
    /// language tag, e.g. "en-US".
    pub language: String,
}

impl PackConfig {
    /// No voice is listed twice.
    pub open spec fn wf(&self) -> bool {
        distinct_keys(self.voices@)
    }
}

/// A voice pack and the directory that it lies in.
pub struct Pack {
    pub config: PackConfig,
    pub dir: PathBuf,
}

/// What came of reading a pack's `config.json`.
#[derive(Debug, Clone)]
pub enum ConfigFile {
    /// It could not be read, and why.
    Unreadable(String),
    /// It is no pack configuration, and why.
    Malformed(String),
    Parsed(PackConfig),
}

/// Why a pack cannot be used.
#[derive(Debug, Clone)]
pub enum PackError {
    Unreadable { path: String, cause: String },
    Malformed { cause: String },
    Missing { pack: String, path: String },
    UnknownVoice { voice: String, pack: String },
}

/// A pack error in words.
pub open spec fn pack_message(e: PackError) -> Seq<char> {
    match e {
        PackError::Unreadable { path, cause } => "reading "@ + path@ + ": "@ + cause@,
        PackError::Malformed { cause } => "parsing pack config.json: "@ + cause@,
        PackError::Missing { pack, path } => "voice pack "@ + pack@ + " is missing "@ + path@,
        PackError::UnknownVoice { voice, pack } => "unknown voice '"@ + voice@ + "' in pack "@
            + pack@,
    }
}

impl PackError {
    /// The error in words.
    pub fn message(&self) -> (r: String)
        ensures
            r@ == pack_message(*self),
    {
        match self {
            PackError::Unreadable { path, cause } => String::from_str("reading ").concat(
                path.as_str(),
            ).concat(": ").concat(cause.as_str()),
            PackError::Malformed { cause } => String::from_str("parsing pack config.json: ").concat(
                cause.as_str(),
            ),
            PackError::Missing { pack, path } => String::from_str("voice pack ").concat(
                pack.as_str(),
            ).concat(" is missing ").concat(path.as_str()),
            PackError::UnknownVoice { voice, pack } => String::from_str("unknown voice '").concat(
                voice.as_str(),
            ).concat("' in pack ").concat(pack.as_str()),
        }
    }
}

/// `std::path::PathBuf`, a path as the platform writes it.
#[verifier::external_type_specification]
#[verifier::external_body]
pub struct ExPathBuf(std::path::PathBuf);

/// Where a name lies in a directory. A `PathBuf` is the platform's own kind of
/// path, and the rules are that kind's: which separators there are, and which
/// names are absolute.
pub uninterp spec fn joined(dir: PathBuf, name: Seq<char>) -> PathBuf;

/// A path as it is shown.
pub uninterp spec fn path_text(path: PathBuf) -> Seq<char>;

/// `std::path::Path::join`: the path of a name in a directory is a function of the
/// two. What it looks like is left to the platform: a relative name is put behind
/// the directory, and an absolute one takes its place.
#[verifier::external_body]
pub(crate) fn join(dir: &PathBuf, name: &str) -> (r: PathBuf)
    ensures
        r == joined(*dir, name@),
{
    dir.join(name)
}

/// `std::path::Path::display`: what is shown is a function of the path.
#[verifier::external_body]
pub(crate) fn show(path: &PathBuf) -> (r: String)
    ensures
        r@ == path_text(*path),
{
    path.display().to_string()
}

/// The style files of a list of voices.
pub open spec fn style_files(dir: PathBuf, voices: Seq<(String, String)>) -> Seq<PathBuf> {
    voices.map_values(|v: (String, String)| joined(dir, v.1@))
}

/// The files that a pack must hold: the model, the tokenizer where there is one,
/// and a style file for each voice.
pub open spec fn required(dir: PathBuf, config: PackConfig) -> Seq<PathBuf> {
    seq![joined(dir, config.model@)] + match config.tokenizer {
        Some(t) => seq![joined(dir, t@)],
        None => Seq::<PathBuf>::empty(),
    } + style_files(dir, config.voices@)
}

/// How many files a pack must hold.
pub open spec fn required_count(config: PackConfig) -> nat {
    (if config.tokenizer is Some {
        2nat
    } else {
        1nat
    }) + config.voices@.len()
}

/// The files that a pack must hold.
pub fn required_files(dir: &PathBuf, config: &PackConfig) -> (r: Vec<PathBuf>)
    ensures
        r@ == required(*dir, *config),
{
    let mut r: Vec<PathBuf> = Vec::new();
    r.push(join(dir, config.model.as_str()));
    if let Some(t) = &config.tokenizer {
        r.push(join(dir, t.as_str()));
    }
    let ghost head = r@;
    let ghost tail = style_files(*dir, config.voices@);
    assert(head + tail =~= required(*dir, *config));
    for i in 0..config.voices.len()
        invariant
            tail == style_files(*dir, config.voices@),
            r@ == head + tail.take(i as int),
    {
        r.push(join(dir, config.voices[i].1.as_str()));
    }
    r
}

/// Where the configuration of a pack lies.
pub fn config_path(dir: &PathBuf) -> (r: PathBuf)
    ensures
        r == joined(*dir, "config.json"@),
{
    join(dir, "config.json")
}

/// The files that a pack must hold are those that its paths lead to: the model's,
/// the tokenizer's, and that of every voice.
pub proof fn law_required_files_are_those_of_the_paths(
    dir: PathBuf,
    config: PackConfig,
    voice: Seq<char>,
)
    ensures
        required(dir, config).contains(joined(dir, config.model@)),
        config.tokenizer matches Some(t) ==> required(dir, config).contains(joined(dir, t@)),
        as_map(config.voices@).contains_key(voice) ==> required(dir, config).contains(
            joined(dir, as_map(config.voices@)[voice]@),
        ),
{
    let all = required(dir, config);
    let tail = style_files(dir, config.voices@);
    assert(all[0] == joined(dir, config.model@));
    if let Some(t) = config.tokenizer {
        assert(all[1] == joined(dir, t@));
    }
    if as_map(config.voices@).contains_key(voice) {
        let k = choose|k: int|
            0 <= k < config.voices@.len() && keys_of(config.voices@)[k] == voice;
        let i = lemma_has_first(config.voices@, voice, k);
        let c = choose|c: int| first_under(config.voices@, voice, c);
        assert(all[all.len() - tail.len() + c] == tail[c]);
    }
}

/// The first place that is not marked.
pub open spec fn first_missing(present: Seq<bool>, i: int) -> bool {
    &&& 0 <= i < present.len()
    &&& !present[i]
    &&& forall|j: int| 0 <= j < i ==> #[trigger] present[j]
}

/// The first place that is not marked.
fn find_missing(present: &Vec<bool>) -> (r: Option<usize>)
    ensures
        match r {
            Some(i) => first_missing(present@, i as int),
            None => forall|j: int| 0 <= j < present@.len() ==> #[trigger] present@[j],
        },
{
    for i in 0..present.len()
        invariant
            forall|j: int| 0 <= j < i ==> #[trigger] present@[j],
    {
        if !present[i] {
            return Some(i);
        }
    }
    None
}

impl Pack {
    /// A pack is as sound as its configuration.
    pub open spec fn wf(&self) -> bool {
        self.config.wf()
    }

    /// Takes a pack into use, from what was read of its `config.json`, and for
    /// each file that it must hold whether it is there. All of them have to be.
    pub fn load(dir: PathBuf, config: ConfigFile, present: &Vec<bool>) -> (r: Result<
        Pack,
        PackError,
    >)
        requires
            config matches ConfigFile::Parsed(c) ==> c.wf() && present@.len() == required_count(c),
        ensures
            r matches Ok(pack) ==> pack.wf(),
            match config {
                ConfigFile::Unreadable(why) => r matches Err(PackError::Unreadable { path, cause })
                    && path@ == path_text(joined(dir, "config.json"@)) && cause == why,
                ConfigFile::Malformed(why) => r matches Err(PackError::Malformed { cause }) && cause
                    == why,
                ConfigFile::Parsed(c) => match r {
                    Ok(pack) => pack.config == c && pack.dir == dir && forall|j: int|
                        0 <= j < present@.len() ==> #[trigger] present@[j],
                    Err(PackError::Missing { pack, path }) => pack@ == c.id@ && exists|i: int|
                        #[trigger] first_missing(present@, i) && path@ == path_text(
                            required(dir, c)[i],
                        ),
                    Err(_) => false,
                },
            },
    {
        match config {
            ConfigFile::Unreadable(cause) => Err(
                PackError::Unreadable { path: show(&config_path(&dir)), cause },
            ),
            ConfigFile::Malformed(cause) => Err(PackError::Malformed { cause }),
            ConfigFile::Parsed(config) => match find_missing(present) {
                Some(i) => {
                    let paths: Vec<PathBuf> = required_files(&dir, &config);
                    Err(PackError::Missing { pack: config.id.clone(), path: show(&paths[i]) })
                },
                None => Ok(Pack { config, dir }),
            },
        }
    }

    /// Where the model lies.
    pub fn model_path(&self) -> (r: PathBuf)
        ensures
            r == joined(self.dir, self.config.model@),
    {
        join(&self.dir, self.config.model.as_str())
    }

    /// Where the tokenizer lies, if the pack has one.
    pub fn tokenizer_path(&self) -> (r: Option<PathBuf>)
        ensures
            match self.config.tokenizer {
                Some(t) => r matches Some(path) && path == joined(self.dir, t@),
                None => r is None,
            },
    {
        match &self.config.tokenizer {
            Some(t) => Some(join(&self.dir, t.as_str())),
            None => None,
        }
    }

    /// Where the style file of a voice lies.
    pub fn voice_path(&self, voice_id: &str) -> (r: Result<PathBuf, PackError>)
        ensures
            match r {
                Ok(path) => as_map(self.config.voices@).contains_key(voice_id@) && path == joined(
                    self.dir,
                    as_map(self.config.voices@)[voice_id@]@,
                ),
                Err(PackError::UnknownVoice { voice, pack }) => !as_map(
                    self.config.voices@,
                ).contains_key(voice_id@) && voice@ == voice_id@ && pack@ == self.config.id@,
                Err(_) => false,
            },
    {
        match find_key(&self.config.voices, voice_id) {
            Some(i) => Ok(join(&self.dir, self.config.voices[i].1.as_str())),
            None => Err(
                PackError::UnknownVoice {
                    voice: voice_id.to_owned(),
                    pack: self.config.id.clone(),
                },
            ),
        }
    }
}

/// The files that a pack must hold are, in this order, the model, the tokenizer
/// where there is one, and the style file of every voice; and no others.
pub proof fn law_required_files_come_in_order(dir: PathBuf, config: PackConfig, i: int)
    ensures
        ({
            let head: int = if config.tokenizer is Some {
                2
            } else {
                1
            };
            &&& required(dir, config).len() == head + config.voices@.len()
            &&& required_count(config) == required(dir, config).len()
            &&& required(dir, config)[0] == joined(dir, config.model@)
            &&& config.tokenizer matches Some(t) ==> required(dir, config)[1] == joined(dir, t@)
            &&& 0 <= i < config.voices@.len() ==> required(dir, config)[head + i] == joined(
                dir,
                config.voices@[i].1@,
            )
        }),
{
}

/// A file is the first missing one when it is missing and none before it is.
pub proof fn law_the_first_missing_file_is_named(present: Seq<bool>, i: int)
    ensures
        first_missing(present, i) <==> 0 <= i < present.len() && !present[i] && forall|j: int|
            0 <= j < i ==> #[trigger] present[j],
{
}

/// What is told of a pack that cannot be used names all that it concerns.
pub proof fn law_pack_errors_name_what_they_concern(a: String, b: String)
    ensures
        pack_message(PackError::Unreadable { path: a, cause: b }) == "reading "@ + a@ + ": "@ + b@,
        pack_message(PackError::Malformed { cause: a }) == "parsing pack config.json: "@ + a@,
        pack_message(PackError::Missing { pack: a, path: b }) == "voice pack "@ + a@
            + " is missing "@ + b@,
        pack_message(PackError::UnknownVoice { voice: a, pack: b }) == "unknown voice '"@ + a@
            + "' in pack "@ + b@,
        engine_name(Engine::Kokoro) == "Kokoro"@,
        engine_name(Engine::Piper) == "Piper"@,
{
}

/// A configuration is sound when no two voices have the same id.
pub proof fn law_sound_configurations_list_voices_once(config: PackConfig)
    ensures
        config.wf() <==> forall|i: int, j: int|
            0 <= i < j < config.voices@.len() ==> (#[trigger] config.voices@[i]).0@ != (
            #[trigger] config.voices@[j]).0@,
{
    let keys = keys_of(config.voices@);
    if config.wf() {
        assert forall|i: int, j: int| 0 <= i < j < config.voices@.len() implies (
        #[trigger] config.voices@[i]).0@ != (#[trigger] config.voices@[j]).0@ by {
            assert(keys[i] != keys[j]);
        }
    } else {
        let (i, j) = choose|i: int, j: int|
            0 <= i < keys.len() && 0 <= j < keys.len() && i != j && keys[i] == keys[j];
        if i < j {
            assert(config.voices@[i].0@ == config.voices@[j].0@);
        } else {
            assert(config.voices@[j].0@ == config.voices@[i].0@);
        }
    }
}

} // verus!
