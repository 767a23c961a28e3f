//! The Kokoro engine: from text to what the model is given, and from what the
//! model gives back to speech with word timings.

use vstd::prelude::*;

use crate::chars::{chars_of, texts_of, unicode_lowercase};
use crate::encode::{encode, id_indices, pad, padded, phoneme_ids};
use crate::outputs::{audio_index, duration_index, find_outputs};
use crate::pack::{engine_name, Engine, Pack, PackConfig};
use crate::phonemes::{
    g2p_may_give, g2p_tokens, is_phonemizable, joined_sounds, new_g2p, phonemizable, phonemize, speaks_british,
    token_texts, Language,
};
use crate::protocol::WordTiming;
use crate::speech::{lower, speakable, speakable_text};
use crate::style::{holds_rows, parse_style_table, style_for, style_row, words_in, STYLE_DIM};
use crate::table::{as_map, find_key, first_under, keys_of, lemma_has_first};
use crate::timing::{
    pieces_of, stand_in_order, timings_of, token_views, word_timings, Token, TokenView,
};
use crate::vocab::{parse_vocab, vocab_fault, vocab_spelled, Vocab, VocabError};

verus! {

/// Kokoro-82M (timestamped ONNX export), without the model's session.
pub struct KokoroEngine {
    vocab: Vocab,
    styles: Vec<(String, Vec<u32>)>,
    g2p: misaki_rs::G2P,
    sample_rate: u32,
    audio_output: String,
    duration_output: Option<String>,
}

/// The contents of a [`KokoroEngine`].
pub struct EngineView {
    /// Input ids by phoneme character.
    pub vocab: Map<char, i64>,
    /// Style tables by voice id.
    pub styles: Map<Seq<char>, Seq<u32>>,
    /// British rather than American English.
    pub british: bool,
    pub sample_rate: u32,
    pub audio_output: Seq<char>,
    pub duration_output: Option<Seq<char>>,
}

/// Style tables as a map.
pub open spec fn style_map(styles: Seq<(String, Vec<u32>)>) -> Map<Seq<char>, Seq<u32>> {
    as_map(styles).map_values(|table: Vec<u32>| table@)
}

impl View for KokoroEngine {
    type V = EngineView;

    closed spec fn view(&self) -> EngineView {
        EngineView {
            vocab: self.vocab@,
            styles: style_map(self.styles@),
            british: speaks_british(self.g2p),
            sample_rate: self.sample_rate,
            audio_output: self.audio_output@,
            duration_output: match self.duration_output {
                Some(name) => Some(name@),
                None => None,
            },
        }
    }
}

/// What was read of a pack: the names of the model's outputs, the tokenizer
/// file, and the style file of each voice. What could not be read is given by
/// the reason.
pub struct PackFiles {
    pub model: Result<Vec<String>, String>,
    pub tokenizer: Result<String, String>,
    pub styles: Vec<Result<Vec<u8>, String>>,
}

/// Why an engine cannot be set up.
#[derive(Debug, Clone)]
pub enum LoadError {
    /// The pack is made for another engine.
    Unsupported { engine: Engine },
    /// The model does not load.
    Model(String),
    NoTokenizer,
    /// The tokenizer file cannot be read.
    Tokenizer(String),
    Vocab(VocabError),
    /// A style file cannot be read.
    Style(String),
    /// A style file is not made of rows.
    Rows { voice: String },
    NoOutputs,
}

/// A load error in words.
pub open spec fn load_message(e: LoadError) -> Seq<char> {
    match e {
        LoadError::Unsupported { engine } => "engine "@ + engine_name(engine)
            + " not supported yet"@,
        LoadError::Model(why) => why@,
        LoadError::NoTokenizer => "kokoro pack has no tokenizer file"@,
        LoadError::Tokenizer(why) => why@,
        LoadError::Vocab(VocabError::Json(why)) => why@,
        LoadError::Vocab(VocabError::NoVocab) => "tokenizer.json has no model.vocab"@,
        LoadError::Style(why) => why@,
        LoadError::Rows { voice } => "style file for '"@ + voice@ + "' is not rows of 256 f32s"@,
        LoadError::NoOutputs => "model has no outputs"@,
    }
}

impl LoadError {
    /// The error in words.
    pub fn message(&self) -> (r: String)
        ensures
            r@ == load_message(*self),
    {
        match self {
            LoadError::Unsupported { engine } => String::from_str("engine ").concat(
                engine.name(),
            ).concat(" not supported yet"),
            LoadError::Model(why) => why.clone(),
            LoadError::NoTokenizer => String::from_str("kokoro pack has no tokenizer file"),
            LoadError::Tokenizer(why) => why.clone(),
            LoadError::Vocab(e) => e.message(),
            LoadError::Style(why) => why.clone(),
            LoadError::Rows { voice } => String::from_str("style file for '").concat(
                voice.as_str(),
            ).concat("' is not rows of 256 f32s"),
            LoadError::NoOutputs => String::from_str("model has no outputs"),
        }
    }
}

/// Whether a language tag asks for British English: `en-gb` in any case.
pub open spec fn is_british(tag: Seq<char>) -> bool {
    tag.map_values(|c: char| lower(c)) == "en-gb"@
}

/// The variety of English that a language tag asks for.
pub fn language_of(tag: &str) -> (r: Language)
    ensures
        r == (if is_british(tag@) {
            Language::EnglishGB
        } else {
            Language::EnglishUS
        }),
{
    let c: Vec<char> = chars_of(tag);
    let wanted: Vec<char> = chars_of("en-gb");
    let ghost low = tag@.map_values(|c: char| lower(c));
    if c.len() != wanted.len() {
        return Language::EnglishUS;
    }
    for k in 0..c.len()
        invariant
            c@ == tag@,
            wanted@ == "en-gb"@,
            c@.len() == wanted@.len(),
            low == tag@.map_values(|c: char| lower(c)),
            forall|j: int| 0 <= j < k ==> #[trigger] low[j] == wanted@[j],
    {
        if crate::speech::lower_char(c[k]) != wanted[k] {
            assert(low[k as int] != "en-gb"@[k as int]);
            return Language::EnglishUS;
        }
    }
    assert(low =~= "en-gb"@);
    Language::EnglishGB
}

/// A style file could be read and holds rows.
pub open spec fn style_is_sound(file: Result<Vec<u8>, String>) -> bool {
    file matches Ok(bytes) && holds_rows(bytes@)
}

/// The first unsound style file.
pub open spec fn first_unsound(files: Seq<Result<Vec<u8>, String>>, n: int, i: int) -> bool {
    &&& 0 <= i < n
    &&& !style_is_sound(files[i])
    &&& forall|j: int| 0 <= j < i ==> style_is_sound(#[trigger] files[j])
}

/// The style tables of the voices, each read from the file of the same place.
pub open spec fn tables_read(
    voices: Seq<(String, String)>,
    files: Seq<Result<Vec<u8>, String>>,
) -> Map<Seq<char>, Seq<u32>> {
    Map::new(
        |id: Seq<char>| keys_of(voices).contains(id),
        |id: Seq<char>|
            words_in((files[choose|i: int| first_under(voices, id, i)]->Ok_0)@),
    )
}

/// The names of the model's outputs in lower case.
pub open spec fn lowered(names: Seq<Seq<char>>) -> Seq<Seq<char>> {
    names.map_values(|name: Seq<char>| unicode_lowercase(name))
}

/// The engine that a pack makes, where all its files are sound.
pub open spec fn engine_of(config: PackConfig, files: PackFiles) -> EngineView {
    let names = texts_of((files.model->Ok_0)@);
    EngineView {
        vocab: vocab_spelled((files.tokenizer->Ok_0)@)->0,
        styles: tables_read(config.voices@, files.styles@),
        british: is_british(config.language@),
        sample_rate: config.sample_rate,
        audio_output: names[audio_index(lowered(names))],
        duration_output: match duration_index(lowered(names)) {
            Some(i) => Some(names[i]),
            None => None,
        },
    }
}

/// The model loaded, and the pack has a tokenizer.
pub open spec fn has_tokenizer(config: PackConfig, files: PackFiles) -> bool {
    files.model is Ok && config.tokenizer is Some
}

/// Moreover, the tokenizer spells a vocabulary.
pub open spec fn has_vocab(config: PackConfig, files: PackFiles) -> bool {
    &&& has_tokenizer(config, files)
    &&& files.tokenizer matches Ok(raw)
    &&& vocab_spelled(raw@) is Some
}

/// Moreover, the style files of all voices are sound.
pub open spec fn has_styles(config: PackConfig, files: PackFiles) -> bool {
    has_vocab(config, files) && forall|j: int|
        0 <= j < config.voices@.len() ==> style_is_sound(#[trigger] files.styles@[j])
}

/// What keeps an engine from being set up. Of several faults the first counts:
/// first the model, then the tokenizer, then the styles in the order of the
/// voices, then the model's outputs.
pub open spec fn load_fault(config: PackConfig, files: PackFiles, e: LoadError) -> bool {
    match e {
        LoadError::Unsupported { .. } => false,
        LoadError::Model(why) => files.model == Err::<Vec<String>, String>(why),
        LoadError::NoTokenizer => files.model is Ok && config.tokenizer is None,
        LoadError::Tokenizer(why) => has_tokenizer(config, files) && files.tokenizer == Err::<
            String,
            String,
        >(why),
        LoadError::Vocab(e) => has_tokenizer(config, files) && (files.tokenizer matches Ok(raw)
            && vocab_fault(raw@, e)),
        LoadError::Style(why) => has_vocab(config, files) && exists|i: int|
            first_unsound(files.styles@, config.voices@.len() as int, i)
                && #[trigger] files.styles@[i] == Err::<Vec<u8>, String>(why),
        LoadError::Rows { voice } => has_vocab(config, files) && exists|i: int|
            first_unsound(files.styles@, config.voices@.len() as int, i)
                && (#[trigger] files.styles@[i]) is Ok && voice@ == config.voices@[i].0@,
        LoadError::NoOutputs => has_styles(config, files) && (files.model->Ok_0)@.len() == 0,
    }
}

/// At most one fault counts, and none where the engine is set up: two faults of
/// the same pack are told in the same words.
pub proof fn law_one_fault_counts(
    config: PackConfig,
    files: PackFiles,
    e1: LoadError,
    e2: LoadError,
)
    requires
        load_fault(config, files, e1),
    ensures
        !(has_styles(config, files) && (files.model->Ok_0)@.len() > 0),
        load_fault(config, files, e2) ==> load_message(e1) == load_message(e2),
{
    let n = config.voices@.len() as int;
    if load_fault(config, files, e2) && (e1 is Style || e1 is Rows) && (e2 is Style || e2 is Rows) {
        let i = choose|i: int| first_unsound(files.styles@, n, i);
        assert forall|j: int| first_unsound(files.styles@, n, j) implies j == i by {
            if j < i {
                assert(style_is_sound(files.styles@[j]));
            }
            if i < j {
                assert(style_is_sound(files.styles@[i]));
            }
        }
    }
}

/// Reads the style files of all voices.
fn read_styles(voices: &Vec<(String, String)>, files: &Vec<Result<Vec<u8>, String>>) -> (r: Result<
    Vec<(String, Vec<u32>)>,
    LoadError,
>)
    requires
        files@.len() == voices@.len(),
    ensures
        match r {
            Ok(styles) => style_map(styles@) == tables_read(voices@, files@) && forall|j: int|
                0 <= j < voices@.len() ==> style_is_sound(#[trigger] files@[j]),
            Err(LoadError::Style(why)) => exists|i: int|
                first_unsound(files@, voices@.len() as int, i) && #[trigger] files@[i] == Err::<
                    Vec<u8>,
                    String,
                >(why),
            Err(LoadError::Rows { voice }) => exists|i: int|
                first_unsound(files@, voices@.len() as int, i) && (#[trigger] files@[i]) is Ok
                    && voice@ == voices@[i].0@,
            Err(_) => false,
        },
{
    let mut styles: Vec<(String, Vec<u32>)> = Vec::new();
    for i in 0..voices.len()
        invariant
            files@.len() == voices@.len(),
            styles@.len() == i,
            forall|j: int| 0 <= j < i ==> style_is_sound(#[trigger] files@[j]),
            forall|j: int|
                0 <= j < i ==> (#[trigger] styles@[j]).0@ == voices@[j].0@ && styles@[j].1@
                    == words_in((files@[j]->Ok_0)@),
    {
        match &files[i] {
            Err(why) => {
                assert(first_unsound(files@, voices@.len() as int, i as int));
                return Err(LoadError::Style(why.clone()));
            },
            Ok(bytes) => match parse_style_table(bytes) {
                None => {
                    assert(first_unsound(files@, voices@.len() as int, i as int));
                    return Err(LoadError::Rows { voice: voices[i].0.clone() });
                },
                Some(table) => {
                    styles.push((voices[i].0.clone(), table));
                },
            },
        }
    }
    proof {
        lemma_tables_read(voices@, files@, styles@);
    }
    Ok(styles)
}

/// A list of tables that follows the voices and their files is the map of the
/// tables read.
proof fn lemma_tables_read(
    voices: Seq<(String, String)>,
    files: Seq<Result<Vec<u8>, String>>,
    styles: Seq<(String, Vec<u32>)>,
)
    requires
        styles.len() == voices.len(),
        forall|j: int|
            0 <= j < voices.len() ==> (#[trigger] styles[j]).0@ == voices[j].0@ && styles[j].1@
                == words_in((files[j]->Ok_0)@),
    ensures
        style_map(styles) == tables_read(voices, files),
{
    assert(keys_of(styles) =~= keys_of(voices));
    assert forall|id: Seq<char>| #[trigger] keys_of(voices).contains(id) implies style_map(
        styles,
    )[id] == tables_read(voices, files)[id] by {
        let k = choose|k: int| 0 <= k < voices.len() && keys_of(voices)[k] == id;
        let i = lemma_has_first(voices, id, k);
        let a = choose|a: int| first_under(voices, id, a);
        assert(styles[i].0@ == id);
        assert forall|j: int| 0 <= j < i implies (#[trigger] styles[j]).0@ != id by {
            assert(voices[j].0@ != id);
        }
        assert(first_under(styles, id, i));
        let b = choose|b: int| first_under(styles, id, b);
        assert(styles[b].0@ == voices[b].0@);
        assert(styles[a].0@ == voices[a].0@);
        if a < b {
            assert(styles[a].0@ != id);
        }
        if b < a {
            assert(voices[b].0@ != id);
        }
    }
    assert(style_map(styles) =~= tables_read(voices, files));
}

/// Speech: what is heard, and when each word is.
#[derive(Debug, Clone)]
pub struct Synthesis {
    /// Mono samples.
    pub samples: Vec<i16>,
    pub sample_rate: u32,
    pub words: Vec<WordTiming>,
}

/// How a text will be spoken: what the model is given, and what is needed to
/// time the words afterwards.
#[derive(Debug, Clone)]
pub struct Plan {
    /// The text in its spoken form.
    pub speak: String,
    pub tokens: Vec<Token>,
    /// For each phoneme character the place of its id, if it was given one.
    pub id_of_char: Vec<Option<usize>>,
    /// The ids with a pad on either side.
    pub input_ids: Vec<i64>,
    /// A row of the voice's style table.
    pub style: Vec<u32>,
    /// The speaking rate, by its bit pattern.
    pub speed: u32,
}

/// Why a text cannot be spoken.
#[derive(Debug, Clone)]
pub enum SynthesisError {
    /// The phonemizer gave up.
    Phonemizer(String),
    /// The vocabulary knows none of the phonemes.
    Unspeakable,
    VoiceNotLoaded { voice: String },
}

/// A synthesis error in words.
pub open spec fn synthesis_message(e: SynthesisError) -> Seq<char> {
    match e {
        SynthesisError::Phonemizer(why) => "g2p failed: "@ + why@,
        SynthesisError::Unspeakable => "no speakable content in text"@,
        SynthesisError::VoiceNotLoaded { voice } => "voice '"@ + voice@ + "' not loaded"@,
    }
}

impl SynthesisError {
    /// The error in words.
    pub fn message(&self) -> (r: String)
        ensures
            r@ == synthesis_message(*self),
    {
        match self {
            SynthesisError::Phonemizer(why) => String::from_str("g2p failed: ").concat(
                why.as_str(),
            ),
            SynthesisError::Unspeakable => String::from_str("no speakable content in text"),
            SynthesisError::VoiceNotLoaded { voice } => String::from_str("voice '").concat(
                voice.as_str(),
            ).concat("' not loaded"),
        }
    }
}

/// The style table of a voice, if the voice is loaded, has a row.
pub open spec fn has_style(engine: EngineView, voice: Seq<char>) -> bool {
    engine.styles.contains_key(voice) ==> engine.styles[voice].len() >= STYLE_DIM
}

/// A plan gives the model what phonemes and a voice call for.
pub open spec fn plan_fits(
    engine: EngineView,
    phonemes: Seq<char>,
    voice: Seq<char>,
    plan: Plan,
) -> bool {
    let ids = phoneme_ids(engine.vocab, phonemes);
    &&& ids.len() > 0
    &&& engine.styles.contains_key(voice)
    &&& plan.id_of_char@ == id_indices(engine.vocab, phonemes)
    &&& plan.input_ids@ == padded(ids)
    &&& plan.style@ == style_for(engine.styles[voice], ids.len() as int)
}

/// The tokens are those that a text is cut into, each with phonemes of its own
/// and a space behind it, and a phonemizer of the variety may give them.
pub open spec fn cut_from(british: bool, text: Seq<char>, tokens: Seq<TokenView>) -> bool {
    &&& g2p_may_give(british, text, Ok(tokens))
    &&& token_texts(tokens) == g2p_tokens(text)
    &&& stand_in_order(text, pieces_of(tokens))
    &&& forall|i: int|
        0 <= i < tokens.len() ==> (#[trigger] tokens[i]).phonemes is Some && tokens[i].whitespace
            == seq![' ']
}

/// A plan speaks a text: its tokens are those that the spoken form is cut into,
/// and the model is given the ids of their phonemes.
pub open spec fn plan_speaks(
    engine: EngineView,
    text: Seq<char>,
    voice: Seq<char>,
    speed: u32,
    plan: Plan,
) -> bool {
    let tokens = token_views(plan.tokens@);
    &&& plan.speak@ == speakable(text)
    &&& cut_from(engine.british, speakable(text), tokens)
    &&& plan_fits(engine, joined_sounds(tokens), voice, plan)
    &&& plan.speed == speed
}

/// Some phonemes of a text have an id, or none of them has, in a way of
/// phonemizing it.
pub open spec fn may_sound(engine: EngineView, text: Seq<char>, sounds: bool) -> bool {
    exists|tokens: Seq<TokenView>| #[trigger]
        cut_from(engine.british, speakable(text), tokens) && (phoneme_ids(
            engine.vocab,
            joined_sounds(tokens),
        ).len() > 0) == sounds
}

/// What may come of planning the speech of a text.
pub open spec fn outcome_fits(
    engine: EngineView,
    text: Seq<char>,
    voice: Seq<char>,
    speed: u32,
    outcome: Result<Plan, SynthesisError>,
) -> bool {
    match outcome {
        Ok(plan) => plan_speaks(engine, text, voice, speed, plan),
        Err(SynthesisError::Unspeakable) => may_sound(engine, text, false),
        Err(SynthesisError::VoiceNotLoaded { voice: named }) => may_sound(engine, text, true)
            && !engine.styles.contains_key(voice) && named@ == voice,
        Err(SynthesisError::Phonemizer(why)) => g2p_may_give(
            engine.british,
            speakable(text),
            Err(why@),
        ),
    }
}

/// Tokens as the phonemizer gives them are cut from the text.
proof fn lemma_cut_from(british: bool, text: Seq<char>, tokens: Seq<Token>)
    requires
        g2p_may_give(british, text, Ok(token_views(tokens))),
        token_texts(token_views(tokens)) == g2p_tokens(text),
        stand_in_order(text, pieces_of(token_views(tokens))),
        forall|i: int|
            0 <= i < tokens.len() ==> (#[trigger] tokens[i]).phonemes is Some
                && tokens[i].whitespace@ == seq![' '],
    ensures
        cut_from(british, text, token_views(tokens)),
{
    let views = token_views(tokens);
    assert forall|i: int| 0 <= i < views.len() implies (#[trigger] views[i]).phonemes is Some
        && views[i].whitespace == seq![' '] by {
        assert(tokens[i].phonemes is Some);
    }
}

impl KokoroEngine {
    /// Sets up the engine of a pack from what was read of the pack's files.
    pub fn load(pack: &Pack, files: &PackFiles) -> (r: Result<KokoroEngine, LoadError>)
        requires
            files.styles@.len() == pack.config.voices@.len(),
        ensures
            match r {
                Ok(engine) => has_styles(pack.config, *files) && (files.model->Ok_0)@.len() > 0
                    && engine@ == engine_of(pack.config, *files),
                Err(e) => load_fault(pack.config, *files, e),
            },
    {
        let names: &Vec<String> = match &files.model {
            Ok(names) => names,
            Err(why) => {
                return Err(LoadError::Model(why.clone()));
            },
        };
        if pack.config.tokenizer.is_none() {
            return Err(LoadError::NoTokenizer);
        }
        let vocab: Vocab = match &files.tokenizer {
            Ok(raw) => match parse_vocab(raw.as_str()) {
                Ok(vocab) => vocab,
                Err(e) => {
                    return Err(LoadError::Vocab(e));
                },
            },
            Err(why) => {
                return Err(LoadError::Tokenizer(why.clone()));
            },
        };
        let styles: Vec<(String, Vec<u32>)> = match read_styles(
            &pack.config.voices,
            &files.styles,
        ) {
            Ok(styles) => styles,
            Err(e) => {
                return Err(e);
            },
        };
        if names.len() == 0 {
            return Err(LoadError::NoOutputs);
        }
        let mut low: Vec<String> = Vec::new();
        for i in 0..names.len()
            invariant
                texts_of(low@) == lowered(texts_of(names@)).take(i as int),
        {
            let ghost before = low@;
            low.push(names[i].as_str().to_lowercase());
            assert(texts_of(low@) =~= texts_of(before).push(lowered(texts_of(names@))[i as int]));
        }
        assert(texts_of(low@) =~= lowered(texts_of(names@)));
        let (audio, durations) = find_outputs(&low);
        Ok(
            KokoroEngine {
                vocab,
                styles,
                g2p: new_g2p(language_of(pack.config.language.as_str())),
                sample_rate: pack.config.sample_rate,
                audio_output: names[audio].clone(),
                duration_output: match durations {
                    Some(i) => Some(names[i].clone()),
                    None => None,
                },
            },
        )
    }

    /// Samples per second.
    pub fn sample_rate(&self) -> (r: u32)
        ensures
            r == self@.sample_rate,
    {
        self.sample_rate
    }

    /// The name of the model output that is the audio.
    pub fn audio_output(&self) -> (r: &str)
        ensures
            r@ == self@.audio_output,
    {
        self.audio_output.as_str()
    }

    /// The name of the model output that is the durations, if there is one.
    pub fn duration_output(&self) -> (r: Option<&str>)
        ensures
            match r {
                Some(name) => self@.duration_output == Some(name@),
                None => self@.duration_output is None,
            },
    {
        match &self.duration_output {
            Some(name) => Some(name.as_str()),
            None => None,
        }
    }

    /// Plans the speech of a text that was phonemized: what the model is given,
    /// and what is needed to time the words afterwards. A style table without a
    /// row has no style to give.
    pub fn plan(
        &self,
        speak: String,
        phonemes: &str,
        tokens: Vec<Token>,
        voice_id: &str,
        speed: u32,
    ) -> (r: Result<Plan, SynthesisError>)
        requires
            phoneme_ids(self@.vocab, phonemes@).len() > 0 ==> has_style(self@, voice_id@),
        ensures
            match r {
                Ok(plan) => plan.speak == speak && plan.tokens == tokens && plan.speed == speed
                    && plan_fits(self@, phonemes@, voice_id@, plan),
                Err(SynthesisError::Unspeakable) => phoneme_ids(self@.vocab, phonemes@).len() == 0,
                Err(SynthesisError::VoiceNotLoaded { voice }) => phoneme_ids(
                    self@.vocab,
                    phonemes@,
                ).len() > 0 && !self@.styles.contains_key(voice_id@) && voice@ == voice_id@,
                Err(SynthesisError::Phonemizer(_)) => false,
            },
    {
        let (ids, id_of_char) = encode(&self.vocab, phonemes);
        if ids.len() == 0 {
            return Err(SynthesisError::Unspeakable);
        }
        match find_key(&self.styles, voice_id) {
            None => Err(SynthesisError::VoiceNotLoaded { voice: voice_id.to_owned() }),
            Some(i) => {
                let style: Vec<u32> = style_row(&self.styles[i].1, ids.len());
                Ok(Plan { speak, tokens, id_of_char, input_ids: pad(&ids), style, speed })
            },
        }
    }

    /// Plans the speech of a text: phonemizes its spoken form, and gives the
    /// phonemes their ids. Which phonemes come of the text, and whether any do,
    /// is for the phonemizer to say; a style table without a row would be of no
    /// use to those that have an id.
    pub fn synthesize(&self, text: &str, voice_id: &str, speed: u32) -> (r: Result<
        Plan,
        SynthesisError,
    >)
        requires
            phonemizable(speakable(text@)),
            has_style(self@, voice_id@),
        ensures
            outcome_fits(self@, text@, voice_id@, speed, r),
    {
        let speak: String = speakable_text(text);
        match phonemize(&self.g2p, speak.as_str()) {
            Err(why) => Err(SynthesisError::Phonemizer(why)),
            Ok((phonemes, tokens)) => {
                proof {
                    lemma_cut_from(self@.british, speakable(text@), tokens@);
                }
                self.plan(speak, phonemes.as_str(), tokens, voice_id, speed)
            },
        }
    }

    /// Plans the speech of any text. There is neither a plan nor an error where
    /// the phonemizer cannot take the text, and where there is something to
    /// speak but the style table of the voice has no row.
    pub fn try_synthesize(&self, text: &str, voice_id: &str, speed: u32) -> (r: Option<
        Result<Plan, SynthesisError>,
    >)
        ensures
            phonemizable(speakable(text@)) && has_style(self@, voice_id@) ==> r is Some,
            match r {
                Some(outcome) => phonemizable(speakable(text@)) && outcome_fits(
                    self@,
                    text@,
                    voice_id@,
                    speed,
                    outcome,
                ),
                None => phonemizable(speakable(text@)) ==> may_sound(self@, text@, true),
            },
    {
        let speak: String = speakable_text(text);
        if !is_phonemizable(&self.g2p, speak.as_str()) {
            return None;
        }
        let styled: bool = match find_key(&self.styles, voice_id) {
            Some(i) => self.styles[i].1.len() >= STYLE_DIM,
            None => true,
        };
        if styled {
            return Some(self.synthesize(text, voice_id, speed));
        }
        match phonemize(&self.g2p, speak.as_str()) {
            Err(why) => Some(Err(SynthesisError::Phonemizer(why))),
            Ok((phonemes, tokens)) => {
                proof {
                    lemma_cut_from(self@.british, speakable(text@), tokens@);
                }
                let (ids, _) = encode(&self.vocab, phonemes.as_str());
                if ids.len() == 0 {
                    Some(Err(SynthesisError::Unspeakable))
                } else {
                    None
                }
            },
        }
    }

    /// The speech that came of a plan: the samples of the model's audio, and the
    /// timings of the words where the model gives durations. `bounds` holds the
    /// moments, in milliseconds, that part the sounds of one id from the next.
    pub fn finish(&self, plan: &Plan, samples: Vec<i16>, bounds: &Vec<u32>) -> (r: Synthesis)
        ensures
            r.samples == samples,
            r.sample_rate == self@.sample_rate,
            r.words@ == (if self@.duration_output is Some {
                timings_of(
                    plan.speak@,
                    token_views(plan.tokens@),
                    plan.id_of_char@,
                    bounds@,
                    samples@.len(),
                )
            } else {
                Seq::empty()
            }),
    {
        let words: Vec<WordTiming> = if self.duration_output.is_some() {
            word_timings(
                plan.speak.as_str(),
                &plan.tokens,
                &plan.id_of_char,
                bounds,
                samples.len(),
            )
        } else {
            Vec::new()
        };
        Synthesis { samples, sample_rate: self.sample_rate, words }
    }
}

/// British English is asked for by the tag `en-gb`, each letter in either case, and
/// by no other.
pub proof fn law_british_is_en_gb(tag: Seq<char>)
    ensures
        is_british(tag) <==> {
            &&& tag.len() == 5
            &&& tag[0] == 'e' || tag[0] == 'E'
            &&& tag[1] == 'n' || tag[1] == 'N'
            &&& tag[2] == '-'
            &&& tag[3] == 'g' || tag[3] == 'G'
            &&& tag[4] == 'b' || tag[4] == 'B'
        },
{
    reveal_strlit("en-gb");
    let low = tag.map_values(|c: char| lower(c));
    assert(is_british(tag) == (low =~= "en-gb"@));
    assert("en-gb"@.len() == 5);
    if tag.len() == 5 {
        assert(low[0] == lower(tag[0]) && low[1] == lower(tag[1]) && low[2] == lower(tag[2]));
        assert(low[3] == lower(tag[3]) && low[4] == lower(tag[4]));
        lemma_lower_is(tag[0], 'e', 'E');
        lemma_lower_is(tag[1], 'n', 'N');
        lemma_lower_is(tag[3], 'g', 'G');
        lemma_lower_is(tag[4], 'b', 'B');
        if low[0] == 'e' && low[1] == 'n' && low[2] == '-' && low[3] == 'g' && low[4] == 'b' {
            assert(low =~= "en-gb"@);
        }
    }
}

/// A character has a small letter as its lower case when it is that letter, small
/// or capital.
proof fn lemma_lower_is(c: char, small: char, capital: char)
    requires
        'a' <= small && small <= 'z',
        capital as int == small as int - 32,
    ensures
        lower(c) == small <==> c == small || c == capital,
{
}

/// An engine is what the files of its pack say: its vocabulary is the tokenizer's,
/// every voice has the floats of its own style file, and its outputs are those that
/// the lower-case names of the model's outputs point out.
pub proof fn law_an_engine_is_what_its_files_say(
    config: PackConfig,
    files: PackFiles,
    id: Seq<char>,
    i: int,
)
    requires
        has_styles(config, files),
        (files.model->Ok_0)@.len() > 0,
    ensures
        ({
            let e = engine_of(config, files);
            let names = (files.model->Ok_0)@;
            let low = lowered(texts_of(names));
            &&& vocab_spelled((files.tokenizer->Ok_0)@) == Some(e.vocab)
            &&& e.sample_rate == config.sample_rate
            &&& e.british == is_british(config.language@)
            &&& low.len() == names.len()
            &&& 0 <= i < names.len() ==> low[i] == unicode_lowercase(names[i]@)
            &&& 0 <= i < names.len() && i == audio_index(low) ==> e.audio_output == names[i]@
            &&& duration_index(low) is None ==> e.duration_output is None
            &&& 0 <= i < names.len() && duration_index(low) == Some(i) ==> e.duration_output
                == Some(names[i]@)
            &&& e.styles.contains_key(id) ==> exists|k: int|
                0 <= k < config.voices@.len() && (#[trigger] config.voices@[k]).0@ == id
            &&& 0 <= i < config.voices@.len() && config.voices@[i].0@ == id && (forall|k: int|
                0 <= k < i ==> (#[trigger] config.voices@[k]).0@ != id) ==> e.styles.contains_key(
                id,
            ) && (files.styles@[i] matches Ok(bytes) && e.styles[id] == words_in(bytes@))
        }),
{
    let voices = config.voices@;
    let keys = keys_of(voices);
    if keys.contains(id) {
        let k = choose|k: int| 0 <= k < keys.len() && keys[k] == id;
        assert(voices[k].0@ == id);
    }
    if 0 <= i < voices.len() && voices[i].0@ == id && (forall|k: int|
        0 <= k < i ==> (#[trigger] voices[k]).0@ != id) {
        assert(keys[i] == id);
        assert(first_under(voices, id, i));
        let c = choose|c: int| first_under(voices, id, c);
        if c < i {
            assert(voices[c].0@ != id);
        }
        if i < c {
            assert(voices[i].0@ != id);
        }
        assert(style_is_sound(files.styles@[i]));
    }
}

/// A pack loads exactly when nothing is wrong with it: the model opens and has an
/// output, there is a tokenizer that can be read and spells a vocabulary, and every
/// style file can be read and is a whole number of rows of 1024 bytes. Nothing else
/// is asked of it, however many voices it has.
pub proof fn law_a_sound_pack_loads(config: PackConfig, files: PackFiles, e: LoadError)
    ensures
        ({
            let sound = {
                &&& files.model matches Ok(names)
                &&& names@.len() > 0
                &&& config.tokenizer is Some
                &&& files.tokenizer matches Ok(raw)
                &&& vocab_spelled(raw@) is Some
                &&& forall|k: int|
                    0 <= k < config.voices@.len() ==> ((#[trigger] files.styles@[k]) matches Ok(
                        bytes,
                    ) && bytes@.len() % 1024 == 0)
            };
            &&& sound ==> has_styles(config, files) && !load_fault(config, files, e)
            &&& has_styles(config, files) && (files.model->Ok_0)@.len() > 0 ==> sound
        }),
{
    assert forall|k: int| 0 <= k < config.voices@.len() implies style_is_sound(
        #[trigger] files.styles@[k],
    ) == (files.styles@[k] matches Ok(bytes) && bytes@.len() % 1024 == 0) by {}
    if forall|k: int|
        0 <= k < config.voices@.len() ==> ((#[trigger] files.styles@[k]) matches Ok(bytes)
            && bytes@.len() % 1024 == 0) {
        assert forall|k: int| 0 <= k < config.voices@.len() implies style_is_sound(
            #[trigger] files.styles@[k],
        ) by {
            assert(files.styles@[k] is Ok);
        }
    }
    if has_styles(config, files) {
        assert forall|k: int| 0 <= k < config.voices@.len() implies ((
        #[trigger] files.styles@[k]) matches Ok(bytes) && bytes@.len() % 1024 == 0) by {
            assert(style_is_sound(files.styles@[k]));
        }
    }
}

/// What is wrong with a pack is told by the first thing that is: the model, then
/// the tokenizer, then what it spells, then the style files in the order of the
/// voices, then the outputs.
pub proof fn law_the_first_fault_is_told(config: PackConfig, files: PackFiles, e: LoadError, i: int)
    requires
        load_fault(config, files, e),
    ensures
        files.model matches Err(why) ==> e == LoadError::Model(why),
        files.model is Ok && config.tokenizer is None ==> e == LoadError::NoTokenizer,
        files.model is Ok && config.tokenizer is Some ==> {
            &&& files.tokenizer matches Err(why) ==> e == LoadError::Tokenizer(why)
            &&& files.tokenizer matches Ok(raw) ==> {
                &&& vocab_spelled(raw@) is None ==> (e matches LoadError::Vocab(f) && vocab_fault(
                    raw@,
                    f,
                ))
                &&& vocab_spelled(raw@) is Some && 0 <= i < config.voices@.len() && (forall|k: int|
                    0 <= k < i ==> ((#[trigger] files.styles@[k]) matches Ok(bytes)
                        && bytes@.len() % 1024 == 0)) ==> {
                    &&& files.styles@[i] matches Err(why) ==> e == LoadError::Style(why)
                    &&& (files.styles@[i] matches Ok(bytes) && bytes@.len() % 1024 != 0) ==> (
                    e matches LoadError::Rows { voice } && voice@ == config.voices@[i].0@)
                }
                &&& vocab_spelled(raw@) is Some && (forall|k: int|
                    0 <= k < config.voices@.len() ==> ((#[trigger] files.styles@[k]) matches Ok(
                        bytes,
                    ) && bytes@.len() % 1024 == 0)) ==> e == LoadError::NoOutputs
            }
        },
{
    let n = config.voices@.len() as int;
    if 0 <= i < n && !style_is_sound(files.styles@[i]) && forall|k: int|
        0 <= k < i ==> ((#[trigger] files.styles@[k]) matches Ok(bytes) && bytes@.len() % 1024 == 0) {
        assert forall|k: int| 0 <= k < i implies style_is_sound(#[trigger] files.styles@[k]) by {
            assert(files.styles@[k] is Ok);
        }
        assert(first_unsound(files.styles@, n, i));
        assert forall|j: int| first_unsound(files.styles@, n, j) implies j == i by {
            if j < i {
                assert(style_is_sound(files.styles@[j]));
            }
            if i < j {
                assert(style_is_sound(files.styles@[i]));
            }
        }
    }
    if forall|k: int|
        0 <= k < n ==> ((#[trigger] files.styles@[k]) matches Ok(bytes) && bytes@.len() % 1024
            == 0) {
        assert forall|k: int| 0 <= k < n implies style_is_sound(#[trigger] files.styles@[k]) by {
            assert(files.styles@[k] is Ok);
        }
    }
}

/// What is told of a pack that does not load, and of a text that is not spoken,
/// names all that it concerns.
pub proof fn law_errors_name_what_they_concern(a: String)
    ensures
        load_message(LoadError::Unsupported { engine: Engine::Piper })
            == "engine "@ + "Piper"@ + " not supported yet"@,
        load_message(LoadError::Model(a)) == a@,
        load_message(LoadError::NoTokenizer) == "kokoro pack has no tokenizer file"@,
        load_message(LoadError::Tokenizer(a)) == a@,
        load_message(LoadError::Vocab(VocabError::Json(a))) == a@,
        load_message(LoadError::Vocab(VocabError::NoVocab)) == "tokenizer.json has no model.vocab"@,
        load_message(LoadError::Style(a)) == a@,
        load_message(LoadError::Rows { voice: a }) == "style file for '"@ + a@
            + "' is not rows of 256 f32s"@,
        load_message(LoadError::NoOutputs) == "model has no outputs"@,
        synthesis_message(SynthesisError::Phonemizer(a)) == "g2p failed: "@ + a@,
        synthesis_message(SynthesisError::Unspeakable) == "no speakable content in text"@,
        synthesis_message(SynthesisError::VoiceNotLoaded { voice: a }) == "voice '"@ + a@
            + "' not loaded"@,
{
}

/// What the model is given by a plan. For phoneme character `k` that has place `r`,
/// its id stands at `r + 1`, behind the pad in front; a pad closes the ids; each
/// place `r` belongs to a character; a known character without a place finds all
/// 510 taken. The style is 256 floats of the voice's own table: those of the row
/// for the number of ids, or of the last row.
pub proof fn law_a_plan_gives_the_model_what_is_said(
    engine: EngineView,
    phonemes: Seq<char>,
    voice: Seq<char>,
    plan: Plan,
    k: int,
    m: int,
)
    requires
        plan_fits(engine, phonemes, voice, plan),
        has_style(engine, voice),
    ensures
        ({
            let input = plan.input_ids@;
            let index = plan.id_of_char@;
            let n = input.len() - 2;
            let table = engine.styles[voice];
            &&& engine.styles.contains_key(voice)
            &&& 0 < n <= 510
            &&& input[0] == 0 && input[n + 1] == 0
            &&& index.len() == phonemes.len()
            &&& 0 <= k < phonemes.len() ==> {
                &&& !engine.vocab.contains_key(phonemes[k]) ==> index[k] is None
                &&& engine.vocab.contains_key(phonemes[k]) && index[k] is None ==> n == 510
                &&& index[k] matches Some(r) ==> r < n && input[r + 1] == engine.vocab[phonemes[k]]
            }
            &&& 0 <= m < n ==> exists|l: int|
                0 <= l < index.len() && (#[trigger] index[l]) is Some && index[l]->0 == m
            &&& plan.style@.len() == 256
            &&& 0 <= m < 256 && n * 256 + 256 <= table.len() ==> plan.style@[m] == table[n * 256
                + m]
            &&& 0 <= m < 256 && n * 256 + 256 > table.len() ==> plan.style@[m] == table[table.len()
                - table.len() as int % 256 - 256 + m]
        }),
{
    let ids = phoneme_ids(engine.vocab, phonemes);
    let n = ids.len() as int;
    crate::encode::law_characters_and_ids_agree(engine.vocab, phonemes);
    if 0 <= k < phonemes.len() {
        crate::encode::law_every_character_is_served(engine.vocab, phonemes, k, m);
    }
    if 0 <= m < n {
        assert(crate::encode::is_given(plan.id_of_char@, m));
    }
    crate::style::law_a_style_stands_in_its_table(engine.styles[voice], n, 0);
    if 0 <= m < 256 {
        crate::style::law_a_style_stands_in_its_table(engine.styles[voice], n, m);
    }
}

/// What a plan is made of: the spoken form of the request's text, the tokens that
/// it is cut into with phonemes that this variety of English may have for them,
/// the voice and the rate that were asked for.
pub proof fn law_a_plan_speaks_its_text(
    engine: EngineView,
    text: Seq<char>,
    voice: Seq<char>,
    speed: u32,
    plan: Plan,
)
    requires
        plan_speaks(engine, text, voice, speed, plan),
    ensures
        plan.speak@ == speakable(text),
        plan.speed == speed,
        ({
            let tokens = token_views(plan.tokens@);
            &&& g2p_may_give(engine.british, speakable(text), Ok(tokens))
            &&& tokens.len() == g2p_tokens(speakable(text)).len()
            &&& forall|i: int|
                0 <= i < tokens.len() ==> (#[trigger] tokens[i]).text == g2p_tokens(
                    speakable(text),
                )[i] && tokens[i].phonemes is Some && tokens[i].whitespace == seq![' ']
            &&& stand_in_order(speakable(text), pieces_of(tokens))
            &&& plan_fits(engine, joined_sounds(tokens), voice, plan)
        }),
{
    let tokens = token_views(plan.tokens@);
    assert(token_texts(tokens).len() == tokens.len());
    assert forall|i: int| 0 <= i < tokens.len() implies (#[trigger] tokens[i]).text == g2p_tokens(
        speakable(text),
    )[i] by {
        assert(token_texts(tokens)[i] == tokens[i].text);
    }
}

/// When planning fails it is for the reason told: no phoneme that the text may have
/// is known, or the voice is not loaded while something is known, or the phonemizer
/// may give this very error.
pub proof fn law_planning_fails_for_the_reason_told(
    engine: EngineView,
    text: Seq<char>,
    voice: Seq<char>,
    speed: u32,
    e: SynthesisError,
)
    requires
        outcome_fits(engine, text, voice, speed, Err(e)),
    ensures
        e is Unspeakable ==> exists|tokens: Seq<TokenView>| #[trigger]
            g2p_may_give(engine.british, speakable(text), Ok(tokens)) && forall|k: int|
            0 <= k < joined_sounds(tokens).len() ==> !engine.vocab.contains_key(
                #[trigger] joined_sounds(tokens)[k],
            ),
        e matches SynthesisError::VoiceNotLoaded { voice: named } ==> named@ == voice
            && !engine.styles.contains_key(voice),
        e matches SynthesisError::Phonemizer(why) ==> g2p_may_give(
            engine.british,
            speakable(text),
            Err(why@),
        ),
{
    if e is Unspeakable {
        let tokens = choose|tokens: Seq<TokenView>| #[trigger]
            cut_from(engine.british, speakable(text), tokens) && phoneme_ids(
                engine.vocab,
                joined_sounds(tokens),
            ).len() == 0;
        crate::encode::law_characters_and_ids_agree(engine.vocab, joined_sounds(tokens));
        assert(g2p_may_give(engine.british, speakable(text), Ok(tokens)));
    }
}

/// A voice has a style to give unless it is loaded with fewer than 256 floats.
pub proof fn law_one_row_is_a_style(engine: EngineView, voice: Seq<char>)
    ensures
        has_style(engine, voice) <==> !engine.styles.contains_key(voice)
            || engine.styles[voice].len() >= 256,
{
}

/// Where a text may sound, this variety of English may have phonemes for it of
/// which the vocabulary knows one.
pub proof fn law_what_sounds_is_known(engine: EngineView, text: Seq<char>)
    requires
        may_sound(engine, text, true),
    ensures
        exists|tokens: Seq<TokenView>| #[trigger]
            g2p_may_give(engine.british, speakable(text), Ok(tokens)) && exists|k: int|
            0 <= k < joined_sounds(tokens).len() && engine.vocab.contains_key(
                #[trigger] joined_sounds(tokens)[k],
            ),
{
    let tokens = choose|tokens: Seq<TokenView>| #[trigger]
        cut_from(engine.british, speakable(text), tokens) && phoneme_ids(
            engine.vocab,
            joined_sounds(tokens),
        ).len() > 0;
    crate::encode::law_characters_and_ids_agree(engine.vocab, joined_sounds(tokens));
    assert(g2p_may_give(engine.british, speakable(text), Ok(tokens)));
}

/// Where planning ends with the voice not loaded, there was something to speak.
pub proof fn law_a_missing_voice_is_told_when_needed(
    engine: EngineView,
    text: Seq<char>,
    voice: Seq<char>,
    speed: u32,
    named: String,
)
    requires
        outcome_fits(
            engine,
            text,
            voice,
            speed,
            Err(SynthesisError::VoiceNotLoaded { voice: named }),
        ),
    ensures
        exists|tokens: Seq<TokenView>| #[trigger]
            g2p_may_give(engine.british, speakable(text), Ok(tokens)) && exists|k: int|
            0 <= k < joined_sounds(tokens).len() && engine.vocab.contains_key(
                #[trigger] joined_sounds(tokens)[k],
            ),
{
    law_what_sounds_is_known(engine, text);
}

} // verus!
