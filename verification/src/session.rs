//! The dialogue with the caller: which request is answered how, and what stays
//! loaded in between.

use vstd::prelude::*;
use vstd::seq_lib::to_multiset_contains;

use crate::audio::{base64, duration_ms, duration_of, encode_base64, pcm, pcm_bytes};
use crate::chars::{chars_of, texts_of, is_white_space};
use crate::kokoro::{
    engine_of, has_styles, load_fault, KokoroEngine, LoadError, PackFiles, Synthesis,
};
use crate::order::{
    in_order, law_order_forgets_where_texts_stood, law_order_is_strict, sort_texts,
};
use crate::pack::{Engine, Pack, PackConfig};
use crate::protocol::{
    done, is_consistent, refusal, result_of, Body, BodyView, Cmd, Envelope, Reply, ReplyView,
};
use crate::speed::{clamp_speed, clamped};
use crate::table::{as_map, keys_of};

verus! {

/// What a caller is told of a loaded pack.
#[derive(Debug, Clone)]
pub struct PackMeta {
    pub id: String,
    pub voices: Vec<String>,
    pub word_timings: bool,
}

/// What a caller is told of a loaded pack.
pub open spec fn loaded_body(meta: PackMeta) -> BodyView {
    BodyView::Loaded {
        pack_id: meta.id@,
        voices: texts_of(meta.voices@),
        word_timings: meta.word_timings,
    }
}

/// Sets up the engine of a pack, and lists its voices in order.
pub fn load_pack(pack: &Pack, files: &PackFiles) -> (r: Result<(KokoroEngine, PackMeta), LoadError>)
    requires
        pack.config.engine == Engine::Kokoro ==> files.styles@.len() == pack.config.voices@.len(),
    ensures
        match r {
            Ok((engine, meta)) => pack.config.engine == Engine::Kokoro && has_styles(
                pack.config,
                *files,
            ) && (files.model->Ok_0)@.len() > 0 && engine@ == engine_of(pack.config, *files)
                && meta.id@ == pack.config.id@ && texts_of(meta.voices@) == in_order(
                keys_of(pack.config.voices@),
            ) && meta.word_timings == pack.config.word_timings,
            Err(LoadError::Unsupported { engine }) => pack.config.engine != Engine::Kokoro && engine
                == pack.config.engine,
            Err(e) => pack.config.engine == Engine::Kokoro && load_fault(pack.config, *files, e),
        },
{
    if pack.config.engine != Engine::Kokoro {
        return Err(LoadError::Unsupported { engine: pack.config.engine });
    }
    let mut ids: Vec<String> = Vec::new();
    for i in 0..pack.config.voices.len()
        invariant
            texts_of(ids@) == keys_of(pack.config.voices@).take(i as int),
    {
        let ghost before = ids@;
        ids.push(pack.config.voices[i].0.clone());
        assert(texts_of(ids@) =~= texts_of(before).push(keys_of(pack.config.voices@)[i as int]));
    }
    assert(texts_of(ids@) =~= keys_of(pack.config.voices@));
    let meta: PackMeta = PackMeta {
        id: pack.config.id.clone(),
        voices: sort_texts(&ids),
        word_timings: pack.config.word_timings,
    };
    match KokoroEngine::load(pack, files) {
        Ok(engine) => Ok((engine, meta)),
        Err(e) => Err(e),
    }
}

/// The list tells of every voice of the pack, once, and of nothing else.
pub proof fn law_every_voice_is_listed_once(config: PackConfig, voice: Seq<char>, i: int, j: int)
    requires
        config.wf(),
    ensures
        in_order(keys_of(config.voices@)).contains(voice) <==> as_map(config.voices@).contains_key(
            voice,
        ),
        0 <= i < j < in_order(keys_of(config.voices@)).len() ==> in_order(
            keys_of(config.voices@),
        )[i] != in_order(keys_of(config.voices@))[j],
{
    let keys = keys_of(config.voices@);
    law_order_forgets_where_texts_stood(keys, keys);
    to_multiset_contains(keys, voice);
    to_multiset_contains(in_order(keys), voice);
    if 0 <= i < j < in_order(keys).len() {
        law_order_is_strict(keys, i, j);
    }
}

/// Speech that fits into a reply: it has a rate, and its bytes fit into memory.
pub open spec fn fits_reply(speech: Synthesis) -> bool {
    &&& speech.sample_rate > 0
    &&& speech.samples@.len() * 1000 <= u64::MAX
    &&& 4 * ((2 * speech.samples@.len() + 2) / 3) <= isize::MAX
}

/// Speech as a reply gives it.
pub open spec fn audio_of(speech: Synthesis) -> BodyView {
    BodyView::Audio {
        pcm_base64: base64(pcm(speech.samples@)),
        sample_rate: speech.sample_rate,
        duration_ms: duration_of(speech.samples@.len() as int, speech.sample_rate as int) as u32,
        words: speech.words@,
    }
}

/// Puts speech into a reply.
pub fn audio_body(result: Synthesis) -> (r: Body)
    requires
        fits_reply(result),
    ensures
        r@ == audio_of(result),
{
    let duration: u32 = duration_ms(result.samples.len(), result.sample_rate);
    let bytes: Vec<u8> = pcm_bytes(&result.samples);
    Body::Audio {
        pcm_base64: encode_base64(&bytes),
        sample_rate: result.sample_rate,
        duration_ms: duration,
        words: result.words,
    }
}

/// Whether speech fits into a reply.
pub fn can_reply(speech: &Synthesis) -> (r: bool)
    ensures
        r == fits_reply(*speech),
{
    let n: u128 = speech.samples.len() as u128;
    let most: u128 = isize::MAX as u128;
    speech.sample_rate > 0 && n * 1000 <= u64::MAX as u128 && 4 * ((2 * n + 2) / 3) <= most
}

/// What is to be done about a line.
#[derive(Debug, Clone)]
pub enum Action {
    /// Nothing.
    Skip,
    /// Load the pack in `dir`, and answer with what comes of it.
    Load { id: u64, dir: String },
    /// Speak, and answer with what comes of it.
    Speak { id: u64, text: String, voice_id: String, speed: u32 },
    /// Answer.
    Answer(Reply),
    /// The pack is gone; free what belonged to it, and answer.
    Free(Reply),
    /// Answer and stop.
    Stop(Reply),
}

/// The contents of an [`Action`].
pub enum ActionView {
    Skip,
    Load { id: u64, dir: Seq<char> },
    Speak { id: u64, text: Seq<char>, voice_id: Seq<char>, speed: u32 },
    Answer(ReplyView),
    Free(ReplyView),
    Stop(ReplyView),
}

impl View for Action {
    type V = ActionView;

    open spec fn view(&self) -> ActionView {
        match *self {
            Action::Skip => ActionView::Skip,
            Action::Load { id, dir } => ActionView::Load { id, dir: dir@ },
            Action::Speak { id, text, voice_id, speed } => ActionView::Speak {
                id,
                text: text@,
                voice_id: voice_id@,
                speed,
            },
            Action::Answer(reply) => ActionView::Answer(reply@),
            Action::Free(reply) => ActionView::Free(reply@),
            Action::Stop(reply) => ActionView::Stop(reply@),
        }
    }
}

/// A line of white space alone.
pub open spec fn is_blank(line: Seq<char>) -> bool {
    forall|k: int| 0 <= k < line.len() ==> is_white_space(#[trigger] line[k])
}

/// Whether a line is white space alone.
pub fn blank(line: &str) -> (r: bool)
    ensures
        r == is_blank(line@),
{
    let c: Vec<char> = chars_of(line);
    for k in 0..c.len()
        invariant
            c@ == line@,
            forall|j: int| 0 <= j < k ==> is_white_space(#[trigger] line@[j]),
    {
        if !c[k].is_whitespace() {
            assert(!is_white_space(line@[k as int]));
            return false;
        }
    }
    true
}

/// What is to be done about a request, given whether a pack is loaded.
pub open spec fn answer_to(loaded: bool, request: Result<Envelope, String>) -> ActionView {
    match request {
        Err(why) => ActionView::Answer(refusal(0, "bad request: "@ + why@)),
        Ok(e) => match e.cmd {
            Cmd::LoadVoice { pack_dir } => ActionView::Load { id: e.id, dir: pack_dir@ },
            Cmd::Synthesize { text, voice_id, speed } => if loaded {
                ActionView::Speak {
                    id: e.id,
                    text: text@,
                    voice_id: voice_id@,
                    speed: clamped(speed),
                }
            } else {
                ActionView::Answer(refusal(e.id, "no voice pack loaded"@))
            },
            Cmd::Unload => ActionView::Free(done(e.id)),
            Cmd::Shutdown => ActionView::Stop(done(e.id)),
        },
    }
}

/// What came of loading a pack, without the engine.
pub open spec fn meta_of(result: Result<(KokoroEngine, PackMeta), String>) -> Result<
    PackMeta,
    String,
> {
    match result {
        Ok((_, meta)) => Ok(meta),
        Err(why) => Err(why),
    }
}

/// The reply that tells what came of loading a pack.
pub open spec fn load_reply(id: u64, result: Result<PackMeta, String>) -> ReplyView {
    match result {
        Ok(meta) => result_of(id, loaded_body(meta)),
        Err(why) => refusal(id, why@),
    }
}

/// The reply that tells what came of speaking.
pub open spec fn speech_reply(id: u64, result: Result<Synthesis, String>) -> ReplyView {
    match result {
        Ok(speech) => result_of(id, audio_of(speech)),
        Err(why) => refusal(id, why@),
    }
}

/// The state of the dialogue: the pack that is loaded, if one is.
pub struct Sidecar {
    engine: Option<KokoroEngine>,
    meta: Option<PackMeta>,
}

impl Sidecar {
    /// The engine of the loaded pack.
    pub closed spec fn engine_spec(&self) -> Option<KokoroEngine> {
        self.engine
    }

    /// What the caller was told of the loaded pack.
    pub closed spec fn meta_spec(&self) -> Option<PackMeta> {
        self.meta
    }

    /// Whether a pack is loaded.
    pub open spec fn is_loaded(&self) -> bool {
        self.engine_spec() is Some
    }

    /// An engine is loaded exactly when the caller was told of a pack.
    pub open spec fn wf(&self) -> bool {
        self.engine_spec() is Some <==> self.meta_spec() is Some
    }

    /// Nothing is loaded.
    pub fn new() -> (r: Sidecar)
        ensures
            r.wf(),
            !r.is_loaded(),
    {
        Sidecar { engine: None, meta: None }
    }

    /// The engine of the loaded pack.
    pub fn engine(&self) -> (r: Option<&KokoroEngine>)
        ensures
            match r {
                Some(engine) => self.engine_spec() == Some(*engine),
                None => self.engine_spec() is None,
            },
    {
        self.engine.as_ref()
    }

    /// What the caller was told of the loaded pack.
    pub fn meta(&self) -> (r: Option<&PackMeta>)
        ensures
            match r {
                Some(meta) => self.meta_spec() == Some(*meta),
                None => self.meta_spec() is None,
            },
    {
        self.meta.as_ref()
    }

    /// Takes a line, and the request that it spells or what is wrong with it,
    /// and tells what is to be done. A blank line asks for nothing.
    pub fn receive(&mut self, line: &str, request: Result<Envelope, String>) -> (action: Action)
        requires
            old(self).wf(),
        ensures
            final(self).wf(),
            action@ == (if is_blank(line@) {
                ActionView::Skip
            } else {
                answer_to(old(self).is_loaded(), request)
            }),
            if action@ is Free {
                !final(self).is_loaded()
            } else {
                *final(self) == *old(self)
            },
    {
        if blank(line) {
            return Action::Skip;
        }
        let envelope: Envelope = match request {
            Ok(envelope) => envelope,
            Err(why) => {
                return Action::Answer(
                    Reply::err(0, String::from_str("bad request: ").concat(why.as_str())),
                );
            },
        };
        let id: u64 = envelope.id;
        match envelope.cmd {
            Cmd::LoadVoice { pack_dir } => Action::Load { id, dir: pack_dir },
            Cmd::Synthesize { text, voice_id, speed } => {
                if self.engine.is_some() {
                    Action::Speak { id, text, voice_id, speed: clamp_speed(speed) }
                } else {
                    Action::Answer(Reply::err(id, String::from_str("no voice pack loaded")))
                }
            },
            Cmd::Unload => {
                self.engine = None;
                self.meta = None;
                Action::Free(Reply::ack(id))
            },
            Cmd::Shutdown => Action::Stop(Reply::ack(id)),
        }
    }

    /// What came of loading a pack: the pack takes the place of the one that was
    /// loaded, or, where it failed, nothing changes.
    pub fn loaded(&mut self, id: u64, result: Result<(KokoroEngine, PackMeta), String>) -> (reply:
        Reply)
        requires
            old(self).wf(),
        ensures
            final(self).wf(),
            reply@ == load_reply(id, meta_of(result)),
            match result {
                Ok((engine, meta)) => final(self).engine_spec() == Some(engine)
                    && final(self).meta_spec() == Some(meta),
                Err(_) => *final(self) == *old(self),
            },
    {
        match result {
            Ok((engine, meta)) => {
                let told: Body = Body::Loaded {
                    pack_id: meta.id.clone(),
                    voices: copy_of(&meta.voices),
                    word_timings: meta.word_timings,
                };
                self.engine = Some(engine);
                self.meta = Some(meta);
                Reply::ok(id, told)
            },
            Err(why) => Reply::err(id, why),
        }
    }

    /// What came of speaking.
    pub fn spoken(id: u64, result: Result<Synthesis, String>) -> (reply: Reply)
        requires
            result matches Ok(speech) ==> fits_reply(speech),
        ensures
            reply@ == speech_reply(id, result),
    {
        match result {
            Ok(speech) => Reply::ok(id, audio_body(speech)),
            Err(why) => Reply::err(id, why),
        }
    }
}

/// A copy of a list of strings.
fn copy_of(list: &Vec<String>) -> (r: Vec<String>)
    ensures
        texts_of(r@) == texts_of(list@),
{
    let mut r: Vec<String> = Vec::new();
    for i in 0..list.len()
        invariant
            texts_of(r@) == texts_of(list@).take(i as int),
    {
        let ghost before = r@;
        r.push(list[i].clone());
        assert(texts_of(r@) =~= texts_of(before).push(texts_of(list@)[i as int]));
    }
    assert(texts_of(r@) =~= texts_of(list@));
    r
}

/// The id under which an action will be answered.
pub open spec fn answered_id(action: ActionView) -> Option<u64> {
    match action {
        ActionView::Skip => None,
        ActionView::Load { id, .. } => Some(id),
        ActionView::Speak { id, .. } => Some(id),
        ActionView::Answer(reply) => Some(reply.id),
        ActionView::Free(reply) => Some(reply.id),
        ActionView::Stop(reply) => Some(reply.id),
    }
}

/// Every request is answered under its own id, and a line that spells none under
/// id 0, as a failure.
pub proof fn law_answers_carry_the_request_id(loaded: bool, request: Result<Envelope, String>)
    ensures
        match request {
            Ok(e) => answered_id(answer_to(loaded, request)) == Some(e.id),
            Err(_) => answer_to(loaded, request) matches ActionView::Answer(reply) && reply.id == 0
                && !reply.ok,
        },
{
}

/// The process stops for a shutdown, and for nothing else. The pack is dropped
/// for an unload, and for nothing else.
pub proof fn law_only_shutdown_stops(loaded: bool, request: Result<Envelope, String>)
    ensures
        answer_to(loaded, request) is Stop <==> (request matches Ok(e) && e.cmd is Shutdown),
        answer_to(loaded, request) is Free <==> (request matches Ok(e) && e.cmd is Unload),
{
}

/// Nothing is spoken without a pack: the request is refused.
pub proof fn law_no_speech_without_a_pack(loaded: bool, request: Result<Envelope, String>)
    ensures
        answer_to(loaded, request) is Speak <==> loaded && (request matches Ok(e)
            && e.cmd is Synthesize),
        !loaded && (request matches Ok(e) && e.cmd is Synthesize) ==> answer_to(loaded, request)
            == ActionView::Answer(refusal((request->Ok_0).id, "no voice pack loaded"@)),
{
}

/// One turn of a dialogue: a line, the request that it spells or what is wrong
/// with it, and what comes of loading and of speaking, should it ask for either.
pub struct Turn {
    pub line: Seq<char>,
    pub request: Result<Envelope, String>,
    pub pack: Result<PackMeta, String>,
    pub speech: Result<Synthesis, String>,
}

/// The line asks for something.
pub open spec fn asks(turn: Turn) -> bool {
    !is_blank(turn.line)
}

/// The line asks to stop.
pub open spec fn stops(turn: Turn) -> bool {
    asks(turn) && (turn.request matches Ok(e) && e.cmd is Shutdown)
}

/// The id under which a line is to be answered: that of its request, and 0 where
/// it spells none.
pub open spec fn asked_id(turn: Turn) -> u64 {
    match turn.request {
        Ok(e) => e.id,
        Err(_) => 0,
    }
}

/// The reply to a line that asks for something.
pub open spec fn reply_to(loaded: bool, turn: Turn) -> ReplyView {
    match answer_to(loaded, turn.request) {
        ActionView::Load { id, .. } => load_reply(id, turn.pack),
        ActionView::Speak { id, .. } => speech_reply(id, turn.speech),
        ActionView::Answer(reply) => reply,
        ActionView::Free(reply) => reply,
        ActionView::Stop(reply) => reply,
        ActionView::Skip => done(0),
    }
}

/// Whether a pack is loaded after a line that asks for something.
pub open spec fn loaded_after(loaded: bool, turn: Turn) -> bool {
    match answer_to(loaded, turn.request) {
        ActionView::Load { .. } => loaded || turn.pack is Ok,
        ActionView::Free(_) => false,
        _ => loaded,
    }
}

/// The replies of a whole dialogue, in the order in which they are given.
pub open spec fn replies(loaded: bool, turns: Seq<Turn>) -> Seq<ReplyView>
    decreases turns.len(),
{
    if turns.len() == 0 {
        Seq::empty()
    } else {
        let turn = turns[0];
        if !asks(turn) {
            replies(loaded, turns.skip(1))
        } else if stops(turn) {
            seq![reply_to(loaded, turn)]
        } else {
            seq![reply_to(loaded, turn)] + replies(loaded_after(loaded, turn), turns.skip(1))
        }
    }
}

/// The dialogue is over after `n` turns: with the first line that asks to stop, or
/// with the last line of all.
pub open spec fn ends_after(turns: Seq<Turn>, n: int) -> bool {
    &&& 0 <= n <= turns.len()
    &&& forall|i: int| 0 <= i < n - 1 ==> !stops(#[trigger] turns[i])
    &&& n == turns.len() || (n > 0 && stops(turns[n - 1]))
}

/// The ids of some replies.
pub open spec fn reply_ids(replies: Seq<ReplyView>) -> Seq<u64> {
    replies.map_values(|r: ReplyView| r.id)
}

/// The ids under which some lines are to be answered: one for each that asks for
/// something.
pub open spec fn asked_ids(turns: Seq<Turn>) -> Seq<u64> {
    turns.filter(|t: Turn| asks(t)).map_values(|t: Turn| asked_id(t))
}

impl Sidecar {
    /// Takes a whole turn, with what comes of loading and of speaking should the
    /// line ask for either, and gives the reply. A pack that loads takes the place
    /// of the one before, an unload drops it, and nothing else touches it. A blank
    /// line has no reply.
    pub fn turn(
        &mut self,
        line: &str,
        request: Result<Envelope, String>,
        pack: Result<(KokoroEngine, PackMeta), String>,
        speech: Result<Synthesis, String>,
    ) -> (reply: Option<Reply>)
        requires
            old(self).wf(),
            speech matches Ok(s) ==> fits_reply(s),
        ensures
            final(self).wf(),
            ({
                let turn = Turn { line: line@, request, pack: meta_of(pack), speech };
                let loaded = old(self).is_loaded();
                match reply {
                    Some(r) => asks(turn) && r@ == reply_to(loaded, turn)
                        && final(self).is_loaded() == loaded_after(loaded, turn) && (
                    match answer_to(loaded, request) {
                        ActionView::Load { .. } => match pack {
                            Ok((engine, meta)) => final(self).engine_spec() == Some(engine)
                                && final(self).meta_spec() == Some(meta),
                            Err(_) => *final(self) == *old(self),
                        },
                        ActionView::Free(_) => !final(self).is_loaded(),
                        _ => *final(self) == *old(self),
                    }),
                    None => !asks(turn) && *final(self) == *old(self),
                }
            }),
    {
        match self.receive(line, request) {
            Action::Skip => None,
            Action::Load { id, dir: _ } => Some(self.loaded(id, pack)),
            Action::Speak { id, text: _, voice_id: _, speed: _ } => Some(
                Sidecar::spoken(id, speech),
            ),
            Action::Answer(reply) => Some(reply),
            Action::Free(reply) => Some(reply),
            Action::Stop(reply) => Some(reply),
        }
    }
}

/// A dialogue has one reply for each line that is not blank, in order, up to and
/// with the first that asks to stop; each carries the id of its request, or 0
/// where the line spells none, and is consistent.
pub proof fn law_one_reply_for_each_request(loaded: bool, turns: Seq<Turn>, n: int)
    requires
        ends_after(turns, n),
    ensures
        reply_ids(replies(loaded, turns)) == asked_ids(turns.take(n)),
        forall|i: int|
            0 <= i < replies(loaded, turns).len() ==> is_consistent(
                #[trigger] replies(loaded, turns)[i],
            ),
    decreases turns.len(),
{
    let all = replies(loaded, turns);
    if n == 0 {
        reveal(Seq::filter);
        assert(asked_ids(turns.take(0)) =~= Seq::<u64>::empty());
        assert(reply_ids(all) =~= Seq::<u64>::empty());
    } else {
        let turn = turns[0];
        let rest = turns.skip(1);
        lemma_asked_ids(turns.take(n));
        assert(turns.take(n).skip(1) =~= rest.take(n - 1));
        law_answers_carry_the_request_id(loaded, turn.request);
        if stops(turn) {
            if n > 1 {
                assert(stops(turns[0]));
            }
            reveal(Seq::filter);
            assert(rest.take(0) =~= Seq::<Turn>::empty());
            assert(asked_ids(rest.take(0)) =~= Seq::<u64>::empty());
            assert(reply_ids(all) =~= seq![asked_id(turn)]);
            assert(asked_ids(turns.take(n)) =~= seq![asked_id(turn)]);
        } else {
            let next = if asks(turn) {
                loaded_after(loaded, turn)
            } else {
                loaded
            };
            assert(ends_after(rest, n - 1)) by {
                assert forall|i: int| 0 <= i < n - 2 implies !stops(#[trigger] rest[i]) by {
                    assert(!stops(turns[i + 1]));
                }
            }
            law_one_reply_for_each_request(next, rest, n - 1);
            let later = replies(next, rest);
            if asks(turn) {
                assert(all == seq![reply_to(loaded, turn)] + later);
                assert(reply_ids(all) =~= seq![asked_id(turn)] + reply_ids(later));
                assert forall|i: int| 0 <= i < all.len() implies is_consistent(
                    #[trigger] all[i],
                ) by {
                    if i > 0 {
                        assert(all[i] == later[i - 1]);
                    }
                }
            } else {
                assert(all == later);
            }
        }
    }
}

/// The first line adds its id in front of the others', where it asks for something.
proof fn lemma_asked_ids(turns: Seq<Turn>)
    requires
        turns.len() > 0,
    ensures
        asked_ids(turns) == (if asks(turns[0]) {
            seq![asked_id(turns[0])] + asked_ids(turns.skip(1))
        } else {
            asked_ids(turns.skip(1))
        }),
{
    let p = |t: Turn| asks(t);
    let one = seq![turns[0]];
    let rest = turns.skip(1);
    assert(turns =~= one + rest);
    Seq::filter_distributes_over_add(one, rest, p);
    reveal_with_fuel(Seq::filter, 2);
    assert(one.drop_last() =~= Seq::<Turn>::empty());
    assert(one.drop_last().filter(p) =~= Seq::<Turn>::empty());
    assert(one.filter(p) =~= if asks(turns[0]) {
        one
    } else {
        Seq::<Turn>::empty()
    });
    assert(asked_ids(turns) =~= if asks(turns[0]) {
        seq![asked_id(turns[0])] + asked_ids(rest)
    } else {
        asked_ids(rest)
    });
}

/// Every request is carried out as it was asked. A load is of the directory named.
/// With a pack loaded, speech is of the request's own text in its own voice, at its
/// own rate where that lies from 0.5 to 3.0, and at the nearer of the two where it
/// does not; without one it is refused. What cannot be read is refused in words.
pub proof fn law_requests_are_carried_out_as_asked(loaded: bool, e: Envelope, why: String)
    ensures
        e.cmd matches Cmd::LoadVoice { pack_dir } ==> answer_to(loaded, Ok(e)) == (
        ActionView::Load { id: e.id, dir: pack_dir@ }),
        e.cmd matches Cmd::Synthesize { text, voice_id, speed } ==> {
            let action = answer_to(loaded, Ok(e));
            &&& !loaded ==> action == ActionView::Answer(
                ReplyView {
                    id: e.id,
                    ok: false,
                    error: Some("no voice pack loaded"@),
                    body: None,
                },
            )
            &&& loaded ==> (action matches ActionView::Speak { id, text: t, voice_id: v, speed: s }
                && id == e.id && t == text@ && v == voice_id@ && {
                &&& 0x3f00_0000 <= speed <= 0x4040_0000 ==> s == speed
                &&& 0x4040_0000 < speed <= 0x7f80_0000 ==> s == 0x4040_0000
                &&& speed < 0x3f00_0000 ==> s == 0x3f00_0000
                &&& 0x8000_0000 <= speed <= 0xff80_0000 ==> s == 0x3f00_0000
                &&& 0x7f80_0000 < speed < 0x8000_0000 || 0xff80_0000 < speed ==> s == speed
            })
        },
        e.cmd is Unload ==> answer_to(loaded, Ok(e)) == ActionView::Free(
            ReplyView { id: e.id, ok: true, error: None, body: None },
        ),
        e.cmd is Shutdown ==> answer_to(loaded, Ok(e)) == ActionView::Stop(
            ReplyView { id: e.id, ok: true, error: None, body: None },
        ),
        answer_to(loaded, Err(why)) == ActionView::Answer(
            ReplyView { id: 0, ok: false, error: Some("bad request: "@ + why@), body: None },
        ),
{
}

/// A line is blank when all of its characters are white space, and asks for
/// something when one is not; it stops the process when it spells a shutdown.
pub proof fn law_one_character_is_enough_to_ask(turn: Turn, k: int)
    ensures
        0 <= k < turn.line.len() && !crate::chars::is_white_space(turn.line[k]) ==> asks(turn),
        asks(turn) ==> exists|m: int|
            0 <= m < turn.line.len() && !crate::chars::is_white_space(#[trigger] turn.line[m]),
        asks(turn) == !is_blank(turn.line),
        stops(turn) <==> asks(turn) && (turn.request matches Ok(e) && e.cmd is Shutdown),
        turn.request matches Ok(e) ==> asked_id(turn) == e.id,
        turn.request is Err ==> asked_id(turn) == 0,
{
}

/// What is told of loading and of speaking: success with all that came of it, and
/// failure with its reason.
pub proof fn law_outcomes_are_told_in_full(
    id: u64,
    pack: Result<PackMeta, String>,
    speech: Result<Synthesis, String>,
)
    ensures
        pack matches Ok(meta) ==> {
            let r = load_reply(id, pack);
            &&& r.id == id && r.ok && r.error is None
            &&& r.body matches Some(BodyView::Loaded { pack_id, voices, word_timings })
            &&& pack_id == meta.id@
            &&& word_timings == meta.word_timings
            &&& voices.len() == meta.voices@.len()
            &&& forall|i: int| 0 <= i < voices.len() ==> #[trigger] voices[i] == meta.voices@[i]@
        },
        pack matches Err(why) ==> load_reply(id, pack) == (ReplyView {
            id,
            ok: false,
            error: Some(why@),
            body: None,
        }),
        speech matches Ok(s) ==> {
            let r = speech_reply(id, speech);
            &&& r.id == id && r.ok && r.error is None
            &&& r.body matches Some(BodyView::Audio {
                pcm_base64,
                sample_rate,
                duration_ms: ms,
                words,
            })
            &&& pcm_base64 == base64(pcm(s.samples@))
            &&& sample_rate == s.sample_rate
            &&& words == s.words@
            &&& s.sample_rate > 0 ==> ms == s.samples@.len() as int * 1000 / s.sample_rate as int
                % 0x1_0000_0000
        },
        speech matches Err(why) ==> speech_reply(id, speech) == (ReplyView {
            id,
            ok: false,
            error: Some(why@),
            body: None,
        }),
{
}

/// The reply to a line is that of its request, and what is loaded afterwards too: a
/// load is answered with what came of it, and leaves a pack loaded where it
/// succeeds; speech is answered with what came of it where a pack is loaded; an
/// unload leaves none.
pub proof fn law_turns_are_answered_by_their_requests(loaded: bool, turn: Turn)
    ensures
        turn.request matches Ok(e) ==> match e.cmd {
            Cmd::LoadVoice { .. } => reply_to(loaded, turn) == load_reply(e.id, turn.pack)
                && loaded_after(loaded, turn) == (loaded || turn.pack is Ok),
            Cmd::Synthesize { .. } => loaded_after(loaded, turn) == loaded && reply_to(loaded, turn)
                == if loaded {
                speech_reply(e.id, turn.speech)
            } else {
                ReplyView {
                    id: e.id,
                    ok: false,
                    error: Some("no voice pack loaded"@),
                    body: None,
                }
            },
            Cmd::Unload => !loaded_after(loaded, turn) && reply_to(loaded, turn) == (ReplyView {
                id: e.id,
                ok: true,
                error: None,
                body: None,
            }),
            Cmd::Shutdown => loaded_after(loaded, turn) == loaded && reply_to(loaded, turn) == (
            ReplyView { id: e.id, ok: true, error: None, body: None }),
        },
        turn.request matches Err(why) ==> loaded_after(loaded, turn) == loaded && reply_to(
            loaded,
            turn,
        ) == (ReplyView {
            id: 0,
            ok: false,
            error: Some("bad request: "@ + why@),
            body: None,
        }),
{
}

/// Whether a pack is loaded before each turn: blank lines change nothing, and other
/// lines what they change.
pub open spec fn carries_on(loaded: bool, turns: Seq<Turn>, st: Seq<bool>) -> bool {
    &&& st.len() == turns.len() + 1
    &&& st[0] == loaded
    &&& forall|i: int|
        0 <= i < turns.len() ==> st[i + 1] == if asks(#[trigger] turns[i]) {
            loaded_after(st[i], turns[i])
        } else {
            st[i]
        }
}

/// Every line that asks for something, up to and with the first that asks to stop,
/// is answered in its place, by what is loaded when it comes.
pub proof fn law_every_line_is_answered_in_its_place(
    loaded: bool,
    turns: Seq<Turn>,
    st: Seq<bool>,
    n: int,
    i: int,
)
    requires
        ends_after(turns, n),
        carries_on(loaded, turns, st),
        0 <= i < n,
        asks(turns[i]),
    ensures
        ({
            let place = turns.take(i).filter(|t: Turn| asks(t)).len() as int;
            place < replies(loaded, turns).len() && replies(loaded, turns)[place] == reply_to(
                st[i],
                turns[i],
            )
        }),
    decreases turns.len(),
{
    let p = |t: Turn| asks(t);
    let rest = turns.skip(1);
    if i == 0 {
        reveal(Seq::filter);
        assert(turns.take(0).filter(p).len() == 0);
    } else {
        assert(!stops(turns[0]));
        assert(rest[i - 1] == turns[i]);
        let later = st.skip(1);
        assert(st[1] == if asks(turns[0]) {
            loaded_after(st[0], turns[0])
        } else {
            st[0]
        });
        assert(carries_on(later[0], rest, later)) by {
            assert forall|m: int| 0 <= m < rest.len() implies later[m + 1] == if asks(
                #[trigger] rest[m],
            ) {
                loaded_after(later[m], rest[m])
            } else {
                later[m]
            } by {
                assert(rest[m] == turns[m + 1]);
                assert(later[m] == st[m + 1]);
                assert(later[m + 1] == st[m + 1 + 1]);
            }
        }
        assert(ends_after(rest, n - 1)) by {
            assert forall|m: int| 0 <= m < n - 2 implies !stops(#[trigger] rest[m]) by {
                assert(!stops(turns[m + 1]));
            }
        }
        law_every_line_is_answered_in_its_place(later[0], rest, later, n - 1, i - 1);
        let head = turns.take(i);
        assert(head.skip(1) =~= rest.take(i - 1));
        lemma_asked_ids(head);
        assert(asked_ids(head).len() == head.filter(p).len());
        assert(asked_ids(rest.take(i - 1)).len() == rest.take(i - 1).filter(p).len());
    }
}

/// The contents of an action are all of its fields.
pub proof fn law_action_contents_are_whole(action: Action)
    ensures
        action is Skip <==> action@ is Skip,
        action matches Action::Load { id, dir } ==> action@ == (ActionView::Load { id, dir: dir@ }),
        action matches Action::Speak { id, text, voice_id, speed } ==> action@ == (
        ActionView::Speak { id, text: text@, voice_id: voice_id@, speed }),
        action matches Action::Answer(r) ==> action@ == ActionView::Answer(r@),
        action matches Action::Free(r) ==> action@ == ActionView::Free(r@),
        action matches Action::Stop(r) ==> action@ == ActionView::Stop(r@),
{
}

/// Speech fits into a reply when it has a rate, its milliseconds can be counted in
/// 64 bits, and its base64 is no larger than memory can hold; all other speech
/// does.
pub proof fn law_all_but_huge_speech_fits(speech: Synthesis)
    ensures
        fits_reply(speech) <==> speech.sample_rate > 0 && speech.samples@.len() * 1000
            <= 0xffff_ffff_ffff_ffff && 4 * ((speech.samples@.len() * 2 + 2) / 3) <= isize::MAX,
{
}

/// What a reply tells of a pack and of speech, field by field.
pub proof fn law_bodies_tell_everything(
    meta: PackMeta,
    speech: Synthesis,
    result: Result<(KokoroEngine, PackMeta), String>,
)
    ensures
        loaded_body(meta) matches BodyView::Loaded { pack_id, voices, word_timings } && pack_id
            == meta.id@ && word_timings == meta.word_timings && voices.len() == meta.voices@.len()
            && forall|i: int|
            0 <= i < voices.len() ==> #[trigger] voices[i] == meta.voices@[i]@,
        audio_of(speech) matches BodyView::Audio { pcm_base64, sample_rate, duration_ms: ms, words }
            && pcm_base64 == base64(pcm(speech.samples@)) && sample_rate == speech.sample_rate
            && words == speech.words@ && (speech.sample_rate > 0 ==> ms
            == speech.samples@.len() as int * 1000 / speech.sample_rate as int % 0x1_0000_0000),
        result matches Ok((_, m)) ==> meta_of(result) == Ok::<PackMeta, String>(m),
        result matches Err(why) ==> meta_of(result) == Err::<PackMeta, String>(why),
{
}

} // verus!
