//! Requests and replies, one of each per line.

use vstd::prelude::*;

use crate::chars::texts_of;

verus! {

/// One request per line.
#[derive(Debug, Clone)]
pub struct Envelope {
    pub id: u64,
    pub cmd: Cmd,
}

#[derive(Debug, Clone)]
pub enum Cmd {
    /// Load a voice pack from disk and keep its session resident.
    LoadVoice { pack_dir: String },
    /// Synthesize one sentence. `voice_id` selects a voice within the loaded
    /// pack. `speed` is a 32-bit float, by its bit pattern.
    Synthesize { text: String, voice_id: String, speed: u32 },
    /// Drop the loaded pack (frees the model's session).
    Unload,
    /// Exit cleanly.
    Shutdown,
}

#[derive(Debug, Clone)]
pub struct Reply {
    pub id: u64,
    pub ok: bool,
    pub error: Option<String>,
    pub body: Option<Body>,
}

#[derive(Debug, Clone)]
pub enum Body {
    Loaded { pack_id: String, voices: Vec<String>, word_timings: bool },
    Audio { pcm_base64: String, sample_rate: u32, duration_ms: u32, words: Vec<WordTiming> },
}

/// When a word is spoken, and which characters of the text it is.
#[derive(Debug, Clone, Copy, PartialEq, Eq, Structural)]
pub struct WordTiming {
    pub start_ms: u32,
    pub end_ms: u32,
    pub start_char: u32,
    pub end_char: u32,
}

/// The contents of a [`Body`].
pub enum BodyView {
    Loaded { pack_id: Seq<char>, voices: Seq<Seq<char>>, word_timings: bool },
    Audio { pcm_base64: Seq<char>, sample_rate: u32, duration_ms: u32, words: Seq<WordTiming> },
}

impl View for Body {
    type V = BodyView;

    open spec fn view(&self) -> BodyView {
        match *self {
            Body::Loaded { pack_id, voices, word_timings } => BodyView::Loaded {
                pack_id: pack_id@,
                voices: texts_of(voices@),
                word_timings,
            },
            Body::Audio { pcm_base64, sample_rate, duration_ms, words } => BodyView::Audio {
                pcm_base64: pcm_base64@,
                sample_rate,
                duration_ms,
                words: words@,
            },
        }
    }
}

/// The contents of a [`Reply`].
pub struct ReplyView {
    pub id: u64,
    pub ok: bool,
    pub error: Option<Seq<char>>,
    pub body: Option<BodyView>,
}

impl View for Reply {
    type V = ReplyView;

    open spec fn view(&self) -> ReplyView {
        ReplyView {
            id: self.id,
            ok: self.ok,
            error: match self.error {
                Some(e) => Some(e@),
                None => None,
            },
            body: match self.body {
                Some(b) => Some(b@),
                None => None,
            },
        }
    }
}

/// The reply to a request that was carried out and has a result.
pub open spec fn result_of(id: u64, body: BodyView) -> ReplyView {
    ReplyView { id, ok: true, error: None, body: Some(body) }
}

/// The reply to a request that was carried out.
pub open spec fn done(id: u64) -> ReplyView {
    ReplyView { id, ok: true, error: None, body: None }
}

/// The reply to a request that failed.
pub open spec fn refusal(id: u64, error: Seq<char>) -> ReplyView {
    ReplyView { id, ok: false, error: Some(error), body: None }
}

impl Reply {
    /// The request was carried out, and this came of it.
    pub fn ok(id: u64, body: Body) -> (r: Self)
        ensures
            r@ == result_of(id, body@),
            r.body == Some(body),
    {
        Reply { id, ok: true, error: None, body: Some(body) }
    }

    /// The request was carried out.
    pub fn ack(id: u64) -> (r: Self)
        ensures
            r@ == done(id),
    {
        Reply { id, ok: true, error: None, body: None }
    }

    /// The request failed.
    pub fn err(id: u64, error: String) -> (r: Self)
        ensures
            r@ == refusal(id, error@),
            r.error == Some(error),
    {
        Reply { id, ok: false, error: Some(error), body: None }
    }
}

/// A reply either reports success and no error, or an error and nothing else.
pub open spec fn is_consistent(reply: ReplyView) -> bool {
    reply.ok == (reply.error is None) && (reply.body is Some ==> reply.ok)
}

/// Every reply is consistent, and carries the id that it was made for.
pub proof fn law_replies_are_consistent(id: u64, body: BodyView, error: Seq<char>)
    ensures
        is_consistent(result_of(id, body)) && result_of(id, body).id == id,
        is_consistent(done(id)) && done(id).id == id,
        is_consistent(refusal(id, error)) && refusal(id, error).id == id,
{
}

/// What replies say, field by field.
pub proof fn law_replies_say_what_they_are_for(id: u64, body: BodyView, error: Seq<char>)
    ensures
        result_of(id, body) == (ReplyView { id, ok: true, error: None, body: Some(body) }),
        done(id) == (ReplyView { id, ok: true, error: None, body: None }),
        refusal(id, error) == (ReplyView { id, ok: false, error: Some(error), body: None }),
{
}

/// The contents of replies and their bodies are all of their fields.
pub proof fn law_reply_contents_are_whole(reply: Reply)
    ensures
        reply@.id == reply.id,
        reply@.ok == reply.ok,
        reply@.error is Some <==> reply.error is Some,
        reply.error matches Some(e) ==> reply@.error == Some(e@),
        reply@.body is Some <==> reply.body is Some,
        reply.body matches Some(Body::Loaded { pack_id, voices, word_timings })
            ==> (reply@.body matches Some(BodyView::Loaded { pack_id: p, voices: v, word_timings: t })
            && p == pack_id@ && t == word_timings && v.len() == voices@.len() && forall|i: int|
            0 <= i < v.len() ==> #[trigger] v[i] == voices@[i]@),
        reply.body matches Some(Body::Audio { pcm_base64, sample_rate, duration_ms, words })
            ==> reply@.body == Some(
            BodyView::Audio { pcm_base64: pcm_base64@, sample_rate, duration_ms, words: words@ },
        ),
{
}

} // verus!
