//! Which outputs of a model are which. Their names differ across exports, so
//! they are recognized rather than known.

use vstd::prelude::*;

use crate::chars::{chars_of, texts_of};
use crate::search::{contains, holds, stands_at};

verus! {

/// A lower-case output name that speaks of audio.
pub open spec fn names_audio(low: Seq<char>) -> bool {
    holds(low, "audio"@) || holds(low, "waveform"@) || holds(low, "wav"@)
}

/// A lower-case output name that speaks of durations.
pub open spec fn names_durations(low: Seq<char>) -> bool {
    holds(low, "dur"@)
}

/// The first position from `from` on that is marked.
pub open spec fn first_marked(marks: Seq<bool>, from: int) -> Option<int>
    decreases marks.len() - from,
{
    if from < 0 || from >= marks.len() {
        None
    } else if marks[from] {
        Some(from)
    } else {
        first_marked(marks, from + 1)
    }
}

/// Which lower-case names speak of audio.
pub open spec fn audio_marks(lowered: Seq<Seq<char>>) -> Seq<bool> {
    lowered.map_values(|low: Seq<char>| names_audio(low))
}

/// Which lower-case names speak of durations.
pub open spec fn duration_marks(lowered: Seq<Seq<char>>) -> Seq<bool> {
    lowered.map_values(|low: Seq<char>| names_durations(low))
}

/// The output that is the audio: the first whose name speaks of it, or else the
/// first of all.
pub open spec fn audio_index(lowered: Seq<Seq<char>>) -> int {
    match first_marked(audio_marks(lowered), 0) {
        Some(i) => i,
        None => 0,
    }
}

/// The output that is the durations: the first whose name speaks of them, if one
/// does.
pub open spec fn duration_index(lowered: Seq<Seq<char>>) -> Option<int> {
    first_marked(duration_marks(lowered), 0)
}

/// The first mark is a mark, and there is none before it.
pub proof fn lemma_first_marked(marks: Seq<bool>, from: int)
    requires
        0 <= from,
    ensures
        first_marked(marks, from) matches Some(i) ==> from <= i < marks.len() && marks[i],
        forall|k: int|
            from <= k < marks.len() && #[trigger] marks[k] ==> first_marked(marks, from) is Some
                && first_marked(marks, from)->0 <= k,
    decreases marks.len() - from,
{
    if from < marks.len() && !marks[from] {
        lemma_first_marked(marks, from + 1);
    }
}

/// The first position that is marked.
fn find_mark(marks: &Vec<bool>) -> (r: Option<usize>)
    ensures
        match r {
            Some(i) => i < marks@.len() && first_marked(marks@, 0) == Some(i as int),
            None => first_marked(marks@, 0) is None,
        },
{
    let mut i: usize = 0;
    while i < marks.len()
        invariant
            i <= marks@.len(),
            first_marked(marks@, 0) == first_marked(marks@, i as int),
        decreases marks@.len() - i,
    {
        if marks[i] {
            return Some(i);
        }
        i = i + 1;
    }
    None
}

/// Finds the outputs by their lower-case names: the audio, and the durations
/// where there are any.
pub fn find_outputs(lowered: &Vec<String>) -> (r: (usize, Option<usize>))
    requires
        lowered@.len() > 0,
    ensures
        r.0 < lowered@.len(),
        r.0 == audio_index(texts_of(lowered@)),
        match r.1 {
            Some(i) => i < lowered@.len() && duration_index(texts_of(lowered@)) == Some(i as int),
            None => duration_index(texts_of(lowered@)) is None,
        },
{
    let audio_word: Vec<char> = chars_of("audio");
    let waveform_word: Vec<char> = chars_of("waveform");
    let wav_word: Vec<char> = chars_of("wav");
    let dur_word: Vec<char> = chars_of("dur");
    let mut audio: Vec<bool> = Vec::new();
    let mut durations: Vec<bool> = Vec::new();
    for i in 0..lowered.len()
        invariant
            audio_word@ == "audio"@,
            waveform_word@ == "waveform"@,
            wav_word@ == "wav"@,
            dur_word@ == "dur"@,
            audio@ == audio_marks(texts_of(lowered@)).take(i as int),
            durations@ == duration_marks(texts_of(lowered@)).take(i as int),
    {
        let low: Vec<char> = chars_of(lowered[i].as_str());
        audio.push(
            contains(&low, &audio_word) || contains(&low, &waveform_word) || contains(
                &low,
                &wav_word,
            ),
        );
        durations.push(contains(&low, &dur_word));
    }
    assert(audio@ =~= audio_marks(texts_of(lowered@)));
    assert(durations@ =~= duration_marks(texts_of(lowered@)));
    let first: usize = match find_mark(&audio) {
        Some(i) => i,
        None => 0,
    };
    (first, find_mark(&durations))
}

/// The audio output is one of the outputs. Where a name speaks of audio, the
/// output chosen is one whose name does, and no earlier one does.
pub proof fn law_audio_output_is_recognized(lowered: Seq<Seq<char>>)
    requires
        lowered.len() > 0,
    ensures
        0 <= audio_index(lowered) < lowered.len(),
        forall|k: int|
            0 <= k < lowered.len() && names_audio(#[trigger] lowered[k]) ==> names_audio(
                lowered[audio_index(lowered)],
            ) && audio_index(lowered) <= k,
{
    let marks = audio_marks(lowered);
    lemma_first_marked(marks, 0);
    assert forall|k: int| 0 <= k < lowered.len() && names_audio(#[trigger] lowered[k]) implies
        names_audio(lowered[audio_index(lowered)]) && audio_index(lowered) <= k by {
        assert(marks[k]);
    }
}

/// There is a duration output exactly when a name speaks of durations, and it is
/// the first whose name does.
pub proof fn law_duration_output_is_recognized(lowered: Seq<Seq<char>>)
    ensures
        duration_index(lowered) matches Some(i) ==> 0 <= i < lowered.len() && names_durations(
            lowered[i],
        ),
        forall|k: int|
            0 <= k < lowered.len() && names_durations(#[trigger] lowered[k]) ==> duration_index(
                lowered,
            ) is Some && duration_index(lowered)->0 <= k,
{
    let marks = duration_marks(lowered);
    lemma_first_marked(marks, 0);
    assert forall|k: int| 0 <= k < lowered.len() && names_durations(
        #[trigger] lowered[k],
    ) implies duration_index(lowered) is Some && duration_index(lowered)->0 <= k by {
        assert(marks[k]);
    }
}

/// The first mark is found wherever it stands, and nothing is found without one.
pub proof fn law_the_first_mark_is_found(marks: Seq<bool>, i: int)
    requires
        0 <= i <= marks.len(),
        forall|k: int| 0 <= k < i ==> !#[trigger] marks[k],
        i < marks.len() ==> marks[i],
    ensures
        i < marks.len() ==> first_marked(marks, 0) == Some(i),
        i == marks.len() ==> first_marked(marks, 0) is None,
{
    lemma_first_marked(marks, 0);
}

/// A name speaks of audio when `audio`, `waveform` or `wav` stands in it, and of
/// durations when `dur` does, wherever that is.
pub proof fn law_names_are_searched_throughout(low: Seq<char>, at: int)
    ensures
        stands_at(low, "audio"@, at) || stands_at(low, "waveform"@, at) || stands_at(
            low,
            "wav"@,
            at,
        ) ==> names_audio(low),
        names_audio(low) ==> (exists|p: int| #[trigger] stands_at(low, "audio"@, p)) || (exists|
            p: int,
        | #[trigger]
            stands_at(low, "waveform"@, p)) || (exists|p: int| #[trigger]
            stands_at(low, "wav"@, p)),
        stands_at(low, "dur"@, at) ==> names_durations(low),
        names_durations(low) ==> exists|p: int| #[trigger] stands_at(low, "dur"@, p),
{
}

/// The outputs are those marked first: the audio is the first that speaks of it,
/// or the first of all where none does, and the durations the first that speaks of
/// them.
pub proof fn law_outputs_are_the_first_that_fit(lowered: Seq<Seq<char>>, i: int)
    requires
        0 <= i < lowered.len(),
    ensures
        names_audio(lowered[i]) && (forall|k: int|
            0 <= k < i ==> !names_audio(#[trigger] lowered[k])) ==> audio_index(lowered) == i,
        (forall|k: int| 0 <= k < lowered.len() ==> !names_audio(#[trigger] lowered[k]))
            ==> audio_index(lowered) == 0,
        names_durations(lowered[i]) && (forall|k: int|
            0 <= k < i ==> !names_durations(#[trigger] lowered[k])) ==> duration_index(lowered)
            == Some(i),
        (forall|k: int| 0 <= k < lowered.len() ==> !names_durations(#[trigger] lowered[k]))
            ==> duration_index(lowered) is None,
{
    let am = audio_marks(lowered);
    let dm = duration_marks(lowered);
    assert forall|k: int| 0 <= k < lowered.len() implies #[trigger] am[k] == names_audio(
        lowered[k],
    ) by {}
    assert forall|k: int| 0 <= k < lowered.len() implies #[trigger] dm[k] == names_durations(
        lowered[k],
    ) by {}
    lemma_first_marked(am, 0);
    lemma_first_marked(dm, 0);
    assert(am[i] == names_audio(lowered[i]));
    assert(dm[i] == names_durations(lowered[i]));
}

} // verus!
