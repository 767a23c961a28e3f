//! The phoneme vocabulary of a voice pack: which input id stands for which
//! phoneme character.

use std::collections::HashMap;

use vstd::prelude::*;

use crate::chars::chars_of;
use crate::json::{
    integer, json_document, json_member, json_tree, lists_members, member, members, parse_json,
    JsonTree,
};

verus! {

broadcast use vstd::std_specs::hash::group_hash_axioms;

/// Input ids by phoneme character.
#[derive(Debug, Clone)]
pub struct Vocab {
    ids: HashMap<u32, i64>,
}

impl View for Vocab {
    type V = Map<char, i64>;

    closed spec fn view(&self) -> Map<char, i64> {
        Map::new(|c: char| self.ids@.contains_key(c as u32), |c: char| self.ids@[c as u32])
    }
}

/// Characters are told apart by their code points.
proof fn lemma_code_point(c: char, d: char)
    ensures
        c as u32 == d as u32 <==> c == d,
{
}

impl Vocab {
    /// A vocabulary without entries.
    pub fn new() -> (r: Vocab)
        ensures
            r@ == Map::<char, i64>::empty(),
    {
        let r: Vocab = Vocab { ids: HashMap::new() };
        assert(r@ =~= Map::<char, i64>::empty());
        r
    }

    /// Gives a phoneme character its id, in place of one that it had.
    pub fn insert(&mut self, c: char, id: i64)
        ensures
            final(self)@ == old(self)@.insert(c, id),
    {
        self.ids.insert(c as u32, id);
        proof {
            let was = old(self)@.insert(c, id);
            assert forall|d: char| #[trigger] self@.dom().contains(d) == was.dom().contains(d) by {
                lemma_code_point(d, c);
            }
            assert forall|d: char| self@.dom().contains(d) implies #[trigger] self@[d] == was[d] by {
                lemma_code_point(d, c);
            }
            assert(self@ =~= was);
        }
    }

    /// The id of a phoneme character.
    pub fn get(&self, c: char) -> (r: Option<i64>)
        ensures
            r == (if self@.contains_key(c) {
                Some(self@[c])
            } else {
                None
            }),
    {
        match self.ids.get(&(c as u32)) {
            Some(id) => Some(*id),
            None => None,
        }
    }
}

/// Why a tokenizer file holds no vocabulary.
#[derive(Debug, Clone)]
pub enum VocabError {
    /// The file is no JSON document.
    Json(String),
    /// The document has no object `model.vocab`.
    NoVocab,
}

impl VocabError {
    /// The error in words.
    pub fn message(&self) -> (r: String)
        ensures
            r@ == match *self {
                VocabError::Json(e) => e@,
                VocabError::NoVocab => "tokenizer.json has no model.vocab"@,
            },
    {
        match self {
            VocabError::Json(e) => e.clone(),
            VocabError::NoVocab => String::from_str("tokenizer.json has no model.vocab"),
        }
    }
}

/// The contents of a list of vocabulary entries.
pub open spec fn entry_views(entries: Seq<(String, Option<i64>)>) -> Seq<(
    Seq<char>,
    Option<i64>,
)> {
    entries.map_values(|e: (String, Option<i64>)| (e.0@, e.1))
}

/// The ids that a list of entries gives. An entry counts when its key is one
/// character and its value is an integer; a later one replaces an earlier one.
pub open spec fn ids_listed(entries: Seq<(Seq<char>, Option<i64>)>) -> Map<char, i64>
    decreases entries.len(),
{
    if entries.len() == 0 {
        Map::empty()
    } else {
        let before = ids_listed(entries.drop_last());
        match entries.last() {
            (key, Some(id)) => if key.len() == 1 {
                before.insert(key[0], id)
            } else {
                before
            },
            _ => before,
        }
    }
}

/// The vocabulary that a list of entries gives.
pub fn vocab_from_entries(entries: &Vec<(String, Option<i64>)>) -> (vocab: Vocab)
    ensures
        vocab@ == ids_listed(entry_views(entries@)),
{
    let mut vocab: Vocab = Vocab::new();
    for i in 0..entries.len()
        invariant
            vocab@ == ids_listed(entry_views(entries@).take(i as int)),
    {
        let ghost all = entry_views(entries@);
        assert(all.take(i + 1).drop_last() =~= all.take(i as int));
        let key: Vec<char> = chars_of(entries[i].0.as_str());
        if let Some(id) = entries[i].1 {
            if key.len() == 1 {
                vocab.insert(key[0], id);
            }
        }
    }
    assert(entry_views(entries@).take(entries@.len() as int) =~= entry_views(entries@));
    vocab
}

/// The id that an object's members give a character.
pub open spec fn id_in(m: Map<Seq<char>, JsonTree>, c: char) -> Option<i64> {
    if m.contains_key(seq![c]) {
        match m[seq![c]] {
            JsonTree::Number(id) => id,
            _ => None,
        }
    } else {
        None
    }
}

/// The ids that an object's members give.
pub open spec fn ids_in(m: Map<Seq<char>, JsonTree>) -> Map<char, i64> {
    Map::new(|c: char| id_in(m, c) is Some, |c: char| id_in(m, c)->0)
}

/// The object `model.vocab` of a document.
pub open spec fn vocab_object(doc: JsonTree) -> JsonTree {
    json_member(json_member(doc, "model"@), "vocab"@)
}

/// The vocabulary that a `tokenizer.json` spells, if it spells one.
pub open spec fn vocab_spelled(raw: Seq<char>) -> Option<Map<char, i64>> {
    match json_document(raw) {
        Err(_) => None,
        Ok(doc) => match vocab_object(doc) {
            JsonTree::Object(m) => Some(ids_in(m)),
            _ => None,
        },
    }
}

/// Why a text spells no vocabulary.
pub open spec fn vocab_fault(raw: Seq<char>, e: VocabError) -> bool {
    match json_document(raw) {
        Err(why) => e matches VocabError::Json(text) && text@ == why,
        Ok(doc) => !(vocab_object(doc) is Object) && e == VocabError::NoVocab,
    }
}

/// With each key once, the entries that list an object's members give the
/// object's ids.
proof fn lemma_ids_listed(entries: Seq<(Seq<char>, Option<i64>)>, c: char)
    requires
        forall|i: int, j: int|
            0 <= i < j < entries.len() ==> (#[trigger] entries[i]).0 != (#[trigger] entries[j]).0,
    ensures
        forall|i: int|
            0 <= i < entries.len() && (#[trigger] entries[i]).0 == seq![c] ==> {
                &&& ids_listed(entries).contains_key(c) <==> entries[i].1 is Some
                &&& entries[i].1 is Some ==> ids_listed(entries)[c] == entries[i].1->0
            },
        (forall|i: int| 0 <= i < entries.len() ==> (#[trigger] entries[i]).0 != seq![c])
            ==> !ids_listed(entries).contains_key(c),
    decreases entries.len(),
{
    if entries.len() > 0 {
        let before = entries.drop_last();
        lemma_ids_listed(before, c);
        let last = entries.last();
        if last.0.len() == 1 {
            assert(last.0 =~= seq![last.0[0]]);
        }
        assert(seq![c].len() == 1 && seq![c][0] == c);
        assert forall|i: int| 0 <= i < entries.len() && (#[trigger] entries[i]).0 == seq![c] implies {
            &&& ids_listed(entries).contains_key(c) <==> entries[i].1 is Some
            &&& entries[i].1 is Some ==> ids_listed(entries)[c] == entries[i].1->0
        } by {
            if i < entries.len() - 1 {
                assert(before[i] == entries[i]);
                assert(last.0 != seq![c]);
            } else {
                assert forall|k: int| 0 <= k < before.len() implies (#[trigger] before[k]).0
                    != seq![c] by {
                    assert(before[k] == entries[k]);
                }
            }
        }
        if forall|i: int| 0 <= i < entries.len() ==> (#[trigger] entries[i]).0 != seq![c] {
            assert forall|k: int| 0 <= k < before.len() implies (#[trigger] before[k]).0 != seq![
                c,
            ] by {
                assert(before[k] == entries[k]);
            }
            assert(entries[entries.len() - 1].0 != seq![c]);
        }
    }
}

/// Entries that list an object's members give the object's ids.
proof fn lemma_members_give_ids(
    found: Seq<(String, serde_json::Value)>,
    entries: Seq<(Seq<char>, Option<i64>)>,
    m: Map<Seq<char>, JsonTree>,
)
    requires
        lists_members(found, m),
        entries.len() == found.len(),
        forall|k: int|
            0 <= k < found.len() ==> (#[trigger] entries[k]).0 == found[k].0@ && entries[k].1
                == match json_tree(found[k].1) {
                JsonTree::Number(n) => n,
                _ => None::<i64>,
            },
    ensures
        ids_listed(entries) == ids_in(m),
{
    let ids = ids_listed(entries);
    assert forall|c: char|
        (#[trigger] ids.dom().contains(c) <==> id_in(m, c) is Some) && (ids.dom().contains(c)
            ==> ids[c] == id_in(m, c)->0) by {
        lemma_ids_listed(entries, c);
        if m.contains_key(seq![c]) {
            let i = choose|i: int| 0 <= i < found.len() && (#[trigger] found[i]).0@ == seq![c];
            assert(entries[i].0 == seq![c]);
        } else {
            assert forall|i: int| 0 <= i < entries.len() implies (#[trigger] entries[i]).0 != seq![
                c,
            ] by {
                assert(m.contains_key(found[i].0@));
            }
        }
    }
    assert(ids.dom() =~= ids_in(m).dom());
    assert(ids =~= ids_in(m));
}

/// Reads the vocabulary of a `tokenizer.json`: the members of its object
/// `model.vocab` whose key is one character and whose value is an integer.
pub fn parse_vocab(raw: &str) -> (r: Result<Vocab, VocabError>)
    ensures
        match r {
            Ok(vocab) => vocab_spelled(raw@) == Some(vocab@),
            Err(e) => vocab_fault(raw@, e),
        },
{
    match parse_json(raw) {
        Err(e) => Err(VocabError::Json(e)),
        Ok(doc) => match members(member(member(&doc, "model"), "vocab")) {
            None => Err(VocabError::NoVocab),
            Some(found) => {
                let mut entries: Vec<(String, Option<i64>)> = Vec::new();
                for i in 0..found.len()
                    invariant
                        entries@.len() == i,
                        forall|k: int|
                            0 <= k < i ==> (#[trigger] entries@[k]).0@ == found@[k].0@
                                && entries@[k].1 == match json_tree(found@[k].1) {
                                JsonTree::Number(n) => n,
                                _ => None::<i64>,
                            },
                {
                    entries.push((found[i].0.clone(), integer(&found[i].1)));
                }
                let vocab: Vocab = vocab_from_entries(&entries);
                proof {
                    let m = vocab_object(json_tree(doc))->Object_0;
                    lemma_members_give_ids(found@, entry_views(entries@), m);
                    assert(vocab@ =~= ids_in(m));
                }
                Ok(vocab)
            },
        },
    }
}

/// The vocabulary of a document is what its object `model.vocab` says, for every
/// character there is: a character has an id exactly when the object has a member
/// under that one character whose value is an integer, and the integer is its id.
pub proof fn law_the_vocabulary_is_what_the_document_says(
    raw: Seq<char>,
    top: Map<Seq<char>, JsonTree>,
    model: Map<Seq<char>, JsonTree>,
    m: Map<Seq<char>, JsonTree>,
    c: char,
    id: i64,
)
    requires
        json_document(raw) == Ok::<JsonTree, Seq<char>>(JsonTree::Object(top)),
        top.contains_key("model"@) && top["model"@] == JsonTree::Object(model),
        model.contains_key("vocab"@) && model["vocab"@] == JsonTree::Object(m),
    ensures
        vocab_spelled(raw) is Some,
        vocab_spelled(raw)->0.contains_key(c) && vocab_spelled(raw)->0[c] == id <==> m.contains_key(
            seq![c],
        ) && m[seq![c]] == JsonTree::Number(Some(id)),
        forall|e: VocabError| !#[trigger] vocab_fault(raw, e),
{
    let v = vocab_spelled(raw)->0;
    if m.contains_key(seq![c]) && m[seq![c]] == JsonTree::Number(Some(id)) {
        assert(id_in(m, c) == Some(id));
    }
}

/// Without such an object there is no vocabulary: where the document has one
/// under no key `model`, or nothing there under `vocab`, or something else than an
/// object in either place. What is wrong is then told, and so is what is wrong
/// with a text that spells no document.
pub proof fn law_no_object_no_vocabulary(raw: Seq<char>, e: VocabError)
    ensures
        json_document(raw) matches Err(why) ==> vocab_spelled(raw) is None && (vocab_fault(raw, e)
            <==> (e matches VocabError::Json(text) && text@ == why)),
        json_document(raw) matches Ok(doc) ==> (vocab_fault(raw, e) <==> vocab_spelled(raw) is None
            && e == VocabError::NoVocab),
        json_document(raw) matches Ok(doc) && !(doc is Object) ==> vocab_spelled(raw) is None,
        json_document(raw) matches Ok(JsonTree::Object(top)) ==> {
            &&& !top.contains_key("model"@) ==> vocab_spelled(raw) is None
            &&& top.contains_key("model"@) && !(top["model"@] is Object) ==> vocab_spelled(
                raw,
            ) is None
            &&& top.contains_key("model"@) ==> (top["model"@] matches JsonTree::Object(model)
                ==> {
                &&& !model.contains_key("vocab"@) ==> vocab_spelled(raw) is None
                &&& model.contains_key("vocab"@) && !(model["vocab"@] is Object) ==> vocab_spelled(
                    raw,
                ) is None
            })
        },
{
}

/// What a list of entries gives a character: nothing where no entry has it alone
/// as its key and an integer as its value, and otherwise the integer of the last
/// such entry.
pub proof fn law_the_last_entry_counts(entries: Seq<(Seq<char>, Option<i64>)>, c: char, i: int)
    ensures
        ids_listed(entries).contains_key(c) ==> exists|k: int|
            0 <= k < entries.len() && (#[trigger] entries[k]).0.len() == 1 && entries[k].0[0] == c
                && entries[k].1 is Some,
        0 <= i < entries.len() && entries[i].0.len() == 1 && entries[i].0[0] == c
            && entries[i].1 is Some && (forall|k: int|
            i < k < entries.len() && (#[trigger] entries[k]).0.len() == 1 && entries[k].0[0] == c
                ==> entries[k].1 is None) ==> ids_listed(entries).contains_key(c) && ids_listed(
            entries,
        )[c] == entries[i].1->0,
    decreases entries.len(),
{
    if entries.len() > 0 {
        let before = entries.drop_last();
        let last = entries.len() - 1;
        law_the_last_entry_counts(before, c, i);
        if ids_listed(before).contains_key(c) {
            let k = choose|k: int|
                0 <= k < before.len() && (#[trigger] before[k]).0.len() == 1 && before[k].0[0] == c
                    && before[k].1 is Some;
            assert(entries[k] == before[k]);
        }
        assert(entries[last] == entries.last());
        if 0 <= i < last {
            assert(before[i] == entries[i]);
        }
    }
}

/// The contents of entries are all of their fields, in their places.
pub proof fn law_entries_are_seen_whole(entries: Seq<(String, Option<i64>)>, i: int)
    ensures
        entry_views(entries).len() == entries.len(),
        0 <= i < entries.len() ==> entry_views(entries)[i].0 == entries[i].0@ && entry_views(
            entries,
        )[i].1 == entries[i].1,
{
}

} // verus!
