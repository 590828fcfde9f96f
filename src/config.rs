//! The phrase dictionary: bindings as configured, and their compiled form
//! with prefix-searchable phrase sets.
use vstd::prelude::*;
use crate::text::{bytes_of, folded, lowercase};
use crate::trie::{builder_words, build_trie, new_builder, push_word, trie_words};

verus! {

/// What a recognized phrase does.
pub enum Action {
    /// Press the named keys together (done by the privileged daemon).
    Keys(Vec<String>),
    /// Run a program: the first element names it, the rest are its arguments.
    Command(Vec<String>),
}

/// One phrase and its action, as configured.
pub struct RawBinding {
    pub phrase: String,
    pub action: Action,
}

/// The configuration as loaded, before compilation.
pub struct RawConfig {
    pub wake_phrase: String,
    pub rest_phrase: String,
    pub infer_phrase: String,
    pub actions: Vec<RawBinding>,
    pub ollama_model: String,
    pub ollama_endpoint: String,
}

/// What a trigger phrase does to the session.
#[derive(Clone, Copy, PartialEq, Eq, Structural, Debug)]
pub enum Mode {
    Wake,
    Rest,
    Infer,
    Custom(usize),
}

/// The compiled dictionary.
pub struct Config {
    /// Case-folded action phrases, each once, with their actions.
    pub actions: Vec<(String, Action)>,
    /// The bytes of the action phrases.
    pub word_trie: trie_rs::Trie<u8>,
    /// The action phrases, in the order of `actions`.
    pub keys: Vec<String>,
    /// The bytes of the trigger phrases.
    pub abstract_triggers: trie_rs::Trie<u8>,
    /// Case-folded trigger phrases, each once, with their modes.
    pub modes: Vec<(String, Mode)>,
    pub ollama_model: String,
    pub ollama_endpoint: String,
}

/// A phrase table in terms of phrase bytes.
pub open spec fn byte_table<V>(t: Seq<(String, V)>) -> Seq<(Seq<u8>, V)> {
    t.map_values(|e: (String, V)| (bytes_of(e.0), e.1))
}

/// The phrase bytes of a table.
pub open spec fn key_set<V>(t: Seq<(Seq<u8>, V)>) -> Set<Seq<u8>> {
    Set::new(|w: Seq<u8>| exists|k: int| 0 <= k < t.len() && t[k].0 == w)
}

/// Every phrase of the table is non-empty and appears once.
pub open spec fn table_ok<V>(t: Seq<(Seq<u8>, V)>) -> bool {
    &&& forall|k: int| 0 <= k < t.len() ==> (#[trigger] t[k]).0.len() > 0
    &&& forall|i: int, j: int| 0 <= i < t.len() && 0 <= j < t.len() && i != j ==> t[i].0 != t[j].0
}

/// The index of `key` in the table, if it is there.
pub open spec fn index_in<V>(t: Seq<(Seq<u8>, V)>, key: Seq<u8>) -> Option<int> {
    if exists|k: int| 0 <= k < t.len() && t[k].0 == key {
        Some(choose|k: int| 0 <= k < t.len() && t[k].0 == key)
    } else {
        None
    }
}

/// The table with `key` bound to `v`: an existing binding of the key is
/// replaced in place, a new key goes last, and an empty key is left out.
pub open spec fn upsert_spec<V>(t: Seq<(Seq<u8>, V)>, key: Seq<u8>, v: V) -> Seq<(Seq<u8>, V)> {
    if key.len() == 0 {
        t
    } else {
        match index_in(t, key) {
            Some(k) => t.update(k, (key, v)),
            None => t.push((key, v)),
        }
    }
}

/// The action table that a list of bindings compiles to: phrases are
/// case-folded, and a later binding of a phrase replaces an earlier one.
pub open spec fn action_table(bs: Seq<RawBinding>) -> Seq<(Seq<u8>, Action)>
    decreases bs.len(),
{
    if bs.len() == 0 {
        Seq::empty()
    } else {
        upsert_spec(action_table(bs.drop_last()), folded(bs.last().phrase@), bs.last().action)
    }
}

/// The trigger table: wake, rest and dictation phrases, case-folded.
pub open spec fn mode_table(wake: Seq<char>, rest: Seq<char>, infer: Seq<char>) -> Seq<(Seq<u8>, Mode)> {
    upsert_spec(
        upsert_spec(upsert_spec(Seq::empty(), folded(wake), Mode::Wake), folded(rest), Mode::Rest),
        folded(infer),
        Mode::Infer,
    )
}

/// What `key` is bound to in the table, if anything.
pub open spec fn value_of<V>(t: Seq<(Seq<u8>, V)>, key: Seq<u8>) -> Option<V> {
    match index_in(t, key) {
        Some(k) => Some(t[k].1),
        None => None,
    }
}

impl Config {
    /// The compiled form is consistent: each table holds distinct non-empty
    /// phrases, and each trie holds exactly the phrases of its table.
    pub open spec fn wf(&self) -> bool {
        &&& table_ok(byte_table(self.actions@))
        &&& table_ok(byte_table(self.modes@))
        &&& trie_words(self.word_trie) == key_set(byte_table(self.actions@))
        &&& trie_words(self.abstract_triggers) == key_set(byte_table(self.modes@))
        &&& trie_words(self.word_trie).finite()
        &&& trie_words(self.abstract_triggers).finite()
    }
}

/// Finds the entry whose phrase bytes are `key`.
pub fn find_phrase<V>(table: &Vec<(String, V)>, key: &[u8]) -> (r: Option<usize>)
    ensures
        match r {
            Some(k) => k < table@.len() && bytes_of(table@[k as int].0) == key@,
            None => forall|k: int| 0 <= k < table@.len() ==> bytes_of(table@[k].0) != key@,
        },
{
    let mut i: usize = 0;
    while i < table.len()
        invariant
            i <= table@.len(),
            forall|k: int| 0 <= k < i ==> bytes_of(table@[k].0) != key@,
        decreases table@.len() - i,
    {
        let b = table[i].0.as_str().as_bytes();
        if crate::text::bytes_eq(b, key) {
            return Some(i);
        }
        i = i + 1;
    }
    None
}

pub proof fn lemma_index_unique<V>(t: Seq<(Seq<u8>, V)>, key: Seq<u8>, k: int)
    requires
        table_ok(t),
        0 <= k < t.len(),
        t[k].0 == key,
    ensures
        index_in(t, key) == Some(k),
{
}

/// Binds `key` (a case-folded phrase) to `v` in the table.
fn upsert<V>(table: &mut Vec<(String, V)>, key: String, v: V)
    requires
        table_ok(byte_table(old(table)@)),
    ensures
        byte_table(final(table)@) == upsert_spec(byte_table(old(table)@), bytes_of(key), v),
        table_ok(byte_table(final(table)@)),
{
    let ghost t0 = byte_table(table@);
    let kb = key.as_str().as_bytes();
    if kb.len() == 0 {
        return;
    }
    match find_phrase(table, kb) {
        Some(k) => {
            proof {
                lemma_index_unique(t0, bytes_of(key), k as int);
            }
            table.set(k, (key, v));
            assert(byte_table(table@) =~= t0.update(k as int, (bytes_of(key), v)));
        },
        None => {
            assert(index_in(t0, bytes_of(key)) is None) by {
                if exists|k: int| 0 <= k < t0.len() && t0[k].0 == bytes_of(key) {
                    let k = choose|k: int| 0 <= k < t0.len() && t0[k].0 == bytes_of(key);
                    assert(bytes_of(old(table)@[k].0) == t0[k].0);
                }
            }
            table.push((key, v));
            assert(byte_table(table@) =~= t0.push((bytes_of(key), v)));
        },
    }
    let ghost t1 = byte_table(table@);
    assert(table_ok(t1)) by {
        assert forall|i: int, j: int| 0 <= i < t1.len() && 0 <= j < t1.len() && i != j implies t1[i].0
            != t1[j].0 by {
            if i < t0.len() && j < t0.len() {
                if t1[i] != t0[i] {
                    assert(t0[j].0 != t0[i].0);
                }
                if t1[j] != t0[j] {
                    assert(t0[j].0 != t0[i].0);
                }
            }
        }
    }
}

/// A trie holding exactly the phrases of the table.
fn phrase_trie<V>(table: &Vec<(String, V)>) -> (t: trie_rs::Trie<u8>)
    requires
        table_ok(byte_table(table@)),
    ensures
        trie_words(t) == key_set(byte_table(table@)),
        trie_words(t).finite(),
{
    let ghost bt = byte_table(table@);
    let mut b = new_builder();
    let mut i: usize = 0;
    while i < table.len()
        invariant
            i <= table@.len(),
            bt == byte_table(table@),
            table_ok(bt),
            builder_words(b).finite(),
            builder_words(b) == key_set(bt.subrange(0, i as int)),
        decreases table@.len() - i,
    {
        let w = table[i].0.as_str().as_bytes();
        assert(bt[i as int].0 == w@);
        push_word(&mut b, w);
        let ghost lo = bt.subrange(0, i as int);
        let ghost hi = bt.subrange(0, i + 1);
        assert(key_set(hi) =~= key_set(lo).insert(w@)) by {
            assert forall|x: Seq<u8>| key_set(hi).contains(x) implies key_set(lo).insert(w@).contains(
                x,
            ) by {
                let k = choose|k: int| 0 <= k < hi.len() && (#[trigger] hi[k]).0 == x;
                if k < i {
                    assert(lo[k] == hi[k]);
                }
            }
            assert forall|x: Seq<u8>| key_set(lo).insert(w@).contains(x) implies key_set(hi).contains(
                x,
            ) by {
                if x == w@ {
                    assert(hi[i as int].0 == x);
                } else {
                    let k = choose|k: int| 0 <= k < lo.len() && (#[trigger] lo[k]).0 == x;
                    assert(lo[k] == hi[k]);
                }
            }
        }
        i = i + 1;
    }
    assert(bt.subrange(0, i as int) =~= bt);
    build_trie(b)
}

/// The phrases of the table, in its order.
fn phrase_list<V>(table: &Vec<(String, V)>) -> (keys: Vec<String>)
    ensures
        keys@.len() == table@.len(),
        forall|k: int| 0 <= k < keys@.len() ==> (#[trigger] keys@[k])@ == table@[k].0@,
{
    let mut keys: Vec<String> = Vec::new();
    let mut i: usize = 0;
    while i < table.len()
        invariant
            i <= table@.len(),
            keys@.len() == i,
            forall|k: int| 0 <= k < i ==> (#[trigger] keys@[k])@ == table@[k].0@,
        decreases table@.len() - i,
    {
        keys.push(table[i].0.clone());
        i = i + 1;
    }
    keys
}

/// Compiles the configuration: folds the case of every phrase, keeps one
/// binding per phrase (the last one given), leaves out phrases that fold to
/// nothing, and builds the prefix-searchable sets of action and trigger
/// phrases.
pub fn compile(value: RawConfig) -> (c: Config)
    ensures
        byte_table(c.actions@) == action_table(value.actions@),
        byte_table(c.modes@) == mode_table(
            value.wake_phrase@,
            value.rest_phrase@,
            value.infer_phrase@,
        ),
        c.wf(),
        c.keys@.len() == c.actions@.len(),
        forall|k: int| 0 <= k < c.keys@.len() ==> (#[trigger] c.keys@[k])@ == c.actions@[k].0@,
        c.ollama_model == value.ollama_model,
        c.ollama_endpoint == value.ollama_endpoint,
{
    let RawConfig { wake_phrase, rest_phrase, infer_phrase, actions: bindings, ollama_model, ollama_endpoint } = value;
    let ghost all = bindings@;
    let mut rest = bindings;
    let mut actions: Vec<(String, Action)> = Vec::new();
    assert(byte_table(actions@) =~= action_table(all.subrange(0, 0)));
    while rest.len() > 0
        invariant
            all.len() >= rest@.len(),
            rest@ == all.subrange(all.len() - rest@.len(), all.len() as int),
            byte_table(actions@) == action_table(all.subrange(0, all.len() - rest@.len())),
            table_ok(byte_table(actions@)),
        decreases rest@.len(),
    {
        let ghost done = all.len() - rest@.len();
        let b = rest.remove(0);
        assert(b == all[done]);
        let key = lowercase(b.phrase.as_str());
        upsert(&mut actions, key, b.action);
        let ghost upto = all.subrange(0, done + 1);
        assert(upto.drop_last() =~= all.subrange(0, done));
        assert(rest@ =~= all.subrange(all.len() - rest@.len(), all.len() as int));
    }
    assert(all.subrange(0, all.len() as int) =~= all);
    let mut modes: Vec<(String, Mode)> = Vec::new();
    assert(byte_table(modes@) =~= Seq::<(Seq<u8>, Mode)>::empty());
    upsert(&mut modes, lowercase(wake_phrase.as_str()), Mode::Wake);
    upsert(&mut modes, lowercase(rest_phrase.as_str()), Mode::Rest);
    upsert(&mut modes, lowercase(infer_phrase.as_str()), Mode::Infer);
    let word_trie = phrase_trie(&actions);
    let abstract_triggers = phrase_trie(&modes);
    let keys = phrase_list(&actions);
    Config { actions, word_trie, keys, abstract_triggers, modes, ollama_model, ollama_endpoint }
}

} // verus!
