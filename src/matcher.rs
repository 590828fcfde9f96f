//! The match bookkeeper: two independent streaming scans over the same
//! transcript, one for action phrases and one for trigger phrases.
use vstd::prelude::*;
use crate::config::{
    byte_table, find_phrase, index_in, key_set, lemma_index_unique, table_ok, value_of, Action,
    Config, Mode,
};
use crate::scan::{
    cursor_after, fires, lemma_scan_bounds, lemma_scan_resumes, next_match,
};
use crate::text::bytes_of;
use crate::trie::trie_words;

verus! {

/// The bytes of the `k`-th fired range.
pub open spec fn fired_phrase(text: Seq<u8>, fired: Seq<(int, int)>, k: int) -> Seq<u8> {
    text.subrange(fired[k].0, fired[k].1)
}

pub struct TrieMatchBookkeeper {
    /// Where the action scan resumes.
    pub actions_consumed_upto: usize,
    pub trie: trie_rs::Trie<u8>,
    pub actions: Vec<(String, Action)>,
    pub abstract_triggers: trie_rs::Trie<u8>,
    pub modes: Vec<(String, Mode)>,
    /// Where the trigger scan resumes.
    pub modes_consumed_upto: usize,
}

impl TrieMatchBookkeeper {
    pub open spec fn wf(&self) -> bool {
        &&& table_ok(byte_table(self.actions@))
        &&& table_ok(byte_table(self.modes@))
        &&& trie_words(self.trie) == key_set(byte_table(self.actions@))
        &&& trie_words(self.abstract_triggers) == key_set(byte_table(self.modes@))
        &&& trie_words(self.trie).finite()
        &&& trie_words(self.abstract_triggers).finite()
    }

    /// The action phrases.
    pub open spec fn action_words(&self) -> Set<Seq<u8>> {
        trie_words(self.trie)
    }

    /// The trigger phrases.
    pub open spec fn trigger_words(&self) -> Set<Seq<u8>> {
        trie_words(self.abstract_triggers)
    }

    /// Everything but the two cursors is the same in both.
    pub open spec fn same_tables(&self, other: &Self) -> bool {
        &&& self.trie == other.trie
        &&& self.actions == other.actions
        &&& self.abstract_triggers == other.abstract_triggers
        &&& self.modes == other.modes
    }

    /// A bookkeeper over a compiled dictionary, with both scans at the start.
    pub fn new(c: Config) -> (b: Self)
        requires
            c.wf(),
        ensures
            b.wf(),
            b.actions == c.actions,
            b.modes == c.modes,
            b.trie == c.word_trie,
            b.abstract_triggers == c.abstract_triggers,
            b.actions_consumed_upto == 0,
            b.modes_consumed_upto == 0,
    {
        let Config { actions, word_trie, keys: _, abstract_triggers, modes, ollama_model: _, ollama_endpoint: _ } = c;
        TrieMatchBookkeeper {
            actions_consumed_upto: 0,
            trie: word_trie,
            actions,
            abstract_triggers,
            modes,
            modes_consumed_upto: 0,
        }
    }

    /// Scans `phrase` for action phrases from the action cursor on, and
    /// returns the index in `actions` of each phrase that fires, in order.
    /// The cursor moves to the end of the last phrase that fired.
    pub fn word_to_action(&mut self, phrase: &[u8]) -> (r: Vec<usize>)
        requires
            old(self).wf(),
        ensures
            final(self).wf(),
            final(self).same_tables(old(self)),
            final(self).modes_consumed_upto == old(self).modes_consumed_upto,
            ({
                let f = fires(old(self).action_words(), phrase@, old(self).actions_consumed_upto as int);
                &&& r@.len() == f.len()
                &&& forall|k: int|
                    0 <= k < f.len() ==> Some(r@[k] as int) == index_in(
                        byte_table(old(self).actions@),
                        #[trigger] fired_phrase(phrase@, f, k),
                    )
                &&& final(self).actions_consumed_upto as int == cursor_after(
                    f,
                    old(self).actions_consumed_upto as int,
                )
            }),
    {
        let ghost words = self.action_words();
        let ghost c0 = self.actions_consumed_upto as int;
        let ghost all = fires(words, phrase@, c0);
        let ghost mut done: Seq<(int, int)> = Seq::empty();
        let mut r: Vec<usize> = Vec::new();
        let mut c = self.actions_consumed_upto;
        assert(all == done + fires(words, phrase@, c as int));
        loop
            invariant
                self.wf(),
                words == self.action_words(),
                all == fires(words, phrase@, c0),
                all == done + fires(words, phrase@, c as int),
                r@.len() == done.len(),
                forall|k: int|
                    0 <= k < done.len() ==> Some(r@[k] as int) == index_in(
                        byte_table(self.actions@),
                        #[trigger] fired_phrase(phrase@, done, k),
                    ),
                c as int == cursor_after(done, c0),
            ensures
                done == all,
            decreases phrase@.len() - c,
        {
            match next_match(&self.trie, phrase, c) {
                None => {
                    assert(done =~= all);
                    break;
                },
                Some((s, e)) => {
                    let ghost rest = fires(words, phrase@, c as int);
                    proof {
                        lemma_scan_resumes(words, phrase@, c as int, c + 2);
                        lemma_scan_bounds(words, phrase@, c as int, c + 2);
                        assert(rest[0] == (s as int, e as int));
                    }
                    let w = &phrase[s..e];
                    match find_phrase(&self.actions, w) {
                        Some(k) => {
                            proof {
                                lemma_index_unique(byte_table(self.actions@), w@, k as int);
                            }
                            r.push(k);
                        },
                        None => {
                            proof {
                                assert(key_set(byte_table(self.actions@)).contains(w@));
                                let j = choose|j: int|
                                    0 <= j < byte_table(self.actions@).len() && byte_table(
                                        self.actions@,
                                    )[j].0 == w@;
                                assert(bytes_of(self.actions@[j].0) == w@);
                            }
                            r.push(0);
                        },
                    }
                    proof {
                        let d2 = done.push((s as int, e as int));
                        assert(all =~= d2 + fires(words, phrase@, e as int)) by {
                            assert(rest =~= seq![(s as int, e as int)] + rest.drop_first());
                        }
                        assert forall|k: int| 0 <= k < d2.len() implies Some(r@[k] as int)
                            == index_in(
                            byte_table(self.actions@),
                            #[trigger] fired_phrase(phrase@, d2, k),
                        ) by {
                            if k < done.len() {
                                assert(fired_phrase(phrase@, d2, k) == fired_phrase(phrase@, done, k));
                            }
                        }
                        done = d2;
                    }
                    c = e;
                },
            }
        }
        self.actions_consumed_upto = c;
        r
    }

    /// Scans `phrase` for the next trigger phrase from the trigger cursor on.
    /// When one fires, the cursor moves to its end and its mode is returned.
    pub fn word_to_trigger(&mut self, phrase: &[u8]) -> (r: Option<Mode>)
        requires
            old(self).wf(),
        ensures
            final(self).wf(),
            final(self).same_tables(old(self)),
            final(self).actions_consumed_upto == old(self).actions_consumed_upto,
            ({
                let f = fires(old(self).trigger_words(), phrase@, old(self).modes_consumed_upto as int);
                if f.len() == 0 {
                    &&& r is None
                    &&& final(self).modes_consumed_upto == old(self).modes_consumed_upto
                } else {
                    &&& r == value_of(byte_table(old(self).modes@), fired_phrase(phrase@, f, 0))
                    &&& r is Some
                    &&& final(self).modes_consumed_upto as int == f[0].1
                }
            }),
    {
        let ghost words = self.trigger_words();
        match next_match(&self.abstract_triggers, phrase, self.modes_consumed_upto) {
            None => None,
            Some((s, e)) => {
                proof {
                    lemma_scan_bounds(words, phrase@, self.modes_consumed_upto as int, self.modes_consumed_upto + 2);
                }
                let w = &phrase[s..e];
                self.modes_consumed_upto = e;
                match find_phrase(&self.modes, w) {
                    Some(k) => {
                        proof {
                            lemma_index_unique(byte_table(self.modes@), w@, k as int);
                        }
                        Some(self.modes[k].1)
                    },
                    None => {
                        proof {
                            assert(key_set(byte_table(self.modes@)).contains(w@));
                            let j = choose|j: int|
                                0 <= j < byte_table(self.modes@).len() && byte_table(self.modes@)[j].0
                                    == w@;
                            assert(bytes_of(self.modes@[j].0) == w@);
                        }
                        None
                    },
                }
            },
        }
    }

    /// Puts both scans back at the start of the transcript.
    pub fn clear(&mut self)
        requires
            old(self).wf(),
        ensures
            final(self).wf(),
            final(self).same_tables(old(self)),
            final(self).actions_consumed_upto == 0,
            final(self).modes_consumed_upto == 0,
    {
        self.actions_consumed_upto = 0;
        self.modes_consumed_upto = 0;
    }
}

} // verus!
