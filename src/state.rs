//! The session: listening and dictation modes, driven by transcript events.
use vstd::prelude::*;
use crate::config::{byte_table, index_in, value_of, Mode};
use crate::matcher::{fired_phrase, TrieMatchBookkeeper};
use crate::scan::{
    cursor_after, fires, lemma_scan_bounds, lemma_scan_exhausted, lemma_scan_resumes,
};
use crate::text::{bytes_of, folded, lowercase};
use vstd::string::StringSliceAdditionalSpecFns;

verus! {

#[verifier::external_type_specification]
#[verifier::external_body]
#[verifier::reject_recursive_types(T)]
pub struct ExSender<T>(std::sync::mpsc::Sender<T>);

/// Per-utterance session flags.
pub struct State {
    /// Length in bytes of the last transcript taken in; shorter revisions
    /// are ignored.
    pub length: usize,
    /// Whether an action fired during this utterance.
    pub already_commanded: bool,
    /// Awake (or dictating) rather than asleep.
    pub listening: bool,
    /// Dictating: text after the dictation trigger goes to the relay.
    pub infer: bool,
    /// Where the dictated text begins.
    pub infer_from: usize,
    /// Where dictated prompts are sent.
    pub to_ollama: Option<std::sync::mpsc::Sender<String>>,
}

/// The session as the contracts see it: the flags of `State` and the two
/// cursors of the bookkeeper.
pub ghost struct SessionModel {
    pub listening: bool,
    pub infer: bool,
    pub acted: bool,
    pub length: int,
    pub infer_from: int,
    pub action_cursor: int,
    pub mode_cursor: int,
}

pub open spec fn session_model(st: State, bk: TrieMatchBookkeeper) -> SessionModel {
    SessionModel {
        listening: st.listening,
        infer: st.infer,
        acted: st.already_commanded,
        length: st.length as int,
        infer_from: st.infer_from as int,
        action_cursor: bk.actions_consumed_upto as int,
        mode_cursor: bk.modes_consumed_upto as int,
    }
}

/// The session after a trigger phrase ending at `end` resolved to `m`. The
/// trigger is consumed in any case; a change of mode also moves the action
/// scan past the trigger and forgets earlier actions.
pub open spec fn after_trigger(s: SessionModel, m: Option<Mode>, end: int) -> SessionModel {
    let moved = SessionModel { mode_cursor: end, ..s };
    match m {
        Some(Mode::Wake) => if !s.listening {
            SessionModel { listening: true, action_cursor: end, acted: false, ..moved }
        } else {
            moved
        },
        Some(Mode::Rest) => if s.listening {
            SessionModel { listening: false, action_cursor: end, acted: false, ..moved }
        } else {
            moved
        },
        Some(Mode::Infer) => if s.listening {
            SessionModel { infer: true, infer_from: end, action_cursor: end, acted: false, ..moved }
        } else {
            moved
        },
        _ => moved,
    }
}

/// The session after the triggers `fired` are taken in order; dictation
/// stops the taking of triggers.
pub open spec fn run_triggers(
    modes: Seq<(Seq<u8>, Mode)>,
    text: Seq<u8>,
    fired: Seq<(int, int)>,
    s: SessionModel,
) -> SessionModel
    decreases fired.len(),
{
    if fired.len() == 0 || s.infer {
        s
    } else {
        run_triggers(
            modes,
            text,
            fired.drop_first(),
            after_trigger(s, value_of(modes, fired_phrase(text, fired, 0)), fired[0].1),
        )
    }
}

/// A partial transcript `text` (case-folded bytes) taken in: the session
/// after it, and the action phrases that fire, as byte ranges of `text`.
/// Triggers are matched unless dictating; actions only while awake.
pub open spec fn partial_step(
    action_words: Set<Seq<u8>>,
    trigger_words: Set<Seq<u8>>,
    modes: Seq<(Seq<u8>, Mode)>,
    text: Seq<u8>,
    s: SessionModel,
) -> (SessionModel, Seq<(int, int)>) {
    if text.len() < s.length {
        (s, Seq::empty())
    } else {
        let t = run_triggers(modes, text, fires(trigger_words, text, s.mode_cursor), s);
        if t.listening && !t.infer {
            let f = fires(action_words, text, t.action_cursor);
            (
                SessionModel {
                    action_cursor: cursor_after(f, t.action_cursor),
                    acted: t.acted || f.len() > 0,
                    length: text.len() as int,
                    ..t
                },
                f,
            )
        } else {
            (SessionModel { length: text.len() as int, ..t }, Seq::empty())
        }
    }
}

/// Taking in triggers ends either in dictation or with nothing left to fire.
pub proof fn lemma_triggers_settle(
    trigger_words: Set<Seq<u8>>,
    modes: Seq<(Seq<u8>, Mode)>,
    text: Seq<u8>,
    s: SessionModel,
)
    ensures
        ({
            let t = run_triggers(modes, text, fires(trigger_words, text, s.mode_cursor), s);
            t.infer || fires(trigger_words, text, t.mode_cursor).len() == 0
        }),
    decreases text.len() + 2 - s.mode_cursor,
{
    let f = fires(trigger_words, text, s.mode_cursor);
    if f.len() > 0 && !s.infer {
        lemma_scan_resumes(trigger_words, text, s.mode_cursor, s.mode_cursor + 2);
        lemma_scan_bounds(trigger_words, text, s.mode_cursor, s.mode_cursor + 2);
        assert(f[0] == crate::scan::scan_from(trigger_words, text, s.mode_cursor, s.mode_cursor + 2)[0]);
        let s1 = after_trigger(s, value_of(modes, fired_phrase(text, f, 0)), f[0].1);
        assert(s1.mode_cursor == f[0].1);
        lemma_triggers_settle(trigger_words, modes, text, s1);
    }
}

/// Taking in the same partial transcript twice in a row fires no action the
/// second time.
pub proof fn lemma_partial_twice_fires_once(
    action_words: Set<Seq<u8>>,
    trigger_words: Set<Seq<u8>>,
    modes: Seq<(Seq<u8>, Mode)>,
    text: Seq<u8>,
    s: SessionModel,
)
    ensures
        ({
            let s1 = partial_step(action_words, trigger_words, modes, text, s).0;
            partial_step(action_words, trigger_words, modes, text, s1).1.len() == 0
        }),
{
    let s1 = partial_step(action_words, trigger_words, modes, text, s).0;
    if text.len() >= s.length {
        let t = run_triggers(modes, text, fires(trigger_words, text, s.mode_cursor), s);
        lemma_triggers_settle(trigger_words, modes, text, s);
        lemma_scan_exhausted(action_words, text, t.action_cursor);
        assert(s1.mode_cursor == t.mode_cursor);
        let t2 = run_triggers(modes, text, fires(trigger_words, text, s1.mode_cursor), s1);
        assert(t2 == s1);
    }
}

impl Default for State {
    fn default() -> (r: Self)
        ensures
            r.length == 0,
            !r.already_commanded,
            !r.listening,
            !r.infer,
            r.infer_from == 0,
            r.to_ollama is None,
    {
        State {
            length: 0,
            already_commanded: false,
            listening: false,
            infer: false,
            infer_from: 0,
            to_ollama: None,
        }
    }
}

/// What a final transcript leads to.
pub struct FinalOutcome {
    /// The action chosen by the semantic fallback, as an index into the
    /// dictionary's actions.
    pub action: Option<usize>,
    /// The dictated text, for the relay.
    pub prompt: Option<String>,
}

impl State {
    /// Forgets the utterance: no text taken in, no action fired, dictation
    /// over. Whether the session listens is kept.
    pub fn clear(&mut self)
        ensures
            final(self).length == 0,
            !final(self).infer,
            !final(self).already_commanded,
            final(self).infer_from == 0,
            final(self).listening == old(self).listening,
            final(self).to_ollama == old(self).to_ollama,
    {
        self.length = 0;
        self.infer = false;
        self.already_commanded = false;
        self.infer_from = 0;
    }

    /// Sets where dictated prompts go.
    pub fn ollama_channel(&mut self, sender: std::sync::mpsc::Sender<String>)
        ensures
            final(self).to_ollama == Some(sender),
            final(self).length == old(self).length,
            final(self).already_commanded == old(self).already_commanded,
            final(self).listening == old(self).listening,
            final(self).infer == old(self).infer,
            final(self).infer_from == old(self).infer_from,
    {
        self.to_ollama = Some(sender);
    }

    /// Whether a final transcript is to be matched by similarity: only while
    /// awake and when no action fired during the utterance.
    pub fn wants_fallback(&self) -> (r: bool)
        ensures
            r == (self.listening && !self.infer && !self.already_commanded),
    {
        self.listening && !self.infer && !self.already_commanded
    }

    /// Takes in a partial transcript, already case-folded, and returns the
    /// index in the dictionary's actions of each action phrase that fires.
    pub fn on_partial(&mut self, bk: &mut TrieMatchBookkeeper, text: &[u8]) -> (r: Vec<usize>)
        requires
            old(bk).wf(),
        ensures
            final(bk).wf(),
            final(bk).same_tables(old(bk)),
            final(self).to_ollama == old(self).to_ollama,
            ({
                let step = partial_step(
                    old(bk).action_words(),
                    old(bk).trigger_words(),
                    byte_table(old(bk).modes@),
                    text@,
                    session_model(*old(self), *old(bk)),
                );
                &&& session_model(*final(self), *final(bk)) == step.0
                &&& r@.len() == step.1.len()
                &&& forall|k: int|
                    0 <= k < step.1.len() ==> Some(r@[k] as int) == index_in(
                        byte_table(old(bk).actions@),
                        #[trigger] fired_phrase(text@, step.1, k),
                    )
            }),
    {
        if text.len() < self.length {
            return Vec::new();
        }
        let ghost tw = bk.trigger_words();
        let ghost modes = byte_table(bk.modes@);
        let ghost s0 = session_model(*self, *bk);
        let ghost target = run_triggers(modes, text@, fires(tw, text@, s0.mode_cursor), s0);
        while !self.infer
            invariant
                bk.wf(),
                bk.same_tables(old(bk)),
                tw == bk.trigger_words(),
                modes == byte_table(bk.modes@),
                self.to_ollama == old(self).to_ollama,
                self.length == old(self).length,
                target == run_triggers(
                    modes,
                    text@,
                    fires(tw, text@, bk.modes_consumed_upto as int),
                    session_model(*self, *bk),
                ),
            ensures
                target == session_model(*self, *bk),
            decreases text@.len() + 2 - bk.modes_consumed_upto,
        {
            let ghost c = bk.modes_consumed_upto as int;
            let ghost f = fires(tw, text@, c);
            let ghost before = session_model(*self, *bk);
            match bk.word_to_trigger(text) {
                None => {
                    break;
                },
                Some(m) => {
                    proof {
                        lemma_scan_resumes(tw, text@, c, c + 2);
                        lemma_scan_bounds(tw, text@, c, c + 2);
                        assert(f[0] == crate::scan::scan_from(tw, text@, c, c + 2)[0]);
                    }
                    let end = bk.modes_consumed_upto;
                    match m {
                        Mode::Wake => {
                            if !self.listening {
                                self.listening = true;
                                bk.actions_consumed_upto = end;
                                self.already_commanded = false;
                            }
                        },
                        Mode::Rest => {
                            if self.listening {
                                self.listening = false;
                                bk.actions_consumed_upto = end;
                                self.already_commanded = false;
                            }
                        },
                        Mode::Infer => {
                            if self.listening {
                                self.infer = true;
                                self.infer_from = end;
                                bk.actions_consumed_upto = end;
                                self.already_commanded = false;
                            }
                        },
                        Mode::Custom(_) => {},
                    }
                    assert(session_model(*self, *bk) == after_trigger(
                        before,
                        value_of(modes, fired_phrase(text@, f, 0)),
                        f[0].1,
                    ));
                },
            }
        }
        let mut r: Vec<usize> = Vec::new();
        if self.listening && !self.infer {
            r = bk.word_to_action(text);
            if r.len() > 0 {
                self.already_commanded = true;
            }
        }
        self.length = text.len();
        r
    }

    /// Takes in a partial transcript as recognized: folds its case, then
    /// proceeds as `on_partial` on the folded bytes.
    pub fn on_partial_text(&mut self, bk: &mut TrieMatchBookkeeper, text: &str) -> (r: Vec<usize>)
        requires
            old(bk).wf(),
        ensures
            final(bk).wf(),
            final(bk).same_tables(old(bk)),
            final(self).to_ollama == old(self).to_ollama,
            ({
                let step = partial_step(
                    old(bk).action_words(),
                    old(bk).trigger_words(),
                    byte_table(old(bk).modes@),
                    folded(text@),
                    session_model(*old(self), *old(bk)),
                );
                &&& session_model(*final(self), *final(bk)) == step.0
                &&& r@.len() == step.1.len()
                &&& forall|k: int|
                    0 <= k < step.1.len() ==> Some(r@[k] as int) == index_in(
                        byte_table(old(bk).actions@),
                        #[trigger] fired_phrase(folded(text@), step.1, k),
                    )
            }),
    {
        let f = lowercase(text);
        self.on_partial(bk, f.as_str().as_bytes())
    }

    /// Takes in a final transcript and closes the utterance. `fallback` is
    /// the dictionary index that similarity matching picked for `text`, if
    /// any; it is acted on only when `wants_fallback` held. While dictating,
    /// the text after the dictation trigger is handed back for the relay.
    /// Both scans and the action flag then return to their initial values,
    /// and dictation ends.
    pub fn on_final(
        &mut self,
        bk: &mut TrieMatchBookkeeper,
        text: &str,
        fallback: Option<usize>,
    ) -> (r: FinalOutcome)
        requires
            old(bk).wf(),
        ensures
            final(bk).wf(),
            final(bk).same_tables(old(bk)),
            final(bk).actions_consumed_upto == 0,
            final(bk).modes_consumed_upto == 0,
            !final(self).already_commanded,
            !final(self).infer,
            final(self).length == 0,
            final(self).infer_from == 0,
            final(self).listening == old(self).listening,
            final(self).to_ollama == old(self).to_ollama,
            r.action == (if old(self).listening && !old(self).infer && !old(self).already_commanded
                && fallback is Some && (fallback->0 as int) < old(bk).actions@.len() {
                fallback
            } else {
                None
            }),
            r.prompt is Some == (old(self).infer && vstd::utf8::is_char_boundary(
                text.spec_bytes(),
                old(self).infer_from as int,
            )),
            r.prompt matches Some(p) ==> bytes_of(p) == text.spec_bytes().subrange(
                old(self).infer_from as int,
                text.spec_bytes().len() as int,
            ),
    {
        let mut action: Option<usize> = None;
        if self.wants_fallback() {
            match fallback {
                Some(k) => {
                    if k < bk.actions.len() {
                        action = Some(k);
                    }
                },
                None => {},
            }
        }
        let mut prompt: Option<String> = None;
        proof {
            vstd::utf8::encode_utf8_valid_utf8(text@);
        }
        if self.infer && text.is_char_boundary(self.infer_from) {
            let (_, tail) = text.split_at(self.infer_from);
            let p = tail.to_owned();
            proof {
                assert(p@ == tail@);
            }
            prompt = Some(p);
        }
        self.clear();
        bk.clear();
        FinalOutcome { action, prompt }
    }
}

} // verus!
