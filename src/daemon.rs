//! What the privileged daemon does with an opened frame: resolve the
//! identifier to a key chord, and plan the key presses.
use vstd::prelude::*;
use crate::config::{byte_table, find_phrase, index_in, lemma_index_unique, table_ok, Action};
use crate::text::bytes_of;

verus! {

/// One synthetic key event.
#[derive(Clone, Copy, PartialEq, Eq, Structural, Debug)]
pub enum KeyEvent {
    Press(u16),
    Release(u16),
}

/// A chord: every key pressed in the order given, then released in the
/// reverse order.
pub open spec fn chord(keys: Seq<u16>) -> Seq<KeyEvent> {
    Seq::new(keys.len(), |i: int| KeyEvent::Press(keys[i])) + Seq::new(
        keys.len(),
        |i: int| KeyEvent::Release(keys[keys.len() - 1 - i]),
    )
}

/// The key events of a chord on `keys`.
pub fn chord_events(keys: &[u16]) -> (r: Vec<KeyEvent>)
    ensures
        r@ == chord(keys@),
{
    let mut r: Vec<KeyEvent> = Vec::new();
    let mut i: usize = 0;
    while i < keys.len()
        invariant
            i <= keys@.len(),
            r@ == Seq::new(i as nat, |j: int| KeyEvent::Press(keys@[j])),
        decreases keys@.len() - i,
    {
        r.push(KeyEvent::Press(keys[i]));
        assert(r@ =~= Seq::new((i + 1) as nat, |j: int| KeyEvent::Press(keys@[j])));
        i = i + 1;
    }
    let mut k: usize = keys.len();
    while k > 0
        invariant
            k <= keys@.len(),
            r@ == Seq::new(keys@.len(), |j: int| KeyEvent::Press(keys@[j])) + Seq::new(
                (keys@.len() - k) as nat,
                |j: int| KeyEvent::Release(keys@[keys@.len() - 1 - j]),
            ),
        decreases k,
    {
        k = k - 1;
        r.push(KeyEvent::Release(keys[k]));
        assert(r@ =~= Seq::new(keys@.len(), |j: int| KeyEvent::Press(keys@[j])) + Seq::new(
            (keys@.len() - k) as nat,
            |j: int| KeyEvent::Release(keys@[keys@.len() - 1 - j]),
        ));
    }
    assert(r@ =~= chord(keys@));
    r
}

/// The entry that a received identifier names, when it is a key chord.
pub open spec fn chord_entry(actions: Seq<(String, Action)>, id: Seq<u8>) -> Option<int> {
    match index_in(byte_table(actions), id) {
        Some(k) => if actions[k].1 is Keys {
            Some(k)
        } else {
            None
        },
        None => None,
    }
}

/// Resolves a received identifier to the index of its key-chord action.
/// An unknown identifier (bytes that are not UTF-8 among them), or one bound
/// to a command, resolves to nothing.
pub fn resolve_keys(actions: &Vec<(String, Action)>, id: &[u8]) -> (r: Option<usize>)
    requires
        table_ok(byte_table(actions@)),
    ensures
        match r {
            Some(k) => chord_entry(actions@, id@) == Some(k as int),
            None => chord_entry(actions@, id@) is None,
        },
{
    match find_phrase(actions, id) {
        Some(k) => {
            proof {
                assert(byte_table(actions@)[k as int].0 == bytes_of(actions@[k as int].0));
                lemma_index_unique(byte_table(actions@), id@, k as int);
            }
            match &actions[k].1 {
                Action::Keys(_) => Some(k),
                Action::Command(_) => None,
            }
        },
        None => {
            proof {
                if exists|j: int|
                    0 <= j < byte_table(actions@).len() && byte_table(actions@)[j].0 == id@ {
                    let j = choose|j: int|
                        0 <= j < byte_table(actions@).len() && byte_table(actions@)[j].0 == id@;
                    assert(bytes_of(actions@[j].0) == id@);
                }
            }
            None
        },
    }
}

} // verus!
