//! The streaming scan that finds complete phrases in a growing transcript.
//!
//! The scan keeps a window `text[start..end]` and grows it one byte at a time.
//! When no phrase starts with the window, the window drops all but its last
//! byte; when the window is the one phrase that starts with it, the phrase
//! fires and the next window begins where it ended.
use vstd::prelude::*;
use crate::trie::{prefix_count, trie_words, count_with_prefix, holds_word};

verus! {

/// Whether the window `w` completes a phrase: it is a phrase, and no other
/// phrase starts with it.
pub open spec fn completes(words: Set<Seq<u8>>, w: Seq<u8>) -> bool {
    prefix_count(words, w) == 1 && words.contains(w)
}

/// The phrases that fire, as `(start, end)` byte ranges of `text`, when the
/// scan resumes with window start `start` and window end `end`.
pub open spec fn scan_from(words: Set<Seq<u8>>, text: Seq<u8>, start: int, end: int) -> Seq<(int, int)>
    decreases text.len() + 2 - end,
{
    if end > text.len() || start < 0 || start > end {
        Seq::empty()
    } else {
        let w = text.subrange(start, end);
        if prefix_count(words, w) == 0 {
            scan_from(words, text, end - 1, end + 1)
        } else if completes(words, w) {
            seq![(start, end)] + scan_from(words, text, end, end + 2)
        } else {
            scan_from(words, text, start, end + 1)
        }
    }
}

/// The phrases that fire when the scan starts afresh at `cursor`.
pub open spec fn fires(words: Set<Seq<u8>>, text: Seq<u8>, cursor: int) -> Seq<(int, int)> {
    scan_from(words, text, cursor, cursor + 2)
}

/// Where the cursor stands after the phrases `fired` fired from `cursor`.
pub open spec fn cursor_after(fired: Seq<(int, int)>, cursor: int) -> int {
    if fired.len() == 0 {
        cursor
    } else {
        fired.last().1
    }
}

/// The fired ranges lie inside the text at or after `lo`, each is a phrase,
/// and they come in order without overlapping.
pub open spec fn well_placed(words: Set<Seq<u8>>, text: Seq<u8>, fired: Seq<(int, int)>, lo: int) -> bool {
    &&& forall|k: int|
        0 <= k < fired.len() ==> lo <= (#[trigger] fired[k]).0 < fired[k].1 <= text.len()
            && words.contains(text.subrange(fired[k].0, fired[k].1))
    &&& forall|k: int| 0 <= k < fired.len() - 1 ==> (#[trigger] fired[k]).1 <= fired[k + 1].0
}

/// What a scan fires is well placed after the window start.
pub proof fn lemma_scan_bounds(words: Set<Seq<u8>>, text: Seq<u8>, start: int, end: int)
    requires
        start + 2 <= end,
    ensures
        well_placed(words, text, scan_from(words, text, start, end), start),
    decreases text.len() + 2 - end,
{
    let all = scan_from(words, text, start, end);
    if end > text.len() || start < 0 || start > end {
        assert(all.len() == 0);
    } else {
        let w = text.subrange(start, end);
        if prefix_count(words, w) == 0 {
            lemma_scan_bounds(words, text, end - 1, end + 1);
            assert(all == scan_from(words, text, end - 1, end + 1));
        } else if completes(words, w) {
            lemma_scan_bounds(words, text, end, end + 2);
            let rest = scan_from(words, text, end, end + 2);
            assert(all == seq![(start, end)] + rest);
            assert forall|k: int| 0 <= k < all.len() implies start <= (#[trigger] all[k]).0 < all[k].1
                <= text.len() && words.contains(text.subrange(all[k].0, all[k].1)) by {
                if k > 0 {
                    assert(all[k] == rest[k - 1]);
                }
            }
            assert forall|k: int| 0 <= k < all.len() - 1 implies (#[trigger] all[k]).1 <= all[k
                + 1].0 by {
                assert(all[k + 1] == rest[k]);
                if k > 0 {
                    assert(all[k] == rest[k - 1]);
                }
            }
        } else {
            lemma_scan_bounds(words, text, start, end + 1);
            assert(all == scan_from(words, text, start, end + 1));
        }
    }
}

/// Once a phrase has fired, what fires after it is what a fresh scan from
/// its end finds.
pub proof fn lemma_scan_resumes(words: Set<Seq<u8>>, text: Seq<u8>, start: int, end: int)
    requires
        start + 2 <= end,
        scan_from(words, text, start, end).len() > 0,
    ensures
        scan_from(words, text, start, end).drop_first() == fires(
            words,
            text,
            scan_from(words, text, start, end)[0].1,
        ),
    decreases text.len() + 2 - end,
{
    if end > text.len() || start < 0 || start > end {
    } else {
        let w = text.subrange(start, end);
        if prefix_count(words, w) == 0 {
            lemma_scan_resumes(words, text, end - 1, end + 1);
        } else if completes(words, w) {
            let rest = scan_from(words, text, end, end + 2);
            assert((seq![(start, end)] + rest).drop_first() =~= rest);
        } else {
            lemma_scan_resumes(words, text, start, end + 1);
        }
    }
}

/// A fresh scan from where a scan left its cursor fires nothing.
pub proof fn lemma_scan_exhausted(words: Set<Seq<u8>>, text: Seq<u8>, cursor: int)
    ensures
        fires(words, text, cursor_after(fires(words, text, cursor), cursor)).len() == 0,
    decreases text.len() + 2 - cursor,
{
    let f = fires(words, text, cursor);
    if f.len() > 0 {
        lemma_scan_resumes(words, text, cursor, cursor + 2);
        lemma_scan_bounds(words, text, cursor, cursor + 2);
        let next = f[0].1;
        assert(f[0] == scan_from(words, text, cursor, cursor + 2)[0]);
        assert(cursor < next);
        let rest = fires(words, text, next);
        if rest.len() > 0 {
            assert(rest.last() == f.last());
            lemma_scan_exhausted(words, text, next);
        } else {
            assert(f.len() == 1);
        }
    }
}

/// The window at which a scan of `text` runs out of text.
pub open spec fn exit_of(words: Set<Seq<u8>>, text: Seq<u8>, start: int, end: int) -> (int, int)
    decreases text.len() + 2 - end,
{
    if end > text.len() || start < 0 || start > end {
        (start, end)
    } else {
        let w = text.subrange(start, end);
        if prefix_count(words, w) == 0 {
            exit_of(words, text, end - 1, end + 1)
        } else if completes(words, w) {
            exit_of(words, text, end, end + 2)
        } else {
            exit_of(words, text, start, end + 1)
        }
    }
}

/// On a longer text the scan first does all it did on the shorter one, then
/// goes on from where that ran out of text.
pub proof fn lemma_scan_extends(words: Set<Seq<u8>>, text: Seq<u8>, longer: Seq<u8>, start: int, end: int)
    requires
        text.is_prefix_of(longer),
    ensures
        scan_from(words, longer, start, end) == scan_from(words, text, start, end) + ({
            let x = exit_of(words, text, start, end);
            scan_from(words, longer, x.0, x.1)
        }),
    decreases text.len() + 2 - end,
{
    if end > text.len() || start < 0 || start > end {
        assert(scan_from(words, text, start, end) =~= Seq::<(int, int)>::empty());
        assert(scan_from(words, longer, start, end) =~= Seq::<(int, int)>::empty()
            + scan_from(words, longer, start, end));
    } else {
        let w = text.subrange(start, end);
        assert(longer.subrange(start, end) =~= w);
        if prefix_count(words, w) == 0 {
            lemma_scan_extends(words, text, longer, end - 1, end + 1);
        } else if completes(words, w) {
            lemma_scan_extends(words, text, longer, end, end + 2);
            let x = exit_of(words, text, end, end + 2);
            assert(seq![(start, end)] + (scan_from(words, text, end, end + 2) + scan_from(
                words,
                longer,
                x.0,
                x.1,
            )) =~= (seq![(start, end)] + scan_from(words, text, end, end + 2)) + scan_from(
                words,
                longer,
                x.0,
                x.1,
            ));
        } else {
            lemma_scan_extends(words, text, longer, start, end + 1);
        }
    }
}

/// A scan runs out of text where a fresh scan from the end of its last
/// phrase runs out.
pub proof fn lemma_exit_resumes(words: Set<Seq<u8>>, text: Seq<u8>, start: int, end: int)
    requires
        start + 2 <= end,
        scan_from(words, text, start, end).len() > 0,
    ensures
        exit_of(words, text, start, end) == ({
            let e = scan_from(words, text, start, end).last().1;
            exit_of(words, text, e, e + 2)
        }),
    decreases text.len() + 2 - end,
{
    if end > text.len() || start < 0 || start > end {
    } else {
        let w = text.subrange(start, end);
        if prefix_count(words, w) == 0 {
            lemma_exit_resumes(words, text, end - 1, end + 1);
        } else if completes(words, w) {
            let rest = scan_from(words, text, end, end + 2);
            if rest.len() > 0 {
                lemma_exit_resumes(words, text, end, end + 2);
                assert((seq![(start, end)] + rest).last() == rest.last());
            }
        } else {
            lemma_exit_resumes(words, text, start, end + 1);
        }
    }
}

/// Feeding a growing transcript: what fires on the longer text from the
/// cursor is what fired on the shorter one, then what fires from where the
/// cursor was left. So each phrase fires once, at the first transcript that
/// holds it whole, whatever the steps the transcript grew by.
pub proof fn lemma_growing_transcript(words: Set<Seq<u8>>, text: Seq<u8>, longer: Seq<u8>, cursor: int)
    requires
        text.is_prefix_of(longer),
    ensures
        fires(words, longer, cursor) == fires(words, text, cursor) + fires(
            words,
            longer,
            cursor_after(fires(words, text, cursor), cursor),
        ),
{
    let f = fires(words, text, cursor);
    lemma_scan_extends(words, text, longer, cursor, cursor + 2);
    if f.len() == 0 {
        assert(f + fires(words, longer, cursor) =~= fires(words, longer, cursor));
    } else {
        let e = f.last().1;
        lemma_exit_resumes(words, text, cursor, cursor + 2);
        lemma_scan_exhausted(words, text, cursor);
        lemma_scan_extends(words, text, longer, e, e + 2);
        assert(fires(words, text, e) =~= Seq::<(int, int)>::empty());
        assert(fires(words, longer, e) =~= Seq::<(int, int)>::empty() + fires(words, longer, e));
    }
}

/// Finds the first phrase that fires when the scan starts afresh at `cursor`.
pub fn next_match(t: &trie_rs::Trie<u8>, text: &[u8], cursor: usize) -> (r: Option<(usize, usize)>)
    requires
        trie_words(*t).finite(),
    ensures
        match r {
            None => fires(trie_words(*t), text@, cursor as int).len() == 0,
            Some((s, e)) => {
                &&& fires(trie_words(*t), text@, cursor as int).len() > 0
                &&& fires(trie_words(*t), text@, cursor as int)[0] == (s as int, e as int)
                &&& cursor <= s < e <= text@.len()
            },
        },
{
    let ghost words = trie_words(*t);
    let len = text.len();
    if cursor > len || len - cursor < 2 {
        return None;
    }
    let mut start = cursor;
    let mut end = cursor + 2;
    while end <= len
        invariant
            len == text@.len(),
            cursor <= start <= end,
            end <= len + 1,
            end >= start + 2,
            words == trie_words(*t),
            words.finite(),
            fires(words, text@, cursor as int) == scan_from(words, text@, start as int, end as int),
        decreases len + 1 - end,
    {
        let w = &text[start..end];
        let n = count_with_prefix(t, w);
        if n == 0 {
            if end == len {
                assert(scan_from(words, text@, end - 1, end + 1).len() == 0);
                return None;
            }
            start = end - 1;
            end = end + 1;
        } else if n == 1 && holds_word(t, w) {
            assert(scan_from(words, text@, start as int, end as int)[0] == (start as int, end as int));
            return Some((start, end));
        } else {
            if end == len {
                assert(scan_from(words, text@, start as int, end + 1).len() == 0);
                return None;
            }
            end = end + 1;
        }
    }
    None
}

} // verus!
