//! Prefix-searchable phrase sets, backed by `trie_rs`.
use vstd::prelude::*;

verus! {

#[verifier::external_type_specification]
#[verifier::external_body]
#[verifier::reject_recursive_types(Label)]
pub struct ExTrie<Label>(trie_rs::Trie<Label>);

#[verifier::external_type_specification]
#[verifier::external_body]
#[verifier::reject_recursive_types(Label)]
pub struct ExTrieBuilder<Label>(trie_rs::TrieBuilder<Label>);

/// The byte strings held by a built trie.
pub uninterp spec fn trie_words(t: trie_rs::Trie<u8>) -> Set<Seq<u8>>;

/// The byte strings pushed into a trie builder so far.
pub uninterp spec fn builder_words(b: trie_rs::TrieBuilder<u8>) -> Set<Seq<u8>>;

/// How many words of `words` start with `query`.
pub open spec fn prefix_count(words: Set<Seq<u8>>, query: Seq<u8>) -> int {
    words.filter(|w: Seq<u8>| query.is_prefix_of(w)).len() as int
}

/// Relies on `TrieBuilder::new`: a fresh builder holds no word.
#[verifier::external_body]
pub(crate) fn new_builder() -> (b: trie_rs::TrieBuilder<u8>)
    ensures
        builder_words(b) == Set::<Seq<u8>>::empty(),
{
    trie_rs::TrieBuilder::new()
}

/// Relies on `TrieBuilder::push`: the word joins the set of pushed words
/// (pushing it again changes nothing). The builder panics on an empty word.
#[verifier::external_body]
pub(crate) fn push_word(b: &mut trie_rs::TrieBuilder<u8>, word: &[u8])
    requires
        word@.len() > 0,
    ensures
        builder_words(*final(b)) == builder_words(*old(b)).insert(word@),
{
    b.push(word)
}

/// Relies on `TrieBuilder::build`: the trie holds exactly the pushed words.
#[verifier::external_body]
pub(crate) fn build_trie(b: trie_rs::TrieBuilder<u8>) -> (t: trie_rs::Trie<u8>)
    ensures
        trie_words(t) == builder_words(b),
{
    b.build()
}

/// Relies on `Trie::predictive_search`: it yields each held word that starts
/// with `query` once; the count of what it yields is returned.
#[verifier::external_body]
pub(crate) fn count_with_prefix(t: &trie_rs::Trie<u8>, query: &[u8]) -> (r: usize)
    requires
        query@.len() > 0,
        trie_words(*t).finite(),
    ensures
        r as int == prefix_count(trie_words(*t), query@),
{
    t.predictive_search::<Vec<u8>, _>(query).count()
}

/// Relies on `Trie::exact_match`: whether `query` is one of the held words.
#[verifier::external_body]
pub(crate) fn holds_word(t: &trie_rs::Trie<u8>, query: &[u8]) -> (r: bool)
    requires
        query@.len() > 0,
    ensures
        r == trie_words(*t).contains(query@),
{
    t.exact_match(query)
}

} // verus!
