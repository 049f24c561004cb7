//! Trusted boundary to the `spellcheck` crate's `Speller`, the external
//! dictionary capability: the core only asks it whether a word is known.
use vstd::prelude::*;

verus! {

#[verifier::external_type_specification]
#[verifier::external_body]
pub struct ExSpeller(spellcheck::Speller);

/// The set of words that a speller's dictionary recognizes.
pub uninterp spec fn dict_words(s: spellcheck::Speller) -> Set<Seq<char>>;

/// Relies on `HashMap::contains_key` over the speller's public word-frequency
/// table `n_words`: a word is recognized exactly when it is a key of that
/// table.
#[verifier::external_body]
pub(crate) fn dict_contains(s: &spellcheck::Speller, w: &str) -> (r: bool)
    ensures
        r == dict_words(*s).contains(w@),
{
    s.n_words.contains_key(w)
}

} // verus!
