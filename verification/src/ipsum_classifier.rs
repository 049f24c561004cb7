//! The strict classification policy: corpus membership dominates, then
//! whole-word dictionary recognition, then the best-substring rule, where a
//! corpus-member root again dominates the coverage-ratio test.
use vstd::prelude::*;
use vstd::string::*;

use crate::dolor::corpus_contains;
use crate::dolor::corpus_set;
use crate::ipsum::best_candidate;
use crate::ipsum::best_pair;
use crate::ipsum::has_candidate;
use crate::ipsum::lemma_best_pair_is;
use crate::ipsum::Classification;
use crate::ipsum::IpsumStatus;
use crate::speller::dict_contains;
use crate::speller::dict_words;
use crate::text::lower_seq;
use crate::text::to_lower;

verus! {

/// The strict classification policy, for a single word already case-folded:
/// a corpus member is filler outright; otherwise a dictionary-recognized
/// word is genuine; otherwise the best dictionary-recognized substring
/// decides — none at all means genuine, a corpus-member root means filler
/// regardless of coverage, and otherwise at least 7/10 coverage yields
/// `Partial` while less is filler. The empty word is defined to be genuine.
pub open spec fn classify_full_spec(
    corpus: Set<Seq<char>>,
    dict: Set<Seq<char>>,
    w: Seq<char>,
) -> Classification {
    if w.len() == 0 {
        Classification::NotLorem
    } else if corpus.contains(w) {
        Classification::FullyIpsum
    } else if dict.contains(w) {
        Classification::NotLorem
    } else if !has_candidate(dict, w) {
        Classification::NotLorem
    } else {
        let pr = best_pair(dict, w);
        if corpus.contains(w.subrange(pr.0, pr.1)) {
            Classification::FullyIpsum
        } else if 10 * (pr.1 - pr.0) >= 7 * w.len() {
            Classification::Partial { valid: w.subrange(pr.0, pr.1), start: pr.0, end: pr.1 }
        } else {
            Classification::FullyIpsum
        }
    }
}

/// Classifies a word with the strict policy against the static corpus and
/// the speller's dictionary. Matching is case-insensitive; the reported
/// substring and span refer to the case-folded word.
pub fn classify_word(speller: &spellcheck::Speller, word: &str) -> (r: IpsumStatus)
    ensures
        r@ == classify_full_spec(corpus_set(), dict_words(*speller), lower_seq(word@)),
{
    let ghost dict = dict_words(*speller);
    let lower = to_lower(word);
    let n = lower.as_str().unicode_len();
    if n == 0 {
        return IpsumStatus::NotLorem;
    }
    if corpus_contains(lower.as_str()) {
        return IpsumStatus::FullyIpsum;
    }
    if dict_contains(speller, lower.as_str()) {
        return IpsumStatus::NotLorem;
    }
    match best_candidate(speller, lower.as_str()) {
        Option::None => IpsumStatus::NotLorem,
        Option::Some(t) => {
            let (v, bi, bj) = t;
            proof {
                lemma_best_pair_is(dict, lower@, bi as int, bj as int);
            }
            if corpus_contains(v.as_str()) {
                IpsumStatus::FullyIpsum
            } else if 10u128 * ((bj - bi) as u128) >= 7u128 * (n as u128) {
                IpsumStatus::Partial { valid: v, range: bi..bj }
            } else {
                IpsumStatus::FullyIpsum
            }
        },
    }
}

} // verus!
