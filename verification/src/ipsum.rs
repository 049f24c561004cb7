//! Word classification against the external dictionary: the substring
//! search engine shared by both classification policies, the reduced
//! (dictionary-only) policy, text scanning, and filler removal.
use core::ops::Range;
use vstd::prelude::*;
use vstd::string::*;

use crate::speller::dict_contains;
use crate::speller::dict_words;
use crate::text::join_words;
use crate::text::lower_seq;
use crate::text::split_with_ranges;
use crate::text::split_words;
use crate::text::join_strings;
use crate::text::to_lower;
use crate::text::token_ranges;
use crate::text::words_of;

verus! {

/// The mathematical value of a classification result. Spans are character
/// offsets into the case-folded word.
pub enum Classification {
    NotLorem,
    FullyIpsum,
    Partial { valid: Seq<char>, start: int, end: int },
}

/// Classification of one word: genuine content, pure filler, or a word with
/// a recognized substring at `range` (character offsets into the case-folded
/// word).
#[derive(Debug, PartialEq)]
pub enum IpsumStatus {
    /// Not Ipsum or Lorem: the word is genuine content.
    NotLorem,
    /// The word is entirely filler.
    FullyIpsum,
    /// A recognized substring was found inside the word.
    Partial { valid: String, range: Range<usize> },
}

impl View for IpsumStatus {
    type V = Classification;

    open spec fn view(&self) -> Classification {
        match self {
            IpsumStatus::NotLorem => Classification::NotLorem,
            IpsumStatus::FullyIpsum => Classification::FullyIpsum,
            IpsumStatus::Partial { valid, range } => Classification::Partial {
                valid: valid@,
                start: range.start as int,
                end: range.end as int,
            },
        }
    }
}

/// Whether `[i, j)` spans a dictionary-recognized substring of `w`.
pub open spec fn is_candidate(dict: Set<Seq<char>>, w: Seq<char>, i: int, j: int) -> bool {
    0 <= i < j <= w.len() && dict.contains(w.subrange(i, j))
}

pub open spec fn has_candidate(dict: Set<Seq<char>>, w: Seq<char>) -> bool {
    exists|i: int, j: int| is_candidate(dict, w, i, j)
}

/// The best recognized substring: strictly longest, and on equal length the
/// one found first when start positions are enumerated in increasing order
/// (end positions likewise, which equal length makes immaterial).
pub open spec fn is_best_candidate(dict: Set<Seq<char>>, w: Seq<char>, i: int, j: int) -> bool {
    &&& is_candidate(dict, w, i, j)
    &&& forall|p: int, q: int| #[trigger] is_candidate(dict, w, p, q) ==> (q - p < j - i || (q - p
        == j - i && i <= p))
}

/// The span of the best recognized substring, where one exists.
pub open spec fn best_pair(dict: Set<Seq<char>>, w: Seq<char>) -> (int, int) {
    choose|i: int, j: int| is_best_candidate(dict, w, i, j)
}

/// At most one span is best: tie-breaking pins both endpoints down.
pub proof fn lemma_best_candidate_unique(
    dict: Set<Seq<char>>,
    w: Seq<char>,
    i1: int,
    j1: int,
    i2: int,
    j2: int,
)
    requires
        is_best_candidate(dict, w, i1, j1),
        is_best_candidate(dict, w, i2, j2),
    ensures
        i1 == i2,
        j1 == j2,
{
    assert(is_candidate(dict, w, i1, j1));
    assert(is_candidate(dict, w, i2, j2));
}

/// `best_pair` returns exactly the span that `is_best_candidate` accepts.
pub proof fn lemma_best_pair_is(dict: Set<Seq<char>>, w: Seq<char>, i: int, j: int)
    requires
        is_best_candidate(dict, w, i, j),
    ensures
        best_pair(dict, w).0 == i,
        best_pair(dict, w).1 == j,
{
    let (ci, cj): (int, int) = best_pair(dict, w);
    assert(is_best_candidate(dict, w, ci, cj));
    lemma_best_candidate_unique(dict, w, ci, cj, i, j);
}

/// The reduced classification policy, used by full-text scanning and
/// removal: it consults the dictionary only. A word the dictionary
/// recognizes whole is genuine; otherwise the best recognized substring must
/// cover at least 7/10 of the word to count as `Partial`; a word with no
/// recognized substring at all is filler. The empty word is defined to be
/// genuine.
pub open spec fn classify_reduced_spec(dict: Set<Seq<char>>, w: Seq<char>) -> Classification {
    if w.len() == 0 {
        Classification::NotLorem
    } else if dict.contains(w) {
        Classification::NotLorem
    } else if !has_candidate(dict, w) {
        Classification::FullyIpsum
    } else {
        let pr = best_pair(dict, w);
        if 10 * (pr.1 - pr.0) >= 7 * w.len() {
            Classification::Partial { valid: w.subrange(pr.0, pr.1), start: pr.0, end: pr.1 }
        } else {
            Classification::FullyIpsum
        }
    }
}

/// Pairs enumerated strictly before the pair `(ci, cj)`, in increasing-start
/// then increasing-end order.
spec fn considered(ci: int, cj: int, p: int, q: int) -> bool {
    p < ci || (p == ci && q < cj)
}

/// The running state of the substring search: `b` is the best candidate
/// among the pairs enumerated before `(ci, cj)`, or `None` if none of them
/// is a candidate.
spec fn best_inv(
    dict: Set<Seq<char>>,
    s: Seq<char>,
    b: Option<(String, usize, usize)>,
    ci: int,
    cj: int,
) -> bool {
    match b {
        Option::None => forall|p: int, q: int| #[trigger] is_candidate(dict, s, p, q)
            ==> !considered(ci, cj, p, q),
        Option::Some(t) => {
            let bi = t.1 as int;
            let bj = t.2 as int;
            &&& is_candidate(dict, s, bi, bj)
            &&& considered(ci, cj, bi, bj)
            &&& t.0@ == s.subrange(bi, bj)
            &&& forall|p: int, q: int| #[trigger] is_candidate(dict, s, p, q) && considered(
                ci,
                cj,
                p,
                q,
            ) ==> (q - p < bj - bi || (q - p == bj - bi && bi <= p))
        },
    }
}

/// Searches every contiguous substring of `lower` (starts increasing, ends
/// increasing) for dictionary members and returns the best one with its
/// span, or `None` when no substring is recognized.
pub(crate) fn best_candidate(speller: &spellcheck::Speller, lower: &str) -> (r: Option<(String, usize, usize)>)
    ensures
        r is None ==> !has_candidate(dict_words(*speller), lower@),
        r matches Some(t) ==> is_best_candidate(
            dict_words(*speller),
            lower@,
            t.1 as int,
            t.2 as int,
        ) && t.0@ == lower@.subrange(t.1 as int, t.2 as int),
{
    let ghost dict = dict_words(*speller);
    let ghost s = lower@;
    let n = lower.unicode_len();
    let mut best: Option<(String, usize, usize)> = None;
    let mut i: usize = 0;
    while i < n
        invariant
            s == lower@,
            dict == dict_words(*speller),
            n == s.len(),
            0 <= i <= n,
            best_inv(dict, s, best, i as int, i as int + 1),
        decreases n - i,
    {
        let mut j = i;
        while j < n
            invariant
                s == lower@,
                dict == dict_words(*speller),
                n == s.len(),
                0 <= i <= j <= n,
                i < n,
                best_inv(dict, s, best, i as int, j as int + 1),
            decreases n - j,
        {
            let end = j + 1;
            let sub = lower.substring_char(i, end);
            if dict_contains(speller, sub) {
                assert(is_candidate(dict, s, i as int, end as int));
                let take = match &best {
                    Option::None => true,
                    Option::Some(t) => end - i > t.2 - t.1,
                };
                if take {
                    best = Some((sub.to_owned(), i, end));
                }
            }
            j = end;
        }
        i = i + 1;
        proof {
            assert forall|p: int, q: int|
                is_candidate(dict, s, p, q) && considered(i as int, i as int + 1, p, q) implies
                considered(i as int - 1, n as int + 1, p, q) by {}
        }
    }
    proof {
        if best is Some {
            assert forall|p: int, q: int| #[trigger] is_candidate(dict, s, p, q) implies considered(
                i as int,
                i as int + 1,
                p,
                q,
            ) by {}
        } else {
            if has_candidate(dict, s) {
                let (p, q) = choose|p: int, q: int| is_candidate(dict, s, p, q);
                assert(considered(i as int, i as int + 1, p, q));
            }
        }
    }
    best
}

/// Classifies a word with the reduced, dictionary-only policy: whole-word
/// recognition means genuine content; otherwise the best recognized
/// substring decides between `Partial` (at least 7/10 coverage) and
/// `FullyIpsum`. Matching is case-insensitive; the reported substring and
/// span refer to the case-folded word.
pub fn classify_word_with_speller(speller: &spellcheck::Speller, word: &str) -> (r: IpsumStatus)
    ensures
        r@ == classify_reduced_spec(dict_words(*speller), lower_seq(word@)),
{
    let ghost dict = dict_words(*speller);
    let lower = to_lower(word);
    let n = lower.as_str().unicode_len();
    if n == 0 {
        return IpsumStatus::NotLorem;
    }
    if dict_contains(speller, lower.as_str()) {
        return IpsumStatus::NotLorem;
    }
    match best_candidate(speller, lower.as_str()) {
        Option::None => IpsumStatus::FullyIpsum,
        Option::Some(t) => {
            let (v, bi, bj) = t;
            proof {
                lemma_best_pair_is(dict, lower@, bi as int, bj as int);
            }
            if 10u128 * ((bj - bi) as u128) >= 7u128 * (n as u128) {
                IpsumStatus::Partial { valid: v, range: bi..bj }
            } else {
                IpsumStatus::FullyIpsum
            }
        },
    }
}

/// Scans a text: splits it into whitespace-delimited words, records each
/// word's character span in the original text, and classifies each word with
/// the reduced policy.
pub fn scan_text(speller: &spellcheck::Speller, text: &str) -> (r: Vec<(Range<usize>, IpsumStatus)>)
    ensures
        r@.len() == words_of(text@).len(),
        forall|k: int| 0 <= k < r@.len() ==> {
            let span = token_ranges(text@)[k];
            &&& (#[trigger] r@[k]).0.start == span.0
            &&& r@[k].0.end == span.1
            &&& r@[k].1@ == classify_reduced_spec(
                dict_words(*speller),
                lower_seq(words_of(text@)[k]),
            )
        },
{
    let ghost dict = dict_words(*speller);
    let (words, ranges) = split_with_ranges(text);
    proof {
        assert(words.deep_view().len() == words@.len());
        assert(words_of(text@).len() == token_ranges(text@).len());
    }
    let mut out: Vec<(Range<usize>, IpsumStatus)> = Vec::new();
    let mut k: usize = 0;
    while k < words.len()
        invariant
            dict == dict_words(*speller),
            words@.len() == ranges@.len(),
            words.deep_view() == words_of(text@),
            forall|p: int| 0 <= p < ranges@.len() ==> #[trigger] ranges@[p].0 == token_ranges(
                text@,
            )[p].0 && ranges@[p].1 == token_ranges(text@)[p].1,
            0 <= k <= words@.len(),
            out@.len() == k,
            forall|p: int| 0 <= p < k ==> {
                let span = token_ranges(text@)[p];
                &&& (#[trigger] out@[p]).0.start == span.0
                &&& out@[p].0.end == span.1
                &&& out@[p].1@ == classify_reduced_spec(dict, lower_seq(words_of(text@)[p]))
            },
        decreases words@.len() - k,
    {
        let status = classify_word_with_speller(speller, words[k].as_str());
        let (start, end) = ranges[k];
        proof {
            assert(words.deep_view()[k as int] == words@[k as int]@);
        }
        out.push((start..end, status));
        k = k + 1;
    }
    out
}

/// Whether the reduced policy keeps a word as genuine content.
pub open spec fn is_kept(dict: Set<Seq<char>>, w: Seq<char>) -> bool {
    classify_reduced_spec(dict, lower_seq(w)) == Classification::NotLorem
}

/// The words of `ws` that the reduced policy keeps, in order.
pub open spec fn kept_words(dict: Set<Seq<char>>, ws: Seq<Seq<char>>) -> Seq<Seq<char>>
    decreases ws.len(),
{
    if ws.len() == 0 {
        Seq::empty()
    } else {
        let rest = kept_words(dict, ws.drop_last());
        if is_kept(dict, ws.last()) {
            rest.push(ws.last())
        } else {
            rest
        }
    }
}

/// Removes the words the reduced policy marks as filler, and joins the kept
/// words with single spaces.
pub fn remove_ipsum(speller: &spellcheck::Speller, text: &str) -> (r: String)
    ensures
        r@ == join_words(kept_words(dict_words(*speller), words_of(text@))),
{
    let ghost dict = dict_words(*speller);
    let words = split_words(text);
    let mut kept: Vec<String> = Vec::new();
    let mut k: usize = 0;
    while k < words.len()
        invariant
            dict == dict_words(*speller),
            words.deep_view() == words_of(text@),
            0 <= k <= words@.len(),
            kept.deep_view() == kept_words(dict, words.deep_view().subrange(0, k as int)),
        decreases words@.len() - k,
    {
        let status = classify_word_with_speller(speller, words[k].as_str());
        proof {
            assert(words.deep_view()[k as int] == words@[k as int]@);
            let dv = words.deep_view();
            assert(dv.subrange(0, (k + 1) as int).drop_last() =~= dv.subrange(0, k as int));
            assert(dv.subrange(0, (k + 1) as int).last() == dv[k as int]);
        }
        let keep = match &status {
            IpsumStatus::NotLorem => true,
            _ => false,
        };
        if keep {
            let ghost kept_dv = kept.deep_view();
            kept.push(words[k].clone());
            proof {
                assert(kept.deep_view() =~= kept_dv.push(words.deep_view()[k as int]));
            }
        }
        k = k + 1;
    }
    proof {
        assert(words.deep_view().subrange(0, words@.len() as int) =~= words.deep_view());
    }
    join_strings(&kept)
}

/// Appends the fixed placeholder phrase; an empty text becomes the phrase
/// itself. This is deliberately not an inverse of `remove_ipsum`.
pub fn add_ipsum(text: &str) -> (r: String)
    ensures
        text@.len() == 0 ==> r@ == "lorem ipsum"@,
        text@.len() != 0 ==> r@ == text@ + " "@ + "lorem ipsum"@,
{
    if text.is_empty() {
        "lorem ipsum".to_owned()
    } else {
        let mut s = text.to_owned();
        s.append(" ");
        s.append("lorem ipsum");
        s
    }
}

} // verus!
