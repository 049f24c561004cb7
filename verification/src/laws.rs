//! The library's stated laws, proved over the classification and removal
//! specifications.
use vstd::prelude::*;

use crate::dolor::corpus_set;
use crate::ipsum::best_pair;
use crate::ipsum::classify_reduced_spec;
use crate::ipsum::has_candidate;
use crate::ipsum::is_best_candidate;
use crate::ipsum::is_candidate;
use crate::ipsum::kept_words;
use crate::ipsum::Classification;
use crate::ipsum_classifier::classify_full_spec;
use crate::text::join_words;
use crate::text::lemma_token_ranges_from_wf;
use crate::text::lower_seq;
use crate::text::token_ranges;
use crate::text::words_of;

verus! {

/// Every non-empty corpus word is classified `FullyIpsum` by the strict
/// policy, whatever the dictionary holds.
pub proof fn lemma_corpus_word_fully_ipsum(
    corpus: Set<Seq<char>>,
    dict: Set<Seq<char>>,
    w: Seq<char>,
)
    requires
        corpus.contains(w),
        w.len() > 0,
    ensures
        classify_full_spec(corpus, dict, w) == Classification::FullyIpsum,
{
}

/// Every non-empty word the dictionary recognizes that is not a corpus
/// member is classified `NotLorem` by the strict policy.
pub proof fn lemma_dictionary_word_not_lorem(
    corpus: Set<Seq<char>>,
    dict: Set<Seq<char>>,
    w: Seq<char>,
)
    requires
        dict.contains(w),
        !corpus.contains(w),
        w.len() > 0,
    ensures
        classify_full_spec(corpus, dict, w) == Classification::NotLorem,
{
}

/// Wherever some recognized substring exists, a best one exists.
proof fn lemma_exists_best(dict: Set<Seq<char>>, w: Seq<char>, i: int, j: int)
    requires
        is_candidate(dict, w, i, j),
    ensures
        exists|p: int, q: int| is_best_candidate(dict, w, p, q),
    decreases w.len() - (j - i), i,
{
    if is_best_candidate(dict, w, i, j) {
    } else {
        let (p, q) = choose|p: int, q: int|
            is_candidate(dict, w, p, q) && !(q - p < j - i || (q - p == j - i && i <= p));
        lemma_exists_best(dict, w, p, q);
    }
}

/// A `Partial` result of the strict policy names a genuine sub-span: a
/// non-empty strict sub-span of the word covering at least 7/10 of it,
/// whose text is exactly that span of the word and is itself no corpus
/// member.
pub proof fn lemma_partial_shape(
    corpus: Set<Seq<char>>,
    dict: Set<Seq<char>>,
    w: Seq<char>,
    v: Seq<char>,
    s: int,
    e: int,
)
    requires
        classify_full_spec(corpus, dict, w) == (Classification::Partial { valid: v, start: s, end: e }),
    ensures
        0 <= s < e <= w.len(),
        e - s < w.len(),
        v == w.subrange(s, e),
        v.len() == e - s,
        !corpus.contains(v),
        10 * (e - s) >= 7 * w.len(),
{
    assert(has_candidate(dict, w));
    let (ci, cj) = choose|ci: int, cj: int| is_candidate(dict, w, ci, cj);
    lemma_exists_best(dict, w, ci, cj);
    let pr = best_pair(dict, w);
    assert(is_best_candidate(dict, w, pr.0, pr.1));
    assert(!dict.contains(w));
    if e - s == w.len() {
        assert(w.subrange(0, w.len() as int) =~= w);
        assert(is_candidate(dict, w, s, e));
        assert(false);
    }
}

/// Word-list form of `lemma_remove_all_filler`.
proof fn remove_all_filler_words(dict: Set<Seq<char>>, ws: Seq<Seq<char>>)
    requires
        forall|k: int| 0 <= k < ws.len() ==> corpus_set().contains(lower_seq(#[trigger] ws[k])),
        forall|k: int| 0 <= k < ws.len() ==> !dict.contains(lower_seq(#[trigger] ws[k])),
        forall|k: int| 0 <= k < ws.len() ==> (#[trigger] ws[k]).len() > 0,
    ensures
        join_words(kept_words(dict, ws)) == Seq::<char>::empty(),
    decreases ws.len(),
{
    if ws.len() > 0 {
        assert(ws.last() == ws[ws.len() - 1]);
        assert(lower_seq(ws.last()).len() == ws.last().len());
        assert(classify_reduced_spec(dict, lower_seq(ws.last())) != Classification::NotLorem);
        assert(forall|k: int| 0 <= k < ws.drop_last().len() ==> #[trigger] ws.drop_last()[k]
            == ws[k]);
        remove_all_filler_words(dict, ws.drop_last());
        assert(kept_words(dict, ws) == kept_words(dict, ws.drop_last()));
    }
}

/// Filler removal on a text made entirely of corpus words, none of which
/// the dictionary recognizes, yields the empty string. (A corpus word that
/// the dictionary also recognizes as genuine is kept instead: the reduced
/// policy consults the dictionary alone.)
pub proof fn lemma_remove_all_filler(dict: Set<Seq<char>>, text: Seq<char>)
    requires
        forall|k: int| 0 <= k < words_of(text).len() ==> corpus_set().contains(
            lower_seq(#[trigger] words_of(text)[k]),
        ),
        forall|k: int| 0 <= k < words_of(text).len() ==> !dict.contains(
            lower_seq(#[trigger] words_of(text)[k]),
        ),
    ensures
        join_words(kept_words(dict, words_of(text))) == Seq::<char>::empty(),
{
    lemma_token_ranges_from_wf(text, 0);
    assert forall|k: int| 0 <= k < words_of(text).len() implies (#[trigger] words_of(
        text,
    )[k]).len() > 0 by {
        let tr = token_ranges(text)[k];
        assert(words_of(text)[k] == text.subrange(tr.0, tr.1));
    }
    remove_all_filler_words(dict, words_of(text));
}

/// Word-list form of `lemma_remove_keeps_genuine`.
proof fn keeps_genuine_words(dict: Set<Seq<char>>, ws: Seq<Seq<char>>)
    requires
        forall|k: int| 0 <= k < ws.len() ==> dict.contains(lower_seq(#[trigger] ws[k])),
    ensures
        kept_words(dict, ws) == ws,
    decreases ws.len(),
{
    if ws.len() > 0 {
        assert(ws.last() == ws[ws.len() - 1]);
        assert(classify_reduced_spec(dict, lower_seq(ws.last())) == Classification::NotLorem);
        assert(forall|k: int| 0 <= k < ws.drop_last().len() ==> #[trigger] ws.drop_last()[k]
            == ws[k]);
        keeps_genuine_words(dict, ws.drop_last());
        assert(kept_words(dict, ws) =~= ws.drop_last().push(ws.last()));
        assert(ws.drop_last().push(ws.last()) =~= ws);
    }
}

/// Filler removal on a text in which the dictionary recognizes every word
/// keeps every word: the result is the text itself, normalized to single
/// spaces between words.
pub proof fn lemma_remove_keeps_genuine(dict: Set<Seq<char>>, text: Seq<char>)
    requires
        forall|k: int| 0 <= k < words_of(text).len() ==> dict.contains(
            lower_seq(#[trigger] words_of(text)[k]),
        ),
    ensures
        kept_words(dict, words_of(text)) == words_of(text),
{
    keeps_genuine_words(dict, words_of(text));
}

} // verus!
