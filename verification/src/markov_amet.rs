//! A Lorem-Ipsum-like generator and detector: a bigram Markov model built
//! from seed text, weighted random walks over it, and a Jaccard-overlap
//! similarity test between word sets.
use vstd::prelude::*;
use vstd::string::*;

use crate::sampler::draw_below;
use crate::text::join_strings;
use crate::text::join_words;
use crate::text::lower_seq;
use crate::text::split_words;
use crate::text::to_lower;
use crate::text::words_of;

verus! {

/// One key of the model with its successor list; duplicated successors
/// encode empirical transition frequency as sampling weight.
pub struct ChainEntry {
    pub key: String,
    pub succs: Vec<String>,
}

/// A bigram transition model: each case-folded word maps to the words seen
/// after it in the seed text, keys held in order of first appearance.
pub struct MarkovChain {
    pub entries: Vec<ChainEntry>,
}

impl View for MarkovChain {
    type V = Seq<(Seq<char>, Seq<Seq<char>>)>;

    open spec fn view(&self) -> Seq<(Seq<char>, Seq<Seq<char>>)> {
        self.entries@.map_values(|e: ChainEntry| (e.key@, e.succs.deep_view()))
    }
}

pub open spec fn model_has_key(m: Seq<(Seq<char>, Seq<Seq<char>>)>, k: Seq<char>) -> bool {
    exists|i: int| 0 <= i < m.len() && (#[trigger] m[i]).0 == k
}

pub open spec fn model_key_index(m: Seq<(Seq<char>, Seq<Seq<char>>)>, k: Seq<char>) -> int {
    choose|i: int| 0 <= i < m.len() && (#[trigger] m[i]).0 == k
}

pub open spec fn model_succs(m: Seq<(Seq<char>, Seq<Seq<char>>)>, k: Seq<char>) -> Seq<Seq<char>> {
    m[model_key_index(m, k)].1
}

/// The model records `w` as a possible successor of the key `k`.
pub open spec fn model_has_edge(
    m: Seq<(Seq<char>, Seq<Seq<char>>)>,
    k: Seq<char>,
    w: Seq<char>,
) -> bool {
    model_has_key(m, k) && model_succs(m, k).contains(w)
}

/// Well-formedness of a model: keys are distinct, case-folded, and each has
/// at least one successor.
pub open spec fn model_wf(m: Seq<(Seq<char>, Seq<Seq<char>>)>) -> bool {
    &&& forall|i: int, j: int| 0 <= i < j < m.len() ==> (#[trigger] m[i]).0 != (#[trigger] m[j]).0
    &&& forall|i: int| 0 <= i < m.len() ==> (#[trigger] m[i]).1.len() > 0
    &&& forall|i: int| 0 <= i < m.len() ==> lower_seq((#[trigger] m[i]).0) == m[i].0
}

/// The model after recording one `key -> succ` transition: the successor is
/// appended to the key's list, or a fresh key is appended at the end.
pub open spec fn chain_add(
    m: Seq<(Seq<char>, Seq<Seq<char>>)>,
    key: Seq<char>,
    succ: Seq<char>,
) -> Seq<(Seq<char>, Seq<Seq<char>>)> {
    if model_has_key(m, key) {
        let i = model_key_index(m, key);
        m.update(i, (key, m[i].1.push(succ)))
    } else {
        m.push((key, seq![succ]))
    }
}

/// The model built from the first `n` adjacent pairs of `ws`.
pub open spec fn chain_model_upto(ws: Seq<Seq<char>>, n: int) -> Seq<(Seq<char>, Seq<Seq<char>>)>
    decreases n,
{
    if n <= 0 {
        Seq::empty()
    } else {
        chain_add(chain_model_upto(ws, n - 1), lower_seq(ws[n - 1]), ws[n])
    }
}

/// The model of a word sequence: every adjacent pair `(w1, w2)` records one
/// transition from the case-folded `w1` to `w2`.
pub open spec fn chain_model(ws: Seq<Seq<char>>) -> Seq<(Seq<char>, Seq<Seq<char>>)> {
    chain_model_upto(ws, ws.len() - 1)
}

/// A model has a key exactly when the seed had at least one adjacent pair.
pub proof fn lemma_chain_model_upto_nonempty(ws: Seq<Seq<char>>, n: int)
    requires
        n >= 1,
    ensures
        chain_model_upto(ws, n).len() >= 1,
    decreases n,
{
    if n > 1 {
        lemma_chain_model_upto_nonempty(ws, n - 1);
        let m = chain_model_upto(ws, n - 1);
        assert(chain_add(m, lower_seq(ws[n - 1]), ws[n]).len() >= m.len());
    }
}

impl MarkovChain {
    pub open spec fn wf(self) -> bool {
        model_wf(self@)
    }

    /// Linear scan for a key.
    fn find_key(&self, key: &String) -> (r: Option<usize>)
        ensures
            r matches Some(idx) ==> 0 <= idx < self@.len() && self@[idx as int].0 == key@,
            r is None ==> !model_has_key(self@, key@),
    {
        let mut k: usize = 0;
        while k < self.entries.len()
            invariant
                0 <= k <= self.entries@.len(),
                self@.len() == self.entries@.len(),
                forall|p: int| 0 <= p < k ==> (#[trigger] self@[p]).0 != key@,
            decreases self.entries@.len() - k,
        {
            if self.entries[k].key == *key {
                assert(self@[k as int].0 == key@);
                return Some(k);
            }
            k = k + 1;
        }
        None
    }
}

/// Builds the bigram model of the seed text: for every adjacent pair of
/// words, the second word (in its original case) is appended to the
/// successor list of the first word's case-folded form.
pub fn build_markov_chain(seed: &str) -> (r: MarkovChain)
    ensures
        r@ == chain_model(words_of(seed@)),
        r.wf(),
{
    let words = split_words(seed);
    let ghost ws = words.deep_view();
    let mut chain = MarkovChain { entries: Vec::new() };
    assert(chain@ =~= chain_model_upto(ws, 0));
    if words.len() == 0 {
        return chain;
    }
    let mut k: usize = 0;
    while k < words.len() - 1
        invariant
            ws == words.deep_view(),
            ws.len() == words@.len(),
            words@.len() >= 1,
            0 <= k <= words@.len() - 1,
            chain@ == chain_model_upto(ws, k as int),
            model_wf(chain@),
        decreases words@.len() - k,
    {
        let key = to_lower(words[k].as_str());
        let succ = words[k + 1].clone();
        proof {
            assert(ws[k as int] == words@[k as int]@);
            assert(ws[k as int + 1] == words@[k as int + 1]@);
        }
        let ghost m0 = chain@;
        match chain.find_key(&key) {
            Option::Some(idx) => {
                proof {
                    assert(model_has_key(m0, key@));
                    assert(model_key_index(m0, key@) == idx as int) by {
                        let ci = model_key_index(m0, key@);
                        assert(0 <= ci < m0.len() && m0[ci].0 == key@);
                    }
                }
                let ghost old_succs = chain.entries@[idx as int].succs;
                chain.entries[idx].succs.push(succ);
                proof {
                    assert(chain@ =~= chain_add(m0, key@, ws[k as int + 1])) by {
                        assert(chain.entries@[idx as int].succs.deep_view() =~= old_succs
                            .deep_view().push(ws[k as int + 1]));
                        assert forall|p: int| 0 <= p < chain@.len() implies chain@[p] == chain_add(
                            m0,
                            key@,
                            ws[k as int + 1],
                        )[p] by {}
                    }
                }
            },
            Option::None => {
                let mut ss: Vec<String> = Vec::new();
                ss.push(succ);
                assert(ss.deep_view() =~= seq![ws[k as int + 1]]);
                chain.entries.push(ChainEntry { key, succs: ss });
                proof {
                    assert(chain@ =~= chain_add(m0, lower_seq(ws[k as int]), ws[k as int + 1]));
                }
            },
        }
        proof {
            crate::text::lemma_lower_seq_idempotent(ws[k as int]);
            assert(chain@ == chain_model_upto(ws, k as int + 1));
            assert(model_wf(chain@));
        }
        k = k + 1;
    }
    proof {
        assert(chain@ == chain_model(ws));
    }
    chain
}

/// The errors of this library.
#[derive(Debug, PartialEq)]
pub enum LoremError {
    /// Generation was requested against a model with no transition keys.
    EmptyModel,
}

/// A possible outcome of a random walk of up to `n` words over the model
/// `m`: it starts at a key, each next word is one of the current word's
/// recorded successors, and it is shorter than `n` only when the last word's
/// case-folded form has no successors.
pub open spec fn is_markov_walk(
    m: Seq<(Seq<char>, Seq<Seq<char>>)>,
    n: int,
    ws: Seq<Seq<char>>,
) -> bool {
    &&& 1 <= ws.len()
    &&& ws.len() <= vstd::math::max(n, 1)
    &&& model_has_key(m, ws[0])
    &&& forall|t: int| 0 <= t < ws.len() - 1 ==> #[trigger] model_has_edge(
        m,
        lower_seq(ws[t]),
        ws[t + 1],
    )
    &&& ws.len() < n ==> !model_has_key(m, lower_seq(ws.last()))
}

/// Generates up to `num_words` words by a weighted random walk over the
/// model: a uniformly random key starts the walk, and each step draws
/// uniformly from the current word's successor list (duplicates bias the
/// draw), stopping early when the current word has no successors. An empty
/// model is an `EmptyModel` error.
pub fn generate_markov_text(
    chain: &MarkovChain,
    num_words: usize,
    rng: &mut rand::rngs::StdRng,
) -> (r: Result<String, LoremError>)
    requires
        chain.wf(),
    ensures
        r is Ok <==> chain@.len() > 0,
        r matches Ok(s) ==> exists|ws: Seq<Seq<char>>| #[trigger] is_markov_walk(
            chain@,
            num_words as int,
            ws,
        ) && s@ == join_words(ws),
{
    if chain.entries.len() == 0 {
        return Err(LoremError::EmptyModel);
    }
    let start_idx = draw_below(rng, chain.entries.len());
    let start = chain.entries[start_idx].key.clone();
    let mut out_words: Vec<String> = Vec::new();
    out_words.push(start.clone());
    let mut current: String = start;
    let mut stopped = false;
    proof {
        assert(chain@[start_idx as int].0 == current@);
        assert(lower_seq(current@) == current@);
        assert(out_words.deep_view() =~= seq![current@]);
    }
    while out_words.len() < num_words && !stopped
        invariant
            chain.wf(),
            1 <= out_words.deep_view().len() == out_words@.len(),
            out_words@.len() <= vstd::math::max(num_words as int, 1),
            model_has_key(chain@, out_words.deep_view()[0]),
            forall|t: int| 0 <= t < out_words.deep_view().len() - 1 ==> #[trigger] model_has_edge(
                chain@,
                lower_seq(out_words.deep_view()[t]),
                out_words.deep_view()[t + 1],
            ),
            current@ == lower_seq(out_words.deep_view().last()),
            stopped ==> !model_has_key(chain@, lower_seq(out_words.deep_view().last())),
        decreases num_words - out_words@.len(), (if stopped {
            0int
        } else {
            1int
        }),
    {
        match chain.find_key(&current) {
            Option::Some(idx) => {
                let slen = chain.entries[idx].succs.len();
                proof {
                    assert(chain@[idx as int].1.len() > 0);
                    assert(chain@[idx as int].1 == chain.entries@[idx as int].succs.deep_view());
                }
                let c = draw_below(rng, slen);
                let w = chain.entries[idx].succs[c].clone();
                let ghost dv0 = out_words.deep_view();
                out_words.push(w.clone());
                current = to_lower(w.as_str());
                proof {
                    assert(out_words.deep_view() =~= dv0.push(w@));
                    assert(chain@[idx as int].1[c as int] == w@);
                    assert(chain@[idx as int].1.contains(w@));
                    assert(model_has_edge(chain@, lower_seq(dv0.last()), w@)) by {
                        let ci = model_key_index(chain@, lower_seq(dv0.last()));
                        assert(0 <= ci < chain@.len() && chain@[ci].0 == lower_seq(dv0.last()));
                        assert(ci == idx as int);
                    }
                    assert(forall|t: int| 0 <= t < dv0.len() - 1 ==> #[trigger] model_has_edge(
                        chain@,
                        lower_seq(dv0[t]),
                        dv0[t + 1],
                    ));
                }
            },
            Option::None => {
                stopped = true;
            },
        }
    }
    let joined = join_strings(&out_words);
    proof {
        let ws = out_words.deep_view();
        assert(is_markov_walk(chain@, num_words as int, ws));
        assert(joined@ == join_words(ws));
    }
    Ok(joined)
}

/// The model of a seed has a key exactly when the seed has at least two
/// words.
pub proof fn lemma_chain_model_nonempty(ws: Seq<Seq<char>>)
    ensures
        chain_model(ws).len() > 0 <==> ws.len() >= 2,
{
    if ws.len() >= 2 {
        lemma_chain_model_upto_nonempty(ws, ws.len() - 1);
    }
}

/// Builds the model of `seed` and generates a sample of up to
/// `sample_length` words from it.
pub fn generate_lorem_sample(
    seed: &str,
    sample_length: usize,
    rng: &mut rand::rngs::StdRng,
) -> (r: Result<String, LoremError>)
    ensures
        r is Ok <==> words_of(seed@).len() >= 2,
        r matches Ok(s) ==> exists|ws: Seq<Seq<char>>| #[trigger] is_markov_walk(
            chain_model(words_of(seed@)),
            sample_length as int,
            ws,
        ) && s@ == join_words(ws),
{
    let chain = build_markov_chain(seed);
    proof {
        lemma_chain_model_nonempty(words_of(seed@));
    }
    generate_markov_text(&chain, sample_length, rng)
}

/// Builds the model of `seed`, generates a sample of up to `sample_length`
/// words, and returns both.
pub fn generate_lorem_model(
    seed: &str,
    sample_length: usize,
    rng: &mut rand::rngs::StdRng,
) -> (r: Result<(MarkovChain, String), LoremError>)
    ensures
        r is Ok <==> words_of(seed@).len() >= 2,
        r matches Ok(p) ==> p.0@ == chain_model(words_of(seed@)) && p.0.wf() && exists|
            ws: Seq<Seq<char>>,
        | #[trigger] is_markov_walk(chain_model(words_of(seed@)), sample_length as int, ws)
            && p.1@ == join_words(ws),
{
    let chain = build_markov_chain(seed);
    proof {
        lemma_chain_model_nonempty(words_of(seed@));
    }
    match generate_markov_text(&chain, sample_length, rng) {
        Ok(sample) => Ok((chain, sample)),
        Err(e) => Err(e),
    }
}

/// Whether the word list holds `w`.
fn contains_str(v: &Vec<String>, w: &String) -> (r: bool)
    ensures
        r == v.deep_view().contains(w@),
{
    let mut k: usize = 0;
    while k < v.len()
        invariant
            0 <= k <= v@.len(),
            v.deep_view().len() == v@.len(),
            forall|p: int| 0 <= p < k ==> v.deep_view()[p] != w@,
        decreases v@.len() - k,
    {
        if v[k] == *w {
            assert(v.deep_view()[k as int] == w@);
            return true;
        }
        k = k + 1;
    }
    false
}

/// Appending one element to a sequence inserts it into the element set.
proof fn lemma_to_set_push<A>(s: Seq<A>, x: A)
    ensures
        s.push(x).to_set() == s.to_set().insert(x),
{
    broadcast use vstd::seq_lib::lemma_seq_contains_after_push;

    assert(s.push(x).to_set() =~= s.to_set().insert(x));
}

/// A prefix one longer is the shorter prefix with the next element
/// appended.
proof fn lemma_subrange_push<A>(s: Seq<A>, k: int)
    requires
        0 <= k < s.len(),
    ensures
        s.subrange(0, k + 1) == s.subrange(0, k).push(s[k]),
{
    assert(s.subrange(0, k + 1) =~= s.subrange(0, k).push(s[k]));
}

/// The distinct words of `v`, first occurrences kept in order.
fn dedup_words(v: &Vec<String>) -> (r: Vec<String>)
    ensures
        r.deep_view().no_duplicates(),
        r.deep_view().to_set() == v.deep_view().to_set(),
{
    let mut out: Vec<String> = Vec::new();
    let mut k: usize = 0;
    while k < v.len()
        invariant
            0 <= k <= v@.len(),
            v.deep_view().len() == v@.len(),
            out.deep_view().no_duplicates(),
            out.deep_view().to_set() == v.deep_view().subrange(0, k as int).to_set(),
        decreases v@.len() - k,
    {
        let ghost dv = v.deep_view();
        let ghost out0 = out.deep_view();
        let ghost pre = dv.subrange(0, k as int);
        proof {
            assert(dv[k as int] == v@[k as int]@);
            lemma_subrange_push(dv, k as int);
            lemma_to_set_push(pre, dv[k as int]);
        }
        if !contains_str(&out, &v[k]) {
            out.push(v[k].clone());
            proof {
                assert(out.deep_view() =~= out0.push(dv[k as int]));
                lemma_to_set_push(out0, dv[k as int]);
            }
        } else {
            proof {
                assert(out0.to_set().contains(dv[k as int]));
                assert(pre.to_set().insert(dv[k as int]) =~= pre.to_set());
            }
        }
        k = k + 1;
    }
    proof {
        assert(v.deep_view().subrange(0, v@.len() as int) =~= v.deep_view());
    }
    out
}

/// Computes the Jaccard ingredients of two word lists: the cardinality of
/// the intersection and of the union of their word sets. The Jaccard index
/// is their quotient, and 0 when both sets are empty.
pub fn jaccard_similarity(a: &Vec<String>, b: &Vec<String>) -> (r: (usize, usize))
    ensures
        r.0 == a.deep_view().to_set().intersect(b.deep_view().to_set()).len(),
        r.1 == a.deep_view().to_set().union(b.deep_view().to_set()).len(),
{
    let ghost sa = a.deep_view().to_set();
    let ghost sb = b.deep_view().to_set();
    let ua = dedup_words(a);
    let ub = dedup_words(b);
    let mut inter: Vec<String> = Vec::new();
    let mut union: Vec<String> = Vec::new();
    let mut k: usize = 0;
    while k < ua.len()
        invariant
            sa == a.deep_view().to_set(),
            sb == b.deep_view().to_set(),
            ua.deep_view().no_duplicates(),
            ua.deep_view().to_set() == sa,
            ua.deep_view().len() == ua@.len(),
            b.deep_view().to_set() == sb,
            0 <= k <= ua@.len(),
            inter.deep_view().no_duplicates(),
            inter.deep_view().to_set() == ua.deep_view().subrange(0, k as int).to_set().intersect(
                sb,
            ),
            union.deep_view() == ua.deep_view().subrange(0, k as int),
        decreases ua@.len() - k,
    {
        let ghost dv = ua.deep_view();
        let ghost inter0 = inter.deep_view();
        let ghost union0 = union.deep_view();
        let ghost pre = dv.subrange(0, k as int);
        proof {
            assert(dv[k as int] == ua@[k as int]@);
            lemma_subrange_push(dv, k as int);
            lemma_to_set_push(pre, dv[k as int]);
        }
        let in_b = contains_str(b, &ua[k]);
        if in_b {
            inter.push(ua[k].clone());
            proof {
                assert(inter.deep_view() =~= inter0.push(dv[k as int]));
                lemma_to_set_push(inter0, dv[k as int]);
                assert(!inter0.contains(dv[k as int])) by {
                    if inter0.contains(dv[k as int]) {
                        assert(inter0.to_set().contains(dv[k as int]));
                        assert(pre.to_set().contains(dv[k as int]));
                        let i = choose|i: int| 0 <= i < pre.len() && pre[i] == dv[k as int];
                        assert(dv[i] == dv[k as int]);
                    }
                }
                assert(inter.deep_view().to_set() =~= pre.to_set().insert(
                    dv[k as int],
                ).intersect(sb));
            }
        } else {
            proof {
                assert(!sb.contains(dv[k as int]));
                assert(inter.deep_view().to_set() =~= pre.to_set().insert(
                    dv[k as int],
                ).intersect(sb));
            }
        }
        union.push(ua[k].clone());
        proof {
            assert(union.deep_view() =~= union0.push(dv[k as int]));
        }
        k = k + 1;
    }
    proof {
        assert(ua.deep_view().subrange(0, ua@.len() as int) =~= ua.deep_view());
    }
    let mut k2: usize = 0;
    while k2 < ub.len()
        invariant
            sa == a.deep_view().to_set(),
            a.deep_view().to_set() == sa,
            sb == b.deep_view().to_set(),
            ub.deep_view().no_duplicates(),
            ub.deep_view().to_set() == sb,
            ub.deep_view().len() == ub@.len(),
            0 <= k2 <= ub@.len(),
            inter.deep_view().no_duplicates(),
            inter.deep_view().to_set() == sa.intersect(sb),
            union.deep_view().no_duplicates(),
            union.deep_view().to_set() == sa.union(
                ub.deep_view().subrange(0, k2 as int).to_set().difference(sa),
            ),
        decreases ub@.len() - k2,
    {
        let ghost dv = ub.deep_view();
        let ghost union0 = union.deep_view();
        let ghost pre = dv.subrange(0, k2 as int);
        proof {
            assert(dv[k2 as int] == ub@[k2 as int]@);
            lemma_subrange_push(dv, k2 as int);
            lemma_to_set_push(pre, dv[k2 as int]);
        }
        let in_a = contains_str(a, &ub[k2]);
        if !in_a {
            union.push(ub[k2].clone());
            proof {
                assert(union.deep_view() =~= union0.push(dv[k2 as int]));
                lemma_to_set_push(union0, dv[k2 as int]);
                assert(!sa.contains(dv[k2 as int]));
                assert(!union0.contains(dv[k2 as int])) by {
                    if union0.contains(dv[k2 as int]) {
                        assert(union0.to_set().contains(dv[k2 as int]));
                    }
                }
                assert(union.deep_view().to_set() =~= sa.union(
                    pre.to_set().insert(dv[k2 as int]).difference(sa),
                ));
            }
        } else {
            proof {
                assert(sa.contains(dv[k2 as int]));
                assert(union.deep_view().to_set() =~= sa.union(
                    pre.to_set().insert(dv[k2 as int]).difference(sa),
                ));
            }
        }
        k2 = k2 + 1;
    }
    proof {
        assert(ub.deep_view().subrange(0, ub@.len() as int) =~= ub.deep_view());
        assert(sa.union(sb.difference(sa)) =~= sa.union(sb));
        inter.deep_view().unique_seq_to_set();
        union.deep_view().unique_seq_to_set();
        assert(inter.deep_view().len() == inter@.len());
        assert(union.deep_view().len() == union@.len());
    }
    (inter.len(), union.len())
}

/// The case-folded word set of a text.
pub open spec fn word_set(s: Seq<char>) -> Set<Seq<char>> {
    words_of(s).map_values(|w: Seq<char>| lower_seq(w)).to_set()
}

/// The similarity test: strictly more than 3/10 Jaccard overlap.
pub open spec fn jaccard_exceeds(a: Set<Seq<char>>, b: Set<Seq<char>>) -> bool {
    10 * a.intersect(b).len() > 3 * a.union(b).len()
}

/// The words of a text, each case-folded.
fn lowered_words(text: &str) -> (r: Vec<String>)
    ensures
        r.deep_view() == words_of(text@).map_values(|w: Seq<char>| lower_seq(w)),
{
    let words = split_words(text);
    let mut out: Vec<String> = Vec::new();
    let mut k: usize = 0;
    while k < words.len()
        invariant
            words.deep_view() == words_of(text@),
            words.deep_view().len() == words@.len(),
            0 <= k <= words@.len(),
            out.deep_view() == words_of(text@).map_values(|w: Seq<char>| lower_seq(w)).subrange(
                0,
                k as int,
            ),
        decreases words@.len() - k,
    {
        let ghost out0 = out.deep_view();
        let ghost mapped = words_of(text@).map_values(|w: Seq<char>| lower_seq(w));
        let lw = to_lower(words[k].as_str());
        proof {
            assert(words.deep_view()[k as int] == words@[k as int]@);
            assert(mapped[k as int] == lower_seq(words.deep_view()[k as int]));
        }
        out.push(lw);
        proof {
            assert(out.deep_view() =~= out0.push(mapped[k as int]));
            lemma_subrange_push(mapped, k as int);
        }
        k = k + 1;
    }
    proof {
        let mapped = words_of(text@).map_values(|w: Seq<char>| lower_seq(w));
        assert(mapped.subrange(0, mapped.len() as int) =~= mapped);
    }
    out
}

/// Detects whether `text` looks Lorem-Ipsum-like: a sample is generated
/// from the model of `seed`, both the sample and `text` are case-folded
/// into word sets, and the outcome is whether their Jaccard overlap exceeds
/// 3/10 strictly. A seed with fewer than two words has an empty model and
/// yields an `EmptyModel` error.
pub fn detect_lorem_ipsum(
    text: &str,
    seed: &str,
    sample_length: usize,
    rng: &mut rand::rngs::StdRng,
) -> (r: Result<bool, LoremError>)
    ensures
        r is Ok <==> words_of(seed@).len() >= 2,
        r matches Ok(b) ==> exists|ws: Seq<Seq<char>>| #[trigger] is_markov_walk(
            chain_model(words_of(seed@)),
            sample_length as int,
            ws,
        ) && b == jaccard_exceeds(word_set(join_words(ws)), word_set(text@)),
{
    let sample = match generate_lorem_sample(seed, sample_length, rng) {
        Ok(s) => s,
        Err(e) => {
            return Err(e);
        },
    };
    let ghost walk = choose|ws: Seq<Seq<char>>| #[trigger] is_markov_walk(
        chain_model(words_of(seed@)),
        sample_length as int,
        ws,
    ) && sample@ == join_words(ws);
    let sample_words = lowered_words(sample.as_str());
    let text_words = lowered_words(text);
    let counts = jaccard_similarity(&sample_words, &text_words);
    let flag = 10u128 * (counts.0 as u128) > 3u128 * (counts.1 as u128);
    proof {
        assert(sample_words.deep_view().to_set() == word_set(join_words(walk)));
        assert(text_words.deep_view().to_set() == word_set(text@));
        assert(flag == jaccard_exceeds(word_set(join_words(walk)), word_set(text@)));
    }
    Ok(flag)
}

} // verus!
