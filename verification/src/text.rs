//! Character-level text utilities: case folding, whitespace splitting and
//! space-joining, each with an exact character-sequence specification.
use vstd::prelude::*;
use vstd::string::*;

verus! {

/// Case-folds one character: ASCII uppercase letters map to their lowercase
/// counterparts, every other character is left unchanged.
pub open spec fn lower_char(c: char) -> char {
    if 'A' <= c && c <= 'Z' {
        (((c as u8) + 32) as char)
    } else {
        c
    }
}

/// Case-folds a whole character sequence, one character at a time.
pub open spec fn lower_seq(s: Seq<char>) -> Seq<char> {
    s.map_values(|c: char| lower_char(c))
}

/// The whitespace characters that delimit words: the Unicode `White_Space`
/// set, the same set that drives `str::split_whitespace`.
pub open spec fn is_space(c: char) -> bool {
    ||| c == ' '
    ||| c == '\t'
    ||| c == '\n'
    ||| c == '\u{b}'
    ||| c == '\u{c}'
    ||| c == '\r'
    ||| c == '\u{85}'
    ||| c == '\u{a0}'
    ||| c == '\u{1680}'
    ||| ('\u{2000}' <= c && c <= '\u{200a}')
    ||| c == '\u{2028}'
    ||| c == '\u{2029}'
    ||| c == '\u{202f}'
    ||| c == '\u{205f}'
    ||| c == '\u{3000}'
}

/// Case folding is idempotent.
pub proof fn lemma_lower_seq_idempotent(s: Seq<char>)
    ensures
        lower_seq(lower_seq(s)) == lower_seq(s),
{
    assert(lower_seq(lower_seq(s)) =~= lower_seq(s));
}

/// The position of the first whitespace character at or after `i`, or the end
/// of the sequence if there is none.
pub open spec fn token_end(s: Seq<char>, i: int) -> int
    decreases s.len() - i,
{
    if i >= s.len() {
        s.len() as int
    } else if is_space(s[i]) {
        i
    } else {
        token_end(s, i + 1)
    }
}

pub proof fn lemma_token_end_bounds(s: Seq<char>, i: int)
    requires
        0 <= i <= s.len(),
    ensures
        i <= token_end(s, i) <= s.len(),
        i < s.len() && !is_space(s[i]) ==> token_end(s, i) >= i + 1,
        forall|k: int| i <= k < token_end(s, i) ==> !is_space(#[trigger] s[k]),
    decreases s.len() - i,
{
    if i < s.len() && !is_space(s[i]) {
        lemma_token_end_bounds(s, i + 1);
        assert(token_end(s, i) == token_end(s, i + 1));
    }
}

/// The half-open spans `[start, end)` of the whitespace-delimited words of
/// `s`, scanning from position `i`, in left-to-right order.
pub open spec fn token_ranges_from(s: Seq<char>, i: int) -> Seq<(int, int)>
    decreases s.len() - i,
    when 0 <= i
    via token_ranges_from_decreases
{
    if i >= s.len() {
        Seq::empty()
    } else if is_space(s[i]) {
        token_ranges_from(s, i + 1)
    } else {
        seq![(i, token_end(s, i))] + token_ranges_from(s, token_end(s, i))
    }
}

#[via_fn]
proof fn token_ranges_from_decreases(s: Seq<char>, i: int) {
    if 0 <= i < s.len() && !is_space(s[i]) {
        lemma_token_end_bounds(s, i);
        assert(token_end(s, i) >= i + 1);
    }
}

/// The word spans of a whole text.
pub open spec fn token_ranges(s: Seq<char>) -> Seq<(int, int)> {
    token_ranges_from(s, 0)
}

/// The whitespace-delimited words of a text, in order of appearance.
pub open spec fn words_of(s: Seq<char>) -> Seq<Seq<char>> {
    token_ranges(s).map_values(|r: (int, int)| s.subrange(r.0, r.1))
}

/// Every word span is a non-empty in-bounds span made of non-space characters.
pub proof fn lemma_token_ranges_from_wf(s: Seq<char>, i: int)
    requires
        0 <= i <= s.len(),
    ensures
        forall|k: int| 0 <= k < token_ranges_from(s, i).len() ==> {
            let r = #[trigger] token_ranges_from(s, i)[k];
            &&& i <= r.0 < r.1 <= s.len()
            &&& forall|p: int| r.0 <= p < r.1 ==> !is_space(#[trigger] s[p])
        },
    decreases s.len() - i,
{
    if i >= s.len() {
        assert(token_ranges_from(s, i).len() == 0);
    } else if is_space(s[i]) {
        lemma_token_ranges_from_wf(s, i + 1);
        assert(token_ranges_from(s, i) == token_ranges_from(s, i + 1));
        assert forall|k: int| 0 <= k < token_ranges_from(s, i).len() implies {
            let r = #[trigger] token_ranges_from(s, i)[k];
            &&& i <= r.0 < r.1 <= s.len()
            &&& forall|p: int| r.0 <= p < r.1 ==> !is_space(#[trigger] s[p])
        } by {
            assert(token_ranges_from(s, i)[k] == token_ranges_from(s, i + 1)[k]);
        }
    } else {
        lemma_token_end_bounds(s, i);
        let te = token_end(s, i);
        lemma_token_ranges_from_wf(s, te);
        let res = token_ranges_from(s, i);
        assert(res == seq![(i, te)] + token_ranges_from(s, te));
        assert(res.len() == 1 + token_ranges_from(s, te).len());
        assert forall|k: int| 0 <= k < res.len() implies {
            let r = #[trigger] res[k];
            &&& i <= r.0 < r.1 <= s.len()
            &&& forall|p: int| r.0 <= p < r.1 ==> !is_space(#[trigger] s[p])
        } by {
            if k > 0 {
                assert(res[k] == token_ranges_from(s, te)[k - 1]);
            }
        }
    }
}

/// Words joined by single spaces.
pub open spec fn join_words(ws: Seq<Seq<char>>) -> Seq<char>
    decreases ws.len(),
{
    if ws.len() == 0 {
        Seq::empty()
    } else if ws.len() == 1 {
        ws[0]
    } else {
        join_words(ws.drop_last()) + seq![' '] + ws.last()
    }
}

/// Whether `c` is a word delimiter.
pub fn is_space_exec(c: char) -> (r: bool)
    ensures
        r == is_space(c),
{
    c == ' ' || c == '\t' || c == '\n' || c == '\u{b}' || c == '\u{c}' || c == '\r'
        || c == '\u{85}' || c == '\u{a0}' || c == '\u{1680}'
        || ('\u{2000}' <= c && c <= '\u{200a}')
        || c == '\u{2028}' || c == '\u{2029}' || c == '\u{202f}' || c == '\u{205f}'
        || c == '\u{3000}'
}

/// Case-folds a string: ASCII letters are lowercased, everything else is
/// kept.
pub fn to_lower(s: &str) -> (r: String)
    ensures
        r@ == lower_seq(s@),
{
    let n = s.unicode_len();
    let mut out = String::new();
    let mut i: usize = 0;
    while i < n
        invariant
            n == s@.len(),
            0 <= i <= n,
            out@ == lower_seq(s@.subrange(0, i as int)),
        decreases n - i,
    {
        let c = s.get_char(i);
        let lc = if 'A' <= c && c <= 'Z' {
            (((c as u8) + 32) as char)
        } else {
            c
        };
        crate::strutil::push_char(&mut out, lc);
        i = i + 1;
        assert(out@ =~= lower_seq(s@.subrange(0, i as int)));
    }
    assert(s@.subrange(0, n as int) =~= s@);
    out
}

/// Splits a text into its whitespace-delimited words, returning each word
/// together with its character span in the original text.
pub fn split_with_ranges(text: &str) -> (r: (Vec<String>, Vec<(usize, usize)>))
    ensures
        r.0.deep_view() == words_of(text@),
        r.1@.len() == token_ranges(text@).len(),
        forall|k: int| 0 <= k < r.1@.len() ==> #[trigger] r.1@[k].0 == token_ranges(text@)[k].0
            && r.1@[k].1 == token_ranges(text@)[k].1,
{
    let ghost s = text@;
    let n = text.unicode_len();
    let mut words: Vec<String> = Vec::new();
    let mut ranges: Vec<(usize, usize)> = Vec::new();
    let mut i: usize = 0;
    while i < n
        invariant
            n == s.len(),
            s == text@,
            0 <= i <= n,
            words@.len() == ranges@.len(),
            token_ranges(s) == ranges@.map_values(|p: (usize, usize)| (p.0 as int, p.1 as int))
                + token_ranges_from(s, i as int),
            forall|k: int| 0 <= k < ranges@.len() ==> {
                let p = #[trigger] ranges@[k];
                &&& p.0 < p.1 <= n
                &&& words@[k]@ == s.subrange(p.0 as int, p.1 as int)
            },
        decreases n - i,
    {
        let c = text.get_char(i);
        if is_space_exec(c) {
            i = i + 1;
        } else {
            let start = i;
            let mut j = i;
            while j < n && !is_space_exec(text.get_char(j))
                invariant
                    n == s.len(),
                    s == text@,
                    0 <= start <= j <= n,
                    token_end(s, start as int) == token_end(s, j as int),
                decreases n - j,
            {
                j = j + 1;
            }
            assert(token_end(s, j as int) == j);
            let word = text.substring_char(start, j);
            proof {
                let prev = ranges@.map_values(|p: (usize, usize)| (p.0 as int, p.1 as int));
                assert(token_ranges_from(s, start as int) == seq![(start as int, j as int)]
                    + token_ranges_from(s, j as int));
                assert(prev.push((start as int, j as int)) =~= ranges@.push(
                    (start, j),
                ).map_values(|p: (usize, usize)| (p.0 as int, p.1 as int)));
                assert(prev + (seq![(start as int, j as int)] + token_ranges_from(s, j as int))
                    =~= prev.push((start as int, j as int)) + token_ranges_from(s, j as int));
            }
            words.push(word.to_owned());
            ranges.push((start, j));
            i = j;
        }
    }
    proof {
        assert(token_ranges(s) =~= ranges@.map_values(
            |p: (usize, usize)| (p.0 as int, p.1 as int),
        ));
        assert(words.deep_view() =~= words_of(s));
    }
    (words, ranges)
}

/// Splits a text into its whitespace-delimited words.
pub fn split_words(text: &str) -> (r: Vec<String>)
    ensures
        r.deep_view() == words_of(text@),
{
    let (words, _) = split_with_ranges(text);
    words
}

/// Joins words with single spaces.
pub fn join_strings(ws: &Vec<String>) -> (r: String)
    ensures
        r@ == join_words(ws.deep_view()),
{
    let mut out = String::new();
    let mut k: usize = 0;
    while k < ws.len()
        invariant
            0 <= k <= ws@.len(),
            out@ == join_words(ws.deep_view().subrange(0, k as int)),
        decreases ws@.len() - k,
    {
        if k > 0 {
            out.append(" ");
            proof {
                reveal_strlit(" ");
            }
        }
        out.append(ws[k].as_str());
        proof {
            let dv = ws.deep_view();
            assert(dv.subrange(0, (k + 1) as int).drop_last() =~= dv.subrange(0, k as int));
            assert(dv.subrange(0, (k + 1) as int).last() == dv[k as int]);
        }
        k = k + 1;
    }
    assert(ws.deep_view().subrange(0, ws@.len() as int) =~= ws.deep_view());
    out
}

} // verus!
