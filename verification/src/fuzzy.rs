//! Case-insensitive fuzzy matching: a pattern matches a text when its
//! lowercase characters occur, in order, among the text's lowercase
//! characters.

use vstd::prelude::*;
use crate::text::chars_of;

verus! {

/// What `str::to_lowercase` returns for a string with the characters `s`
/// (the Unicode lowercase mapping, with its context rule for final sigma).
pub uninterp spec fn str_lowercase(s: Seq<char>) -> Seq<char>;

/// The ASCII lowercase of a character: `A` to `Z` become `a` to `z`, every
/// other character stays.
pub open spec fn ascii_lower(c: char) -> char {
    if 'A' <= c && c <= 'Z' {
        ((c as u32) + 32) as char
    } else {
        c
    }
}

/// The ASCII lowercase of every character.
pub open spec fn ascii_lowercase(s: Seq<char>) -> Seq<char> {
    s.map_values(|c: char| ascii_lower(c))
}

/// The lowercase of `s` is its ASCII lowercase. The contract of
/// `to_lowercase` gives this for every ASCII text it is called on.
pub open spec fn lowercase_is_ascii(s: Seq<char>) -> bool {
    str_lowercase(s) == ascii_lowercase(s)
}

/// Calls `str::to_lowercase`. The contract claims that its result is
/// `str_lowercase` of the argument's characters; that on ASCII text it is
/// the ASCII lowercase (`A`-`Z` to `a`-`z`, other characters unchanged);
/// that it is empty exactly when the argument is. What the mapping is beyond
/// ASCII stays unsaid.
#[verifier::external_body]
pub(crate) fn to_lowercase(s: &str) -> (r: String)
    ensures
        r@ == str_lowercase(s@),
        vstd::utf8::is_ascii_chars(s@) ==> r@ == ascii_lowercase(s@),
        s@.len() == 0 ==> r@.len() == 0,
        s@.len() > 0 ==> r@.len() > 0,
{
    s.to_lowercase()
}

/// `idx` places the characters of `p`, in order, at increasing positions of `t`.
pub open spec fn embeds(p: Seq<char>, t: Seq<char>, idx: Seq<int>) -> bool {
    &&& idx.len() == p.len()
    &&& forall|k: int| 0 <= k < idx.len() ==> 0 <= #[trigger] idx[k] < t.len() && t[idx[k]] == p[k]
    &&& forall|k: int, m: int| 0 <= k < m < idx.len() ==> #[trigger] idx[k] < #[trigger] idx[m]
}

/// The characters of `p` occur in `t` in the same order.
pub open spec fn is_subsequence(p: Seq<char>, t: Seq<char>) -> bool {
    exists|idx: Seq<int>| embeds(p, t, idx)
}

/// The left-to-right scan that takes, for each character of `p`, its first
/// occurrence in what is left of `t`.
pub open spec fn greedy_match(p: Seq<char>, t: Seq<char>) -> bool
    decreases t.len(),
{
    if p.len() == 0 {
        true
    } else if t.len() == 0 {
        false
    } else if p[0] == t[0] {
        greedy_match(p.drop_first(), t.drop_first())
    } else {
        greedy_match(p, t.drop_first())
    }
}

/// The greedy scan succeeds only on a subsequence.
pub proof fn lemma_greedy_sound(p: Seq<char>, t: Seq<char>)
    requires
        greedy_match(p, t),
    ensures
        is_subsequence(p, t),
    decreases t.len(),
{
    if p.len() == 0 {
        let idx = Seq::<int>::empty();
        assert(embeds(p, t, idx));
    } else if p[0] == t[0] {
        lemma_greedy_sound(p.drop_first(), t.drop_first());
        let idx0 = choose|idx: Seq<int>| embeds(p.drop_first(), t.drop_first(), idx);
        let idx = Seq::new(p.len(), |k: int| if k == 0 { 0 } else { idx0[k - 1] + 1 });
        assert forall|k: int| 0 <= k < idx.len() implies 0 <= #[trigger] idx[k] < t.len() && t[idx[k]] == p[k] by {
            if k > 0 {
                assert(t.drop_first()[idx0[k - 1]] == p.drop_first()[k - 1]);
            }
        }
        assert forall|k: int, m: int| 0 <= k < m < idx.len() implies #[trigger] idx[k] < #[trigger] idx[m] by {
            if k > 0 {
                assert(idx0[k - 1] < idx0[m - 1]);
            } else {
                assert(0 <= idx0[m - 1]);
            }
        }
        assert(embeds(p, t, idx));
    } else {
        lemma_greedy_sound(p, t.drop_first());
        let idx0 = choose|idx: Seq<int>| embeds(p, t.drop_first(), idx);
        let idx = Seq::new(p.len(), |k: int| idx0[k] + 1);
        assert forall|k: int| 0 <= k < idx.len() implies 0 <= #[trigger] idx[k] < t.len() && t[idx[k]] == p[k] by {
            assert(t.drop_first()[idx0[k]] == p[k]);
        }
        assert forall|k: int, m: int| 0 <= k < m < idx.len() implies #[trigger] idx[k] < #[trigger] idx[m] by {
            assert(idx0[k] < idx0[m]);
        }
        assert(embeds(p, t, idx));
    }
}

/// The greedy scan succeeds on every subsequence.
pub proof fn lemma_greedy_complete(p: Seq<char>, t: Seq<char>, idx: Seq<int>)
    requires
        embeds(p, t, idx),
    ensures
        greedy_match(p, t),
    decreases t.len(),
{
    if p.len() > 0 {
        assert(0 <= idx[0] < t.len());
        if p[0] == t[0] {
            let idx1 = Seq::new((p.len() - 1) as nat, |k: int| idx[k + 1] - 1);
            assert forall|k: int| 0 <= k < idx1.len() implies 0 <= #[trigger] idx1[k] < t.drop_first().len()
                && t.drop_first()[idx1[k]] == p.drop_first()[k] by {
                assert(idx[0] < idx[k + 1]);
                assert(0 <= idx[k + 1] < t.len());
            }
            assert forall|k: int, m: int| 0 <= k < m < idx1.len() implies #[trigger] idx1[k] < #[trigger] idx1[m] by {
                assert(idx[k + 1] < idx[m + 1]);
            }
            lemma_greedy_complete(p.drop_first(), t.drop_first(), idx1);
        } else {
            assert(idx[0] != 0);
            let idx1 = Seq::new(p.len(), |k: int| idx[k] - 1);
            assert forall|k: int| 0 <= k < idx1.len() implies 0 <= #[trigger] idx1[k] < t.drop_first().len()
                && t.drop_first()[idx1[k]] == p[k] by {
                if k > 0 {
                    assert(idx[0] < idx[k]);
                }
                assert(0 <= idx[k] < t.len());
            }
            assert forall|k: int, m: int| 0 <= k < m < idx1.len() implies #[trigger] idx1[k] < #[trigger] idx1[m] by {
                assert(idx[k] < idx[m]);
            }
            lemma_greedy_complete(p, t.drop_first(), idx1);
        }
    }
}

/// Whether the characters of `pattern` occur, in order, in `text`.
pub fn is_subsequence_of(pattern: &Vec<char>, text: &Vec<char>) -> (r: bool)
    ensures
        r == is_subsequence(pattern@, text@),
{
    let ghost p = pattern@;
    let ghost t = text@;
    let n = text.len();
    let m = pattern.len();
    let mut j: usize = 0;
    assert(p.skip(0) =~= p);
    assert(t.skip(0) =~= t);
    for k in 0..m
        invariant
            n == t.len(),
            m == p.len(),
            p == pattern@,
            t == text@,
            j <= n,
            greedy_match(p, t) == greedy_match(p.skip(k as int), t.skip(j as int)),
    {
        while j < n && text[j] != pattern[k]
            invariant
                n == t.len(),
                m == p.len(),
                p == pattern@,
                t == text@,
                k < m,
                j <= n,
                greedy_match(p, t) == greedy_match(p.skip(k as int), t.skip(j as int)),
            decreases n - j,
        {
            assert(t.skip(j as int).drop_first() =~= t.skip(j + 1));
            j += 1;
        }
        if j == n {
            proof {
                if is_subsequence(p, t) {
                    let idx = choose|idx: Seq<int>| embeds(p, t, idx);
                    lemma_greedy_complete(p, t, idx);
                }
            }
            return false;
        }
        assert(t.skip(j as int).drop_first() =~= t.skip(j + 1));
        assert(p.skip(k as int).drop_first() =~= p.skip(k + 1));
        j += 1;
    }
    proof {
        assert(p.skip(m as int).len() == 0);
        lemma_greedy_sound(p, t);
    }
    true
}

/// Whether `pattern` fuzzily matches `text`: every character of the lowercase
/// pattern occurs, in order, in the lowercase text. The empty pattern matches
/// every text.
pub fn fuzzy_match(text: &str, pattern: &str) -> (r: bool)
    ensures
        r == is_subsequence(str_lowercase(pattern@), str_lowercase(text@)),
        pattern@.len() == 0 ==> r,
{
    let lower_text = to_lowercase(text);
    let lower_pattern = to_lowercase(pattern);
    let t = chars_of(lower_text.as_str());
    let p = chars_of(lower_pattern.as_str());
    let r = is_subsequence_of(&p, &t);
    proof {
        if pattern@.len() == 0 {
            assert(embeds(p@, t@, Seq::<int>::empty()));
        }
    }
    r
}

/// A text always matches itself.
pub proof fn law_text_matches_itself(t: Seq<char>)
    ensures
        is_subsequence(str_lowercase(t), str_lowercase(t)),
{
    let s = str_lowercase(t);
    let idx = Seq::new(s.len(), |k: int| k);
    assert(embeds(s, s, idx));
}

/// A pattern never has more characters than a text it matches.
pub proof fn law_match_not_longer(p: Seq<char>, t: Seq<char>)
    requires
        is_subsequence(p, t),
    ensures
        p.len() <= t.len(),
    decreases p.len(),
{
    let idx = choose|idx: Seq<int>| embeds(p, t, idx);
    if p.len() > 0 {
        lemma_embed_last(p, t, idx);
    }
}

proof fn lemma_embed_last(p: Seq<char>, t: Seq<char>, idx: Seq<int>)
    requires
        embeds(p, t, idx),
        p.len() > 0,
    ensures
        idx[p.len() - 1] >= p.len() - 1,
    decreases p.len(),
{
    if p.len() > 1 {
        let q = p.drop_last();
        let iq = idx.drop_last();
        assert(embeds(q, t, iq));
        lemma_embed_last(q, t, iq);
        assert(idx[p.len() - 2] < idx[p.len() - 1]);
    } else {
        assert(0 <= idx[0]);
    }
}

/// Matching is transitive: a pattern that matches a text also matches every
/// text that the text matches.
pub proof fn law_match_transitive(a: Seq<char>, b: Seq<char>, c: Seq<char>)
    requires
        is_subsequence(a, b),
        is_subsequence(b, c),
    ensures
        is_subsequence(a, c),
{
    let i1 = choose|idx: Seq<int>| embeds(a, b, idx);
    let i2 = choose|idx: Seq<int>| embeds(b, c, idx);
    let idx = Seq::new(a.len(), |k: int| i2[i1[k]]);
    assert forall|k: int| 0 <= k < idx.len() implies 0 <= #[trigger] idx[k] < c.len() && c[idx[k]] == a[k] by {
        assert(0 <= i1[k] < b.len());
        assert(0 <= i2[i1[k]] < c.len());
    }
    assert forall|k: int, m: int| 0 <= k < m < idx.len() implies #[trigger] idx[k] < #[trigger] idx[m] by {
        assert(i1[k] < i1[m]);
        assert(0 <= i1[k] < b.len());
        assert(0 <= i1[m] < b.len());
        assert(i2[i1[k]] < i2[i1[m]]);
    }
    assert(embeds(a, c, idx));
}

/// Every prefix of a matching pattern matches too: typing further characters
/// never brings back a text that an earlier pattern ruled out.
pub proof fn law_prefix_of_match(p: Seq<char>, t: Seq<char>, k: int)
    requires
        is_subsequence(p, t),
        0 <= k <= p.len(),
    ensures
        is_subsequence(p.take(k), t),
{
    let idx = choose|idx: Seq<int>| embeds(p, t, idx);
    let i2 = idx.take(k);
    assert forall|j: int| 0 <= j < i2.len() implies 0 <= #[trigger] i2[j] < t.len() && t[i2[j]] == p.take(k)[j] by {
        assert(i2[j] == idx[j]);
    }
    assert forall|a: int, b: int| 0 <= a < b < i2.len() implies #[trigger] i2[a] < #[trigger] i2[b] by {
        assert(idx[a] < idx[b]);
    }
    assert(embeds(p.take(k), t, i2));
}

/// The ASCII lowercase of a concatenation is the concatenation of the
/// ASCII lowercases.
pub proof fn lemma_ascii_lowercase_concat(a: Seq<char>, b: Seq<char>)
    ensures
        ascii_lowercase(a + b) == ascii_lowercase(a) + ascii_lowercase(b),
{
    assert(ascii_lowercase(a + b) =~= ascii_lowercase(a) + ascii_lowercase(b));
}

/// A pattern made of two parts matches only where each part matches.
pub proof fn law_pattern_split(x: Seq<char>, y: Seq<char>, z: Seq<char>)
    requires
        is_subsequence(x + y, z),
    ensures
        is_subsequence(x, z),
        is_subsequence(y, z),
{
    let idx = choose|idx: Seq<int>| embeds(x + y, z, idx);
    let ix = idx.take(x.len() as int);
    let iy = idx.skip(x.len() as int);
    assert forall|j: int| 0 <= j < ix.len() implies 0 <= #[trigger] ix[j] < z.len() && z[ix[j]] == x[j] by {
        assert(ix[j] == idx[j]);
        assert((x + y)[j] == x[j]);
    }
    assert forall|a: int, b: int| 0 <= a < b < ix.len() implies #[trigger] ix[a] < #[trigger] ix[b] by {
        assert(idx[a] < idx[b]);
    }
    assert(embeds(x, z, ix));
    assert forall|j: int| 0 <= j < iy.len() implies 0 <= #[trigger] iy[j] < z.len() && z[iy[j]] == y[j] by {
        assert(iy[j] == idx[j + x.len()]);
        assert((x + y)[j + x.len()] == y[j]);
    }
    assert forall|a: int, b: int| 0 <= a < b < iy.len() implies #[trigger] iy[a] < #[trigger] iy[b] by {
        assert(idx[a + x.len()] < idx[b + x.len()]);
    }
    assert(embeds(y, z, iy));
}

/// A pattern that matches a text matches every text around it.
pub proof fn law_text_extension(x: Seq<char>, z: Seq<char>, u: Seq<char>, v: Seq<char>)
    requires
        is_subsequence(x, z),
    ensures
        is_subsequence(x, u + z + v),
{
    let idx = choose|idx: Seq<int>| embeds(x, z, idx);
    let w = u + z + v;
    let i2 = Seq::new(idx.len(), |k: int| idx[k] + u.len());
    assert forall|j: int| 0 <= j < i2.len() implies 0 <= #[trigger] i2[j] < w.len() && w[i2[j]] == x[j] by {
        assert(0 <= idx[j] < z.len());
        assert(w[idx[j] + u.len()] == z[idx[j]]);
    }
    assert forall|a: int, b: int| 0 <= a < b < i2.len() implies #[trigger] i2[a] < #[trigger] i2[b] by {
        assert(idx[a] < idx[b]);
    }
    assert(embeds(x, w, i2));
}

/// On ASCII text, a text that matches the pattern `p + q` matches `p` and
/// matches `q`.
pub proof fn law_ascii_pattern_split(t: Seq<char>, p: Seq<char>, q: Seq<char>)
    requires
        lowercase_is_ascii(p),
        lowercase_is_ascii(q),
        lowercase_is_ascii(p + q),
        is_subsequence(str_lowercase(p + q), str_lowercase(t)),
    ensures
        is_subsequence(str_lowercase(p), str_lowercase(t)),
        is_subsequence(str_lowercase(q), str_lowercase(t)),
{
    lemma_ascii_lowercase_concat(p, q);
    law_pattern_split(str_lowercase(p), str_lowercase(q), str_lowercase(t));
}

/// On ASCII text, a pattern that matches `t` matches `a + t + b`.
pub proof fn law_ascii_text_extension(t: Seq<char>, p: Seq<char>, a: Seq<char>, b: Seq<char>)
    requires
        lowercase_is_ascii(t),
        lowercase_is_ascii(a),
        lowercase_is_ascii(b),
        lowercase_is_ascii(a + t + b),
        is_subsequence(str_lowercase(p), str_lowercase(t)),
    ensures
        is_subsequence(str_lowercase(p), str_lowercase(a + t + b)),
{
    lemma_ascii_lowercase_concat(a, t);
    lemma_ascii_lowercase_concat(a + t, b);
    law_text_extension(str_lowercase(p), str_lowercase(t), str_lowercase(a), str_lowercase(b));
}

} // verus!
