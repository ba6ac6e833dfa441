//! Removal of markdown emphasis and code symbols from a reply before it is
//! shown or saved.

use vstd::prelude::*;
use crate::fuzzy::{embeds, is_subsequence, law_match_transitive};
use crate::text::{chars_of, delete_all, delete_all_exec, starts_with, string_of};

verus! {

/// The text left after deleting, in this order, every `**`, every `__`,
/// every remaining `*` and every `` ` ``.
pub open spec fn stripped_markdown(s: Seq<char>) -> Seq<char> {
    delete_all(
        delete_all(delete_all(delete_all(s, seq!['*', '*']), seq!['_', '_']), seq!['*']),
        seq!['`'],
    )
}

/// Removes markdown bold, underline, emphasis and code markers from `text`.
pub fn strip_markdown_symbols(text: &str) -> (r: String)
    ensures
        r@ == stripped_markdown(text@),
{
    let chars = chars_of(text);
    let bold = vec!['*', '*'];
    let underline = vec!['_', '_'];
    let star = vec!['*'];
    let tick = vec!['`'];
    assert(bold@ =~= seq!['*', '*']);
    assert(underline@ =~= seq!['_', '_']);
    assert(star@ =~= seq!['*']);
    assert(tick@ =~= seq!['`']);
    let a = delete_all_exec(&chars, &bold);
    let b = delete_all_exec(&a, &underline);
    let c = delete_all_exec(&b, &star);
    let d = delete_all_exec(&c, &tick);
    string_of(&d)
}

/// Every character of `delete_all(s, p)` is a character of `s`.
pub proof fn lemma_delete_all_chars(s: Seq<char>, p: Seq<char>, c: char)
    ensures
        delete_all(s, p).contains(c) ==> s.contains(c),
    decreases s.len(),
{
    if s.len() > 0 {
        if p.len() > 0 && starts_with(s, p) {
            lemma_delete_all_chars(s.skip(p.len() as int), p, c);
            if delete_all(s, p).contains(c) {
                let k = choose|k: int| 0 <= k < s.skip(p.len() as int).len() && s.skip(p.len() as int)[k] == c;
                assert(s[k + p.len()] == c);
            }
        } else {
            lemma_delete_all_chars(s.drop_first(), p, c);
            let r = seq![s[0]] + delete_all(s.drop_first(), p);
            if r.contains(c) {
                let k = choose|k: int| 0 <= k < r.len() && r[k] == c;
                if k > 0 {
                    assert(delete_all(s.drop_first(), p)[k - 1] == c);
                    let m = choose|m: int| 0 <= m < s.drop_first().len() && s.drop_first()[m] == c;
                    assert(s[m + 1] == c);
                } else {
                    assert(s[0] == c);
                }
            }
        }
    }
}

/// Deleting a one-character pattern leaves no occurrence of that character.
pub proof fn lemma_delete_all_single(s: Seq<char>, c: char)
    ensures
        !delete_all(s, seq![c]).contains(c),
    decreases s.len(),
{
    if s.len() > 0 {
        if starts_with(s, seq![c]) {
            lemma_delete_all_single(s.skip(1), c);
        } else {
            assert(s.subrange(0, 1) =~= seq![s[0]]);
            lemma_delete_all_single(s.drop_first(), c);
            let r = seq![s[0]] + delete_all(s.drop_first(), seq![c]);
            assert forall|k: int| 0 <= k < r.len() implies r[k] != c by {
                if k > 0 {
                    assert(r[k] == delete_all(s.drop_first(), seq![c])[k - 1]);
                }
            }
        }
    }
}

/// A text in which the first character of `p` never occurs is left as it is.
pub proof fn lemma_delete_all_absent(s: Seq<char>, p: Seq<char>)
    requires
        p.len() > 0,
        !s.contains(p[0]),
    ensures
        delete_all(s, p) == s,
    decreases s.len(),
{
    if s.len() > 0 {
        assert(!starts_with(s, p)) by {
            if starts_with(s, p) {
                assert(s.subrange(0, p.len() as int)[0] == s[0]);
            }
        }
        assert forall|k: int| 0 <= k < s.drop_first().len() implies s.drop_first()[k] != p[0] by {
            assert(s.drop_first()[k] == s[k + 1]);
        }
        lemma_delete_all_absent(s.drop_first(), p);
        assert(seq![s[0]] + s.drop_first() =~= s);
    }
}

/// After stripping, no `*` and no `` ` `` remains.
pub proof fn law_stripped_has_no_markers(s: Seq<char>)
    ensures
        !stripped_markdown(s).contains('*'),
        !stripped_markdown(s).contains('`'),
{
    let c = delete_all(delete_all(delete_all(s, seq!['*', '*']), seq!['_', '_']), seq!['*']);
    lemma_delete_all_single(delete_all(delete_all(s, seq!['*', '*']), seq!['_', '_']), '*');
    lemma_delete_all_chars(c, seq!['`'], '*');
    lemma_delete_all_single(c, '`');
}

/// A text holding none of `*`, `_` and `` ` `` is left unchanged.
pub proof fn law_plain_text_unchanged(s: Seq<char>)
    requires
        !s.contains('*'),
        !s.contains('_'),
        !s.contains('`'),
    ensures
        stripped_markdown(s) == s,
{
    lemma_delete_all_absent(s, seq!['*', '*']);
    lemma_delete_all_absent(s, seq!['_', '_']);
    lemma_delete_all_absent(s, seq!['*']);
    lemma_delete_all_absent(s, seq!['`']);
}

/// Deleting occurrences keeps the other characters in order.
pub proof fn lemma_delete_all_subsequence(s: Seq<char>, p: Seq<char>)
    ensures
        is_subsequence(delete_all(s, p), s),
    decreases s.len(),
{
    let r = delete_all(s, p);
    if s.len() == 0 {
        assert(embeds(r, s, Seq::<int>::empty()));
    } else if p.len() > 0 && starts_with(s, p) {
        let t = s.skip(p.len() as int);
        lemma_delete_all_subsequence(t, p);
        let i0 = choose|idx: Seq<int>| embeds(r, t, idx);
        let idx = Seq::new(r.len(), |k: int| i0[k] + p.len());
        assert forall|k: int| 0 <= k < idx.len() implies 0 <= #[trigger] idx[k] < s.len() && s[idx[k]] == r[k] by {
            assert(0 <= i0[k] < t.len());
            assert(t[i0[k]] == s[i0[k] + p.len()]);
        }
        assert forall|k: int, m: int| 0 <= k < m < idx.len() implies #[trigger] idx[k] < #[trigger] idx[m] by {
            assert(i0[k] < i0[m]);
        }
        assert(embeds(r, s, idx));
    } else {
        let t = s.drop_first();
        let rt = delete_all(t, p);
        lemma_delete_all_subsequence(t, p);
        let i0 = choose|idx: Seq<int>| embeds(rt, t, idx);
        let idx = Seq::new(r.len(), |k: int| if k == 0 { 0 } else { i0[k - 1] + 1 });
        assert(r == seq![s[0]] + rt);
        assert forall|k: int| 0 <= k < idx.len() implies 0 <= #[trigger] idx[k] < s.len() && s[idx[k]] == r[k] by {
            if k > 0 {
                assert(0 <= i0[k - 1] < t.len());
                assert(t[i0[k - 1]] == rt[k - 1]);
                assert(r[k] == rt[k - 1]);
            }
        }
        assert forall|k: int, m: int| 0 <= k < m < idx.len() implies #[trigger] idx[k] < #[trigger] idx[m] by {
            assert(0 <= i0[m - 1]);
            if k > 0 {
                assert(i0[k - 1] < i0[m - 1]);
            }
        }
        assert(embeds(r, s, idx));
    }
}

/// Stripping only deletes: what is left keeps its order in the original.
pub proof fn law_stripped_is_subsequence(s: Seq<char>)
    ensures
        is_subsequence(stripped_markdown(s), s),
{
    let a = delete_all(s, seq!['*', '*']);
    let b = delete_all(a, seq!['_', '_']);
    let c = delete_all(b, seq!['*']);
    let d = delete_all(c, seq!['`']);
    lemma_delete_all_subsequence(s, seq!['*', '*']);
    lemma_delete_all_subsequence(a, seq!['_', '_']);
    lemma_delete_all_subsequence(b, seq!['*']);
    lemma_delete_all_subsequence(c, seq!['`']);
    law_match_transitive(b, a, s);
    law_match_transitive(c, b, s);
    law_match_transitive(d, c, s);
}

/// On text without `_`, stripping twice is stripping once. (With `_` it is
/// not: `_*_` strips to `__`, which strips to nothing.)
pub proof fn law_strip_idempotent_without_underscore(s: Seq<char>)
    requires
        !s.contains('_'),
    ensures
        stripped_markdown(stripped_markdown(s)) == stripped_markdown(s),
{
    let a = delete_all(s, seq!['*', '*']);
    let b = delete_all(a, seq!['_', '_']);
    let c = delete_all(b, seq!['*']);
    let r = delete_all(c, seq!['`']);
    lemma_delete_all_chars(s, seq!['*', '*'], '_');
    lemma_delete_all_chars(a, seq!['_', '_'], '_');
    lemma_delete_all_chars(b, seq!['*'], '_');
    lemma_delete_all_chars(c, seq!['`'], '_');
    law_stripped_has_no_markers(s);
    law_plain_text_unchanged(r);
}

} // verus!
