//! Styling of the marker notes: which ranges of the buffer are hidden, shown
//! as code or shown large, computed line by line.

use vstd::prelude::*;
use crate::text::{chars_eq, chars_of, lines, split_lines, starts_with, trim, trim_chars, views};

verus! {

/// How a range of the notes is styled.
#[derive(Clone, Copy, PartialEq, Eq, Structural, Debug)]
pub enum SpanKind {
    /// A `#` line: hidden.
    Hidden,
    /// A `>` line: its first character is hidden.
    HideFirstChar,
    /// A line inside a `>` block: code style.
    Code,
    /// A line inside a `#` block: large style.
    Large,
}

/// A styled range of buffer offsets, `start..end`. For `HideFirstChar` the
/// range covers the one character at `start`, and `end` is `start + 1`.
#[derive(Clone, Copy, PartialEq, Eq, Structural, Debug)]
pub struct Span {
    pub kind: SpanKind,
    pub start: i32,
    pub end: i32,
}

/// The number of UTF-8 bytes of `c`.
pub open spec fn char_bytes(c: char) -> int {
    if (c as u32) < 0x80 {
        1
    } else if (c as u32) < 0x800 {
        2
    } else if (c as u32) < 0x10000 {
        3
    } else {
        4
    }
}

/// The number of UTF-8 bytes of `s` (`str::len`).
pub open spec fn utf8_len(s: Seq<char>) -> int
    decreases s.len(),
{
    if s.len() == 0 {
        0
    } else {
        utf8_len(s.drop_last()) + char_bytes(s.last())
    }
}

/// The sum, over the lines, of each line's byte length plus one: the offset
/// reached after the last line.
pub open spec fn offsets_total(ls: Seq<Seq<char>>) -> int
    decreases ls.len(),
{
    if ls.len() == 0 {
        0
    } else {
        utf8_len(ls[0]) + 1 + offsets_total(ls.drop_first())
    }
}

/// The offsets of the notes fit in an `i32`.
pub open spec fn offsets_fit(text: Seq<char>) -> bool {
    offsets_total(lines(text)) <= i32::MAX
}

/// The spans of the lines `ls`, the first of which starts at `offset`, each
/// line advancing the offset by its byte length plus one. A line that trims to
/// `#` is hidden and toggles large style; a line that starts with `>` has its
/// first character hidden and toggles code style; other lines take code
/// style inside a code block, else large style inside a `#` block.
pub open spec fn mark_scan(ls: Seq<Seq<char>>, offset: int, large: bool, code: bool) -> Seq<
    (SpanKind, int, int),
>
    decreases ls.len(),
{
    if ls.len() == 0 {
        Seq::empty()
    } else {
        let l = ls[0];
        let len = utf8_len(l);
        let next = offset + len + 1;
        let rest = ls.drop_first();
        if trim(l) == "#"@ {
            seq![(SpanKind::Hidden, offset, offset + len)] + mark_scan(rest, next, !large, code)
        } else if starts_with(l, ">"@) {
            seq![(SpanKind::HideFirstChar, offset, offset + 1)] + mark_scan(rest, next, large, !code)
        } else if code {
            seq![(SpanKind::Code, offset, offset + len)] + mark_scan(rest, next, large, code)
        } else if large {
            seq![(SpanKind::Large, offset, offset + len)] + mark_scan(rest, next, large, code)
        } else {
            mark_scan(rest, next, large, code)
        }
    }
}

/// The view of a span.
pub open spec fn span_view(s: Span) -> (SpanKind, int, int) {
    (s.kind, s.start as int, s.end as int)
}

/// The views of spans.
pub open spec fn span_views(v: Seq<Span>) -> Seq<(SpanKind, int, int)> {
    v.map_values(|s: Span| span_view(s))
}

/// The spans of the notes `text`.
pub open spec fn note_spans(text: Seq<char>) -> Seq<(SpanKind, int, int)> {
    mark_scan(lines(text), 0, false, false)
}

proof fn lemma_utf8_len_prefix(s: Seq<char>, k: int)
    requires
        0 <= k <= s.len(),
    ensures
        0 <= utf8_len(s.take(k)) <= utf8_len(s),
    decreases s.len(),
{
    if k == s.len() {
        assert(s.take(k) =~= s);
        lemma_utf8_len_nonneg(s);
    } else {
        assert(s.drop_last().take(k) =~= s.take(k));
        lemma_utf8_len_prefix(s.drop_last(), k);
    }
}

proof fn lemma_utf8_len_nonneg(s: Seq<char>)
    ensures
        utf8_len(s) >= 0,
    decreases s.len(),
{
    if s.len() > 0 {
        lemma_utf8_len_nonneg(s.drop_last());
    }
}

proof fn lemma_offsets_total_nonneg(ls: Seq<Seq<char>>)
    ensures
        offsets_total(ls) >= 0,
    decreases ls.len(),
{
    if ls.len() > 0 {
        lemma_utf8_len_nonneg(ls[0]);
        lemma_offsets_total_nonneg(ls.drop_first());
    }
}

/// The number of UTF-8 bytes of `v`, when it is at most `bound`.
fn line_bytes(v: &Vec<char>, bound: i32) -> (r: i32)
    requires
        utf8_len(v@) <= bound,
    ensures
        r == utf8_len(v@),
{
    let n = v.len();
    let mut acc: i32 = 0;
    for k in 0..n
        invariant
            n == v@.len(),
            utf8_len(v@) <= bound,
            acc == utf8_len(v@.take(k as int)),
    {
        proof {
            lemma_utf8_len_prefix(v@, k + 1);
            assert(v@.take(k + 1).drop_last() =~= v@.take(k as int));
        }
        let u = v[k] as u32;
        let b: i32 = if u < 0x80 {
            1
        } else if u < 0x800 {
            2
        } else if u < 0x10000 {
            3
        } else {
            4
        };
        acc = acc + b;
    }
    assert(v@.take(n as int) =~= v@);
    acc
}

/// Whether the offsets of the notes `text` fit in an `i32`.
pub fn marker_offsets_fit(text: &str) -> (r: bool)
    ensures
        r == offsets_fit(text@),
{
    let chars = chars_of(text);
    let ls = split_lines(&chars);
    let ghost lv = views(ls@);
    let n = ls.len();
    let mut total: i32 = 0;
    let mut i: usize = 0;
    assert(lv.skip(0) =~= lv);
    proof {
        lemma_offsets_total_nonneg(lv);
    }
    while i < n
        invariant
            n == ls@.len(),
            lv == views(ls@),
            lv == lines(text@),
            i <= n,
            0 <= total,
            total + offsets_total(lv.skip(i as int)) == offsets_total(lv),
        decreases n - i,
    {
        assert(lv[i as int] == ls@[i as int]@);
        assert(lv.skip(i as int)[0] == lv[i as int]);
        assert(lv.skip(i as int).drop_first() =~= lv.skip(i + 1));
        proof {
            lemma_offsets_total_nonneg(lv.skip(i + 1));
            lemma_utf8_len_nonneg(lv[i as int]);
        }
        let room = i32::MAX - total;
        if room < 1 || !utf8_len_at_most(&ls[i], room - 1) {
            return false;
        }
        let b = line_bytes(&ls[i], room - 1);
        total = total + b + 1;
        i += 1;
    }
    true
}

/// Whether `v` has at most `bound` UTF-8 bytes.
fn utf8_len_at_most(v: &Vec<char>, bound: i32) -> (r: bool)
    requires
        bound >= 0,
    ensures
        r == (utf8_len(v@) <= bound),
{
    let n = v.len();
    let mut acc: i32 = 0;
    for k in 0..n
        invariant
            n == v@.len(),
            bound >= 0,
            acc == utf8_len(v@.take(k as int)),
            acc <= bound,
    {
        assert(v@.take(k + 1).drop_last() =~= v@.take(k as int));
        let u = v[k] as u32;
        let b: i32 = if u < 0x80 {
            1
        } else if u < 0x800 {
            2
        } else if u < 0x10000 {
            3
        } else {
            4
        };
        if acc > bound - b {
            proof {
                lemma_utf8_len_prefix(v@, k + 1);
            }
            return false;
        }
        acc = acc + b;
    }
    assert(v@.take(n as int) =~= v@);
    true
}

/// The styled ranges of the marker notes `text`, line by line.
pub fn format_spans(text: &str) -> (r: Vec<Span>)
    requires
        offsets_fit(text@),
    ensures
        span_views(r@) == note_spans(text@),
{
    let chars = chars_of(text);
    let ls = split_lines(&chars);
    let ghost lv = views(ls@);
    let hash = chars_of("#");
    let marker = chars_of(">");
    let n = ls.len();
    let mut out: Vec<Span> = Vec::new();
    let mut offset: i32 = 0;
    let mut large = false;
    let mut code = false;
    let mut i: usize = 0;
    assert(lv.skip(0) =~= lv);
    assert(span_views(out@) + mark_scan(lv, 0, false, false) =~= mark_scan(lv, 0, false, false));
    while i < n
        invariant
            n == ls@.len(),
            lv == views(ls@),
            lv == lines(text@),
            hash@ == "#"@,
            marker@ == ">"@,
            i <= n,
            0 <= offset,
            offset + offsets_total(lv.skip(i as int)) == offsets_total(lv),
            offsets_total(lv) <= i32::MAX,
            mark_scan(lv, 0, false, false) == span_views(out@) + mark_scan(
                lv.skip(i as int),
                offset as int,
                large,
                code,
            ),
        decreases n - i,
    {
        let ghost before = span_views(out@);
        let ghost rest = lv.skip(i as int);
        assert(lv[i as int] == ls@[i as int]@);
        assert(rest[0] == lv[i as int]);
        assert(rest.drop_first() =~= lv.skip(i + 1));
        proof {
            lemma_offsets_total_nonneg(lv.skip(i + 1));
            lemma_utf8_len_nonneg(lv[i as int]);
        }
        let len = line_bytes(&ls[i], i32::MAX - offset - 1);
        let start = offset;
        let end = offset + len;
        let t = trim_chars(&ls[i]);
        let ghost tail = mark_scan(lv.skip(i + 1), (offset + len + 1) as int, large, code);
        if chars_eq(&t, &hash) {
            out.push(Span { kind: SpanKind::Hidden, start, end });
            large = !large;
        } else if crate::text::starts_with_exec(&ls[i], &marker) {
            assert(len >= 1) by {
                reveal_strlit(">");
                assert(ls@[i as int]@.len() >= 1);
                assert(ls@[i as int]@.subrange(0, 1) == ">"@);
                lemma_first_char_bytes(ls@[i as int]@);
            }
            out.push(Span { kind: SpanKind::HideFirstChar, start, end: start + 1 });
            code = !code;
        } else if code {
            out.push(Span { kind: SpanKind::Code, start, end });
        } else if large {
            out.push(Span { kind: SpanKind::Large, start, end });
        }
        proof {
            if out@.len() > before.len() {
                assert(span_views(out@) =~= before.push(span_view(out@[out@.len() - 1])));
                assert(span_views(out@) + mark_scan(lv.skip(i + 1), (offset + len + 1) as int, large, code)
                    =~= before + (seq![span_view(out@[out@.len() - 1])] + mark_scan(lv.skip(i + 1), (offset + len + 1) as int, large, code)));
            }
        }
        offset = offset + len + 1;
        i += 1;
    }
    assert(span_views(out@) + Seq::<(SpanKind, int, int)>::empty() =~= span_views(out@));
    out
}

proof fn lemma_first_char_bytes(s: Seq<char>)
    requires
        s.len() >= 1,
    ensures
        utf8_len(s) >= 1,
    decreases s.len(),
{
    lemma_utf8_len_nonneg(s.drop_last());
}

/// The spans of lines starting at `offset` lie between `offset` and the
/// offset after the last line, each starting no later than it ends, and each
/// ending before the next one starts.
pub proof fn law_spans_ordered(ls: Seq<Seq<char>>, offset: int, large: bool, code: bool)
    ensures
        ({
            let s = mark_scan(ls, offset, large, code);
            &&& forall|k: int|
                0 <= k < s.len() ==> offset <= #[trigger] s[k].1 <= s[k].2 < offset + offsets_total(ls)
            &&& forall|k: int, m: int| 0 <= k < m < s.len() ==> #[trigger] s[k].2 < #[trigger] s[m].1
        }),
    decreases ls.len(),
{
    if ls.len() > 0 {
        let l = ls[0];
        let len = utf8_len(l);
        let next = offset + len + 1;
        let rest = ls.drop_first();
        lemma_utf8_len_nonneg(l);
        lemma_offsets_total_nonneg(rest);
        let nl = if trim(l) == "#"@ { !large } else { large };
        let nc = if trim(l) != "#"@ && starts_with(l, ">"@) { !code } else { code };
        law_spans_ordered(rest, next, nl, nc);
        let tail = mark_scan(rest, next, nl, nc);
        let s = mark_scan(ls, offset, large, code);
        if trim(l) != "#"@ && starts_with(l, ">"@) {
            reveal_strlit(">");
            lemma_first_char_bytes(l);
        }
        if s.len() > tail.len() {
            assert(s =~= seq![s[0]] + tail);
            assert forall|k: int| 0 <= k < s.len() implies offset <= #[trigger] s[k].1 <= s[k].2 < offset
                + offsets_total(ls) by {
                if k > 0 {
                    assert(s[k] == tail[k - 1]);
                }
            }
            assert forall|k: int, m: int| 0 <= k < m < s.len() implies #[trigger] s[k].2 < #[trigger] s[m].1 by {
                assert(s[m] == tail[m - 1]);
                if k > 0 {
                    assert(s[k] == tail[k - 1]);
                }
            }
        } else {
            assert(s == tail);
        }
    }
}

/// Span `sp` lies on line `j` of lines starting at `offset`: it starts where
/// that line starts (after the bytes of the lines before it, one separator
/// each); hiding a marker covers the one `>` that begins the line; any other
/// style covers the whole line, in bytes.
pub open spec fn span_on_line(sp: (SpanKind, int, int), ls: Seq<Seq<char>>, offset: int, j: int) -> bool {
    &&& sp.1 == offset + offsets_total(ls.take(j))
    &&& if sp.0 == SpanKind::HideFirstChar {
        starts_with(ls[j], ">"@) && sp.2 == sp.1 + 1
    } else {
        sp.2 == sp.1 + utf8_len(ls[j])
    }
}

/// Span `sp` lies on one of the lines `ls` that start at `offset`.
pub open spec fn span_has_line(sp: (SpanKind, int, int), ls: Seq<Seq<char>>, offset: int) -> bool {
    exists|j: int| 0 <= j < ls.len() && #[trigger] span_on_line(sp, ls, offset, j)
}

proof fn lemma_offsets_total_shift(ls: Seq<Seq<char>>, j: int)
    requires
        0 <= j < ls.len(),
    ensures
        offsets_total(ls.take(j + 1)) == utf8_len(ls[0]) + 1 + offsets_total(ls.drop_first().take(j)),
{
    assert(ls.take(j + 1).drop_first() =~= ls.drop_first().take(j));
    assert(ls.take(j + 1)[0] == ls[0]);
}

/// Every span lies on one line: a hidden marker covers exactly the `>` that
/// begins its line, and every other span covers its whole line.
pub proof fn law_spans_on_lines(ls: Seq<Seq<char>>, offset: int, large: bool, code: bool)
    ensures
        forall|k: int|
            0 <= k < mark_scan(ls, offset, large, code).len() ==> span_has_line(
                #[trigger] mark_scan(ls, offset, large, code)[k],
                ls,
                offset,
            ),
    decreases ls.len(),
{
    if ls.len() > 0 {
        let l = ls[0];
        let len = utf8_len(l);
        let next = offset + len + 1;
        let rest = ls.drop_first();
        let nl = if trim(l) == "#"@ { !large } else { large };
        let nc = if trim(l) != "#"@ && starts_with(l, ">"@) { !code } else { code };
        law_spans_on_lines(rest, next, nl, nc);
        let tail = mark_scan(rest, next, nl, nc);
        let s = mark_scan(ls, offset, large, code);
        assert(ls.take(0) =~= Seq::<Seq<char>>::empty());
        let d = s.len() - tail.len();
        if s.len() > tail.len() {
            assert(s =~= seq![s[0]] + tail);
        } else {
            assert(s == tail);
        }
        assert forall|k: int| 0 <= k < s.len() implies span_has_line(#[trigger] s[k], ls, offset) by {
            if k < d {
                assert(span_on_line(s[k], ls, offset, 0));
            } else {
                assert(s[k] == tail[k - d]);
                assert(span_has_line(tail[k - d], rest, next));
                let j0 = choose|j: int| 0 <= j < rest.len() && #[trigger] span_on_line(tail[k - d], rest, next, j);
                lemma_offsets_total_shift(ls, j0);
                assert(rest[j0] == ls[j0 + 1]);
                assert(span_on_line(s[k], ls, offset, j0 + 1));
            }
        }
    }
}

} // verus!
