//! Character-level text primitives with the meaning that std gives them:
//! whitespace, `trim`, `lines`, `split_whitespace`, `starts_with`,
//! `trim_start_matches` and pattern deletion, each stated over `Seq<char>`.

use vstd::prelude::*;

verus! {

/// Calls `String::push`. The contract claims that the new contents are the
/// old ones followed by `c`.
#[verifier::external_body]
fn push_char(s: &mut String, c: char)
    ensures
        final(s)@ == old(s)@.push(c),
{
    s.push(c);
}

/// The characters of `s`, in order.
pub fn chars_of(s: &str) -> (v: Vec<char>)
    ensures
        v@ == s@,
{
    let mut v: Vec<char> = Vec::new();
    for c in it: s.chars()
        invariant
            v@ == it.seq().take(it.index() as int),
    {
        v.push(c);
    }
    v
}

/// A `String` holding exactly the characters of `v`.
pub fn string_of(v: &Vec<char>) -> (s: String)
    ensures
        s@ == v@,
{
    let mut s = String::new();
    let n = v.len();
    for i in 0..n
        invariant
            n == v@.len(),
            s@ == v@.take(i as int),
    {
        push_char(&mut s, v[i]);
        assert(v@.take(i + 1) == v@.take(i as int).push(v@[i as int]));
    }
    assert(v@.take(n as int) == v@);
    s
}

/// The Unicode `White_Space` property, as `char::is_whitespace` tests it.
pub open spec fn is_ws(c: char) -> bool {
    ||| ('\t' <= c && c <= '\r')
    ||| c == ' '
    ||| c == '\u{85}'
    ||| c == '\u{a0}'
    ||| c == '\u{1680}'
    ||| ('\u{2000}' <= c && c <= '\u{200a}')
    ||| c == '\u{2028}'
    ||| c == '\u{2029}'
    ||| c == '\u{202f}'
    ||| c == '\u{205f}'
    ||| c == '\u{3000}'
}

/// Whether `c` is whitespace.
pub fn is_whitespace(c: char) -> (r: bool)
    ensures
        r == is_ws(c),
{
    ('\t' <= c && c <= '\r') || c == ' ' || c == '\u{85}' || c == '\u{a0}' || c == '\u{1680}'
        || ('\u{2000}' <= c && c <= '\u{200a}') || c == '\u{2028}' || c == '\u{2029}'
        || c == '\u{202f}' || c == '\u{205f}' || c == '\u{3000}'
}

/// `s` without its leading whitespace.
pub open spec fn trim_start(s: Seq<char>) -> Seq<char>
    decreases s.len(),
{
    if s.len() > 0 && is_ws(s[0]) {
        trim_start(s.drop_first())
    } else {
        s
    }
}

/// `s` without its trailing whitespace.
pub open spec fn trim_end(s: Seq<char>) -> Seq<char>
    decreases s.len(),
{
    if s.len() > 0 && is_ws(s.last()) {
        trim_end(s.drop_last())
    } else {
        s
    }
}

/// `s` without leading and trailing whitespace (`str::trim`).
pub open spec fn trim(s: Seq<char>) -> Seq<char> {
    trim_end(trim_start(s))
}

/// Whether `s` begins with `p`.
pub open spec fn starts_with(s: Seq<char>, p: Seq<char>) -> bool {
    p.len() <= s.len() && s.subrange(0, p.len() as int) == p
}

/// Whether `p` occurs in `s` at position `i`.
pub open spec fn occurs_at(s: Seq<char>, i: int, p: Seq<char>) -> bool {
    0 <= i && i + p.len() <= s.len() && s.subrange(i, i + p.len()) == p
}

/// `s` with every leading repetition of `p` removed (`str::trim_start_matches`).
pub open spec fn strip_all(s: Seq<char>, p: Seq<char>) -> Seq<char>
    decreases s.len(),
{
    if p.len() > 0 && starts_with(s, p) {
        strip_all(s.skip(p.len() as int), p)
    } else {
        s
    }
}

/// `s` with the leftmost non-overlapping occurrences of `p` deleted
/// (`str::replace(p, "")`).
pub open spec fn delete_all(s: Seq<char>, p: Seq<char>) -> Seq<char>
    decreases s.len(),
{
    if s.len() == 0 {
        s
    } else if p.len() > 0 && starts_with(s, p) {
        delete_all(s.skip(p.len() as int), p)
    } else {
        seq![s[0]] + delete_all(s.drop_first(), p)
    }
}

/// A copy of `v[lo..hi]`.
pub fn copy_range(v: &Vec<char>, lo: usize, hi: usize) -> (r: Vec<char>)
    requires
        lo <= hi <= v@.len(),
    ensures
        r@ == v@.subrange(lo as int, hi as int),
{
    let mut r: Vec<char> = Vec::new();
    let mut i = lo;
    while i < hi
        invariant
            lo <= i <= hi <= v@.len(),
            r@ == v@.subrange(lo as int, i as int),
        decreases hi - i,
    {
        r.push(v[i]);
        i += 1;
    }
    r
}

/// Whether two character vectors are equal.
pub fn chars_eq(a: &Vec<char>, b: &Vec<char>) -> (r: bool)
    ensures
        r == (a@ == b@),
{
    if a.len() != b.len() {
        return false;
    }
    let n = a.len();
    for i in 0..n
        invariant
            n == a@.len() == b@.len(),
            forall|j: int| 0 <= j < i ==> a@[j] == b@[j],
    {
        if a[i] != b[i] {
            return false;
        }
    }
    assert(a@ =~= b@);
    true
}

/// Whether `p` occurs in `s` at position `i`.
pub fn occurs_at_exec(s: &Vec<char>, i: usize, p: &Vec<char>) -> (r: bool)
    ensures
        r == occurs_at(s@, i as int, p@),
{
    if i > s.len() || p.len() > s.len() - i {
        return false;
    }
    let n = p.len();
    for k in 0..n
        invariant
            n == p@.len(),
            i + n <= s.len(),
            forall|j: int| 0 <= j < k ==> s@[i + j] == p@[j],
    {
        if s[i + k] != p[k] {
            assert(s@.subrange(i as int, i + n)[k as int] != p@[k as int]);
            return false;
        }
    }
    assert(s@.subrange(i as int, i + n) =~= p@);
    true
}

/// Whether `s` begins with `p`.
pub fn starts_with_exec(s: &Vec<char>, p: &Vec<char>) -> (r: bool)
    ensures
        r == starts_with(s@, p@),
{
    occurs_at_exec(s, 0, p)
}


/// `s` without its leading and trailing whitespace.
pub fn trim_chars(v: &Vec<char>) -> (r: Vec<char>)
    ensures
        r@ == trim(v@),
{
    let n = v.len();
    let mut i: usize = 0;
    assert(v@.skip(0) =~= v@);
    while i < n && is_whitespace(v[i])
        invariant
            i <= n == v@.len(),
            trim_start(v@) == trim_start(v@.skip(i as int)),
        decreases n - i,
    {
        assert(v@.skip(i as int).drop_first() =~= v@.skip(i + 1));
        i += 1;
    }
    assert(trim_start(v@.skip(i as int)) == v@.skip(i as int));
    let mut j: usize = n;
    while j > i && is_whitespace(v[j - 1])
        invariant
            i <= j <= n == v@.len(),
            trim(v@) == trim_end(v@.subrange(i as int, j as int)),
        decreases j,
    {
        assert(v@.subrange(i as int, j as int).drop_last() =~= v@.subrange(i as int, j - 1));
        j -= 1;
    }
    copy_range(v, i, j)
}

/// `s` with every leading repetition of `p` removed.
pub fn strip_all_exec(s: &Vec<char>, p: &Vec<char>) -> (r: Vec<char>)
    ensures
        r@ == strip_all(s@, p@),
{
    if p.len() == 0 {
        assert(s@.subrange(0, s@.len() as int) =~= s@);
        return copy_range(s, 0, s.len());
    }
    let mut i: usize = 0;
    let slen = s.len();
    assert(s@.skip(0) =~= s@);
    while occurs_at_exec(s, i, p)
        invariant
            slen == s@.len(),
            i <= s@.len(),
            p@.len() > 0,
            strip_all(s@, p@) == strip_all(s@.skip(i as int), p@),
        decreases s@.len() - i,
    {
        assert(s@.skip(i as int).subrange(0, p@.len() as int) =~= s@.subrange(i as int, i + p@.len()));
        assert(s@.skip(i as int).skip(p@.len() as int) =~= s@.skip(i + p@.len()));
        i += p.len();
    }
    assert(s@.skip(i as int).len() >= p@.len() ==> s@.skip(i as int).subrange(0, p@.len() as int) =~= s@.subrange(i as int, i + p@.len()));
    assert(s@.subrange(i as int, s@.len() as int) =~= s@.skip(i as int));
    copy_range(s, i, s.len())
}

/// `s` with the leftmost non-overlapping occurrences of `p` deleted.
pub fn delete_all_exec(s: &Vec<char>, p: &Vec<char>) -> (r: Vec<char>)
    ensures
        r@ == delete_all(s@, p@),
{
    let mut out: Vec<char> = Vec::new();
    let n = s.len();
    let mut i: usize = 0;
    assert(s@.skip(0) =~= s@);
    assert(out@ + delete_all(s@, p@) =~= delete_all(s@, p@));
    while i < n
        invariant
            i <= n == s@.len(),
            delete_all(s@, p@) == out@ + delete_all(s@.skip(i as int), p@),
        decreases n - i,
    {
        let ghost t = s@.skip(i as int);
        let ghost before = out@;
        assert(t.len() > 0);
        if p.len() > 0 && occurs_at_exec(s, i, p) {
            assert(t.subrange(0, p@.len() as int) =~= s@.subrange(i as int, i + p@.len()));
            assert(t.skip(p@.len() as int) =~= s@.skip(i + p@.len()));
            i += p.len();
        } else {
            assert(p@.len() <= t.len() ==> t.subrange(0, p@.len() as int) =~= s@.subrange(i as int, i + p@.len()));
            assert(t.drop_first() =~= s@.skip(i + 1));
            out.push(s[i]);
            assert(before + (seq![t[0]] + delete_all(t.drop_first(), p@)) =~= out@ + delete_all(s@.skip(i + 1), p@));
            i += 1;
        }
    }
    assert(s@.skip(n as int) =~= Seq::<char>::empty());
    assert(out@ + Seq::<char>::empty() =~= out@);
    out
}

/// The views of a sequence of character vectors.
pub open spec fn views(v: Seq<Vec<char>>) -> Seq<Seq<char>> {
    v.map_values(|x: Vec<char>| x@)
}

/// The pieces of `s` between its newline characters (always at least one).
pub open spec fn nl_pieces(s: Seq<char>) -> Seq<Seq<char>>
    decreases s.len(),
{
    if s.len() == 0 {
        seq![Seq::<char>::empty()]
    } else {
        let p = nl_pieces(s.drop_last());
        if s.last() == '\n' {
            p.push(Seq::<char>::empty())
        } else {
            p.update(p.len() - 1, p.last().push(s.last()))
        }
    }
}

/// `l` without one trailing carriage return.
pub open spec fn strip_cr(l: Seq<char>) -> Seq<char> {
    if l.len() > 0 && l.last() == '\r' {
        l.drop_last()
    } else {
        l
    }
}

/// `strip_cr` applied to every piece.
pub open spec fn strip_cr_all(p: Seq<Seq<char>>) -> Seq<Seq<char>> {
    p.map_values(|l: Seq<char>| strip_cr(l))
}

/// The lines of `s` as `str::lines` yields them: split at `'\n'`, a `'\r'`
/// right before a `'\n'` dropped, and no empty line after a final `'\n'`.
pub open spec fn lines(s: Seq<char>) -> Seq<Seq<char>> {
    let p = nl_pieces(s);
    let body = strip_cr_all(p.drop_last());
    if p.last().len() == 0 {
        body
    } else {
        body.push(p.last())
    }
}

pub proof fn lemma_nl_pieces_len(s: Seq<char>)
    ensures
        nl_pieces(s).len() >= 1,
    decreases s.len(),
{
    if s.len() > 0 {
        lemma_nl_pieces_len(s.drop_last());
    }
}

fn strip_cr_exec(l: Vec<char>) -> (r: Vec<char>)
    ensures
        r@ == strip_cr(l@),
{
    let mut l = l;
    if l.len() > 0 && l[l.len() - 1] == '\r' {
        l.pop();
    }
    l
}

/// The lines of `s` (`str::lines`).
pub fn split_lines(s: &Vec<char>) -> (r: Vec<Vec<char>>)
    ensures
        views(r@) == lines(s@),
{
    let mut done: Vec<Vec<char>> = Vec::new();
    let mut cur: Vec<char> = Vec::new();
    let n = s.len();
    assert(s@.take(0) =~= Seq::<char>::empty());
    assert(views(done@) =~= strip_cr_all(nl_pieces(s@.take(0)).drop_last()));
    for i in 0..n
        invariant
            n == s@.len(),
            nl_pieces(s@.take(i as int)).len() >= 1,
            views(done@) == strip_cr_all(nl_pieces(s@.take(i as int)).drop_last()),
            cur@ == nl_pieces(s@.take(i as int)).last(),
    {
        let c = s[i];
        let ghost p = nl_pieces(s@.take(i as int));
        assert(s@.take(i + 1).drop_last() =~= s@.take(i as int));
        assert(s@.take(i + 1).last() == c);
        if c == '\n' {
            let stripped = strip_cr_exec(cur);
            done.push(stripped);
            cur = Vec::new();
            assert(nl_pieces(s@.take(i + 1)) == p.push(Seq::<char>::empty()));
            assert(p.push(Seq::<char>::empty()).drop_last() =~= p);
            assert(strip_cr_all(p) =~= strip_cr_all(p.drop_last()).push(strip_cr(p.last())));
            assert(views(done@) =~= strip_cr_all(p));
        } else {
            cur.push(c);
            let ghost q = p.update(p.len() - 1, p.last().push(c));
            assert(nl_pieces(s@.take(i + 1)) == q);
            assert(q.drop_last() =~= p.drop_last());
        }
    }
    assert(s@.take(n as int) =~= s@);
    if cur.len() > 0 {
        done.push(cur);
        assert(views(done@) =~= lines(s@));
    }
    done
}

/// The pieces of `s` between its whitespace characters (always at least one).
pub open spec fn ws_pieces(s: Seq<char>) -> Seq<Seq<char>>
    decreases s.len(),
{
    if s.len() == 0 {
        seq![Seq::<char>::empty()]
    } else {
        let p = ws_pieces(s.drop_last());
        if is_ws(s.last()) {
            p.push(Seq::<char>::empty())
        } else {
            p.update(p.len() - 1, p.last().push(s.last()))
        }
    }
}

/// The non-empty pieces.
pub open spec fn nonempty_only(p: Seq<Seq<char>>) -> Seq<Seq<char>> {
    p.filter(|w: Seq<char>| w.len() > 0)
}

pub proof fn lemma_nonempty_only_push(p: Seq<Seq<char>>, w: Seq<char>)
    ensures
        nonempty_only(p.push(w)) == if w.len() > 0 {
            nonempty_only(p).push(w)
        } else {
            nonempty_only(p)
        },
{
    reveal(Seq::filter);
    assert(p.push(w).drop_last() =~= p);
}

/// The words of `s` as `str::split_whitespace` yields them.
pub open spec fn words(s: Seq<char>) -> Seq<Seq<char>> {
    nonempty_only(ws_pieces(s))
}

pub proof fn lemma_ws_pieces_len(s: Seq<char>)
    ensures
        ws_pieces(s).len() >= 1,
    decreases s.len(),
{
    if s.len() > 0 {
        lemma_ws_pieces_len(s.drop_last());
    }
}

/// The words of `s` (`str::split_whitespace`).
pub fn split_whitespace(s: &Vec<char>) -> (r: Vec<Vec<char>>)
    ensures
        views(r@) == words(s@),
{
    let mut done: Vec<Vec<char>> = Vec::new();
    let mut cur: Vec<char> = Vec::new();
    let n = s.len();
    assert(s@.take(0) =~= Seq::<char>::empty());
    assert(views(done@) =~= nonempty_only(ws_pieces(s@.take(0)).drop_last()));
    for i in 0..n
        invariant
            n == s@.len(),
            ws_pieces(s@.take(i as int)).len() >= 1,
            views(done@) == nonempty_only(ws_pieces(s@.take(i as int)).drop_last()),
            cur@ == ws_pieces(s@.take(i as int)).last(),
    {
        let c = s[i];
        let ghost p = ws_pieces(s@.take(i as int));
        assert(s@.take(i + 1).drop_last() =~= s@.take(i as int));
        assert(s@.take(i + 1).last() == c);
        if is_whitespace(c) {
            assert(ws_pieces(s@.take(i + 1)) == p.push(Seq::<char>::empty()));
            assert(p.push(Seq::<char>::empty()).drop_last() =~= p);
            assert(p.drop_last().push(p.last()) =~= p);
            proof {
                lemma_nonempty_only_push(p.drop_last(), p.last());
            }
            if cur.len() > 0 {
                done.push(cur);
                assert(views(done@) =~= nonempty_only(p));
            } else {
                assert(views(done@) =~= nonempty_only(p));
            }
            cur = Vec::new();
        } else {
            cur.push(c);
            let ghost q = p.update(p.len() - 1, p.last().push(c));
            assert(ws_pieces(s@.take(i + 1)) == q);
            assert(q.drop_last() =~= p.drop_last());
        }
    }
    assert(s@.take(n as int) =~= s@);
    let ghost p = ws_pieces(s@);
    assert(p.drop_last().push(p.last()) =~= p);
    proof {
        lemma_nonempty_only_push(p.drop_last(), p.last());
    }
    if cur.len() > 0 {
        done.push(cur);
    }
    assert(views(done@) =~= words(s@));
    done
}

/// The pieces of `list` joined with `sep` between consecutive pieces.
pub open spec fn join(list: Seq<Seq<char>>, sep: Seq<char>) -> Seq<char>
    decreases list.len(),
{
    if list.len() == 0 {
        Seq::<char>::empty()
    } else if list.len() == 1 {
        list[0]
    } else {
        join(list.drop_last(), sep) + sep + list.last()
    }
}

/// `list` joined with `sep` (`slice::join`).
pub fn join_exec(list: &Vec<Vec<char>>, sep: &Vec<char>) -> (r: Vec<char>)
    ensures
        r@ == join(views(list@), sep@),
{
    let mut out: Vec<char> = Vec::new();
    let n = list.len();
    assert(views(list@).take(0) =~= Seq::<Seq<char>>::empty());
    for i in 0..n
        invariant
            n == list@.len(),
            out@ == join(views(list@).take(i as int), sep@),
    {
        let ghost before = out@;
        if i > 0 {
            append_chars(&mut out, sep);
        }
        append_chars(&mut out, &list[i]);
        let ghost t = views(list@).take(i + 1);
        assert(t.drop_last() =~= views(list@).take(i as int));
        if i == 0 {
            assert(out@ =~= t[0]);
        } else {
            assert(out@ =~= before + sep@ + t.last());
        }
    }
    assert(views(list@).take(n as int) =~= views(list@));
    out
}

/// Appends the characters of `b` to `a`.
pub fn append_chars(a: &mut Vec<char>, b: &Vec<char>)
    ensures
        final(a)@ == old(a)@ + b@,
{
    let n = b.len();
    for i in 0..n
        invariant
            n == b@.len(),
            a@ == old(a)@ + b@.take(i as int),
    {
        a.push(b[i]);
        assert(old(a)@ + b@.take(i + 1) =~= (old(a)@ + b@.take(i as int)).push(b@[i as int]));
    }
    assert(b@.take(n as int) =~= b@);
}

/// `s` without leading and trailing whitespace (`str::trim`).
pub fn trim_text(s: &str) -> (r: String)
    ensures
        r@ == trim(s@),
{
    let v = chars_of(s);
    let t = trim_chars(&v);
    string_of(&t)
}

/// No character of `b` is a newline.
pub open spec fn no_newline(b: Seq<char>) -> bool {
    forall|k: int| 0 <= k < b.len() ==> b[k] != '\n'
}

/// Appending text without newlines extends the last piece.
pub proof fn lemma_nl_pieces_append(s: Seq<char>, b: Seq<char>)
    requires
        no_newline(b),
    ensures
        nl_pieces(s + b) == nl_pieces(s).update(
            nl_pieces(s).len() - 1,
            nl_pieces(s).last() + b,
        ),
    decreases b.len(),
{
    lemma_nl_pieces_len(s);
    if b.len() == 0 {
        assert(s + b =~= s);
        assert(nl_pieces(s).last() + b =~= nl_pieces(s).last());
        assert(nl_pieces(s).update(nl_pieces(s).len() - 1, nl_pieces(s).last()) =~= nl_pieces(s));
    } else {
        let b0 = b.drop_last();
        assert(no_newline(b0)) by {
            assert forall|k: int| 0 <= k < b0.len() implies b0[k] != '\n' by {
                assert(b0[k] == b[k]);
            }
        }
        lemma_nl_pieces_append(s, b0);
        assert((s + b).drop_last() =~= s + b0);
        assert((s + b).last() == b.last());
        assert(b.last() != '\n');
        let p = nl_pieces(s + b0);
        lemma_nl_pieces_len(s + b0);
        assert(p.last() == nl_pieces(s).last() + b0);
        assert(nl_pieces(s).last() + b0 + seq![b.last()] =~= nl_pieces(s).last() + b);
        assert(p.last().push(b.last()) =~= nl_pieces(s).last() + b);
        assert(p.len() == nl_pieces(s).len());
        assert(p.update(p.len() - 1, p.last().push(b.last())) =~= nl_pieces(s).update(
            nl_pieces(s).len() - 1,
            nl_pieces(s).last() + b,
        ));
    }
}

/// The pieces of lines joined with newlines are those lines.
pub proof fn lemma_nl_pieces_join(ls: Seq<Seq<char>>)
    requires
        ls.len() > 0,
        forall|k: int| 0 <= k < ls.len() ==> no_newline(#[trigger] ls[k]),
    ensures
        nl_pieces(join(ls, seq!['\n'])) == ls,
    decreases ls.len(),
{
    if ls.len() == 1 {
        lemma_nl_pieces_append(Seq::<char>::empty(), ls[0]);
        assert(Seq::<char>::empty() + ls[0] =~= ls[0]);
        assert(seq![Seq::<char>::empty()].update(0, Seq::<char>::empty() + ls[0]) =~= ls);
    } else {
        let a = ls.drop_last();
        assert forall|k: int| 0 <= k < a.len() implies no_newline(#[trigger] a[k]) by {
            assert(a[k] == ls[k]);
        }
        lemma_nl_pieces_join(a);
        let ja = join(a, seq!['\n']);
        assert(ja + seq!['\n'] =~= ja.push('\n'));
        assert((ja.push('\n')).drop_last() =~= ja);
        assert(nl_pieces(ja.push('\n')) == a.push(Seq::<char>::empty()));
        assert(no_newline(ls.last()));
        lemma_nl_pieces_append(ja.push('\n'), ls.last());
        assert(join(ls, seq!['\n']) =~= ja.push('\n') + ls.last());
        assert(Seq::<char>::empty() + ls.last() =~= ls.last());
        assert(a.push(Seq::<char>::empty()).update(a.len() as int, ls.last()) =~= ls);
    }
}

/// `s` does not end with a carriage return.
pub open spec fn no_trailing_cr(l: Seq<char>) -> bool {
    !(l.len() > 0 && l.last() == '\r')
}

/// No line holds a newline.
pub proof fn lemma_lines_no_newline(s: Seq<char>)
    ensures
        forall|k: int| 0 <= k < lines(s).len() ==> no_newline(#[trigger] lines(s)[k]),
{
    lemma_nl_pieces_no_newline(s);
    lemma_nl_pieces_len(s);
    let p = nl_pieces(s);
    assert forall|k: int| 0 <= k < lines(s).len() implies no_newline(#[trigger] lines(s)[k]) by {
        if k < p.len() - 1 {
            assert(lines(s)[k] == strip_cr(p[k]));
            assert(no_newline(p[k]));
            if p[k].len() > 0 && p[k].last() == '\r' {
                assert forall|m: int| 0 <= m < p[k].drop_last().len() implies p[k].drop_last()[m] != '\n' by {
                    assert(p[k].drop_last()[m] == p[k][m]);
                }
            }
        } else {
            assert(lines(s)[k] == p.last());
            assert(no_newline(p[p.len() - 1]));
        }
    }
}

proof fn lemma_nl_pieces_no_newline(s: Seq<char>)
    ensures
        forall|k: int| 0 <= k < nl_pieces(s).len() ==> no_newline(#[trigger] nl_pieces(s)[k]),
    decreases s.len(),
{
    if s.len() > 0 {
        lemma_nl_pieces_no_newline(s.drop_last());
        lemma_nl_pieces_len(s.drop_last());
        let p = nl_pieces(s.drop_last());
        if s.last() != '\n' {
            let q = nl_pieces(s);
            assert forall|k: int| 0 <= k < q.len() implies no_newline(#[trigger] q[k]) by {
                if k == p.len() - 1 {
                    assert(q[k] == p.last().push(s.last()));
                    assert(no_newline(p[k]));
                    assert forall|m: int| 0 <= m < q[k].len() implies q[k][m] != '\n' by {
                        if m < p[k].len() {
                            assert(q[k][m] == p[k][m]);
                        }
                    }
                } else {
                    assert(q[k] == p[k]);
                }
            }
        } else {
            let q = nl_pieces(s);
            assert forall|k: int| 0 <= k < q.len() implies no_newline(#[trigger] q[k]) by {
                if k < p.len() {
                    assert(q[k] == p[k]);
                } else {
                    assert(q[k] == Seq::<char>::empty());
                }
            }
        }
    }
}

/// Joining a piece that holds the separator is joining its two parts.
pub proof fn lemma_join_split_last(m: Seq<Seq<char>>, a: Seq<char>, b: Seq<char>, sep: Seq<char>)
    requires
        m.len() > 0,
    ensures
        join(m.push(a + sep + b), sep) == join(m.push(a).push(b), sep),
{
    let x = a + sep + b;
    assert(m.push(x).drop_last() =~= m);
    assert(m.push(a).push(b).drop_last() =~= m.push(a));
    assert(m.push(a).drop_last() =~= m);
    assert(m.push(x).last() == x);
    assert(m.push(a).push(b).last() == b);
    assert(m.push(a).last() == a);
    assert(join(m.push(x), sep) == join(m, sep) + sep + x);
    assert(join(m.push(a), sep) == join(m, sep) + sep + a);
    assert(join(m.push(a).push(b), sep) == join(m.push(a), sep) + sep + b);
    assert(join(m, sep) + sep + x =~= join(m, sep) + sep + a + sep + b);
}

/// The lines of pieces joined with newlines: every piece but the last loses
/// one trailing carriage return, and an empty last piece gives no line.
pub proof fn lemma_lines_of_join_any(ls: Seq<Seq<char>>)
    requires
        ls.len() > 0,
        forall|k: int| 0 <= k < ls.len() ==> no_newline(#[trigger] ls[k]),
    ensures
        lines(join(ls, seq!['\n'])) == if ls.last().len() == 0 {
            strip_cr_all(ls.drop_last())
        } else {
            strip_cr_all(ls.drop_last()).push(ls.last())
        },
{
    lemma_nl_pieces_join(ls);
}

/// Dropping trailing carriage returns adds no newline.
pub proof fn lemma_strip_cr_all_no_newline(ls: Seq<Seq<char>>)
    requires
        forall|k: int| 0 <= k < ls.len() ==> no_newline(#[trigger] ls[k]),
    ensures
        forall|k: int| 0 <= k < strip_cr_all(ls).len() ==> no_newline(#[trigger] strip_cr_all(ls)[k]),
{
    assert forall|k: int| 0 <= k < strip_cr_all(ls).len() implies no_newline(#[trigger] strip_cr_all(ls)[k]) by {
        let l = ls[k];
        assert(no_newline(l));
        if l.len() > 0 && l.last() == '\r' {
            assert forall|m: int| 0 <= m < l.drop_last().len() implies l.drop_last()[m] != '\n' by {
                assert(l.drop_last()[m] == l[m]);
            }
        }
    }
}

} // verus!
