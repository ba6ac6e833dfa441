//! The quick-launch list: its file of `Exec=` / `Icon=` pairs, the command a
//! digit key starts, and adding or removing an application.

use vstd::prelude::*;
use crate::text::{
    append_chars, chars_eq, chars_of, join, join_exec, lemma_join_split_last, lemma_lines_no_newline,
    lemma_lines_of_join_any, lemma_strip_cr_all_no_newline, lines, no_newline, no_trailing_cr,
    split_lines, starts_with, starts_with_exec, string_of, strip_all, strip_all_exec, strip_cr_all,
    views,
};

verus! {

/// The views of `(command, icon)` pairs.
pub open spec fn pair_views(v: Seq<(String, String)>) -> Seq<(Seq<char>, Seq<char>)> {
    v.map_values(|p: (String, String)| (p.0@, p.1@))
}

/// The `(command, icon)` pairs of a quick-launch file, read line by line: an
/// `Exec=` line sets the pending command and an `Icon=` line the pending icon
/// (each with every leading key removed); once both are set they form a pair
/// and both are cleared.
pub open spec fn ql_scan(
    ls: Seq<Seq<char>>,
    exec: Option<Seq<char>>,
    icon: Option<Seq<char>>,
) -> Seq<(Seq<char>, Seq<char>)>
    decreases ls.len(),
{
    if ls.len() == 0 {
        Seq::empty()
    } else {
        let l = ls[0];
        let e = if starts_with(l, "Exec="@) { Some(strip_all(l, "Exec="@)) } else { exec };
        let i = if !starts_with(l, "Exec="@) && starts_with(l, "Icon="@) {
            Some(strip_all(l, "Icon="@))
        } else {
            icon
        };
        if e is Some && i is Some {
            seq![(e->0, i->0)] + ql_scan(ls.drop_first(), None, None)
        } else {
            ql_scan(ls.drop_first(), e, i)
        }
    }
}

fn opt_string(o: &Option<Vec<char>>) -> (r: bool)
    ensures
        r == o is Some,
{
    match o {
        Some(_) => true,
        None => false,
    }
}

/// The `(command, icon)` pairs that a quick-launch file lists, in order.
pub fn parse_quick_launch(contents: &str) -> (r: Vec<(String, String)>)
    ensures
        pair_views(r@) == ql_scan(lines(contents@), None, None),
{
    let text = chars_of(contents);
    let ls = split_lines(&text);
    let ghost lv = views(ls@);
    let exec_key = chars_of("Exec=");
    let icon_key = chars_of("Icon=");
    let n = ls.len();
    let mut out: Vec<(String, String)> = Vec::new();
    let mut exec: Option<Vec<char>> = None;
    let mut icon: Option<Vec<char>> = None;
    let mut i: usize = 0;
    assert(lv.skip(0) =~= lv);
    assert(pair_views(out@) + ql_scan(lv, None, None) =~= ql_scan(lv, None, None));
    while i < n
        invariant
            n == ls@.len(),
            lv == views(ls@),
            exec_key@ == "Exec="@,
            icon_key@ == "Icon="@,
            i <= n,
            !(exec is Some && icon is Some),
            ql_scan(lv, None, None) == pair_views(out@) + ql_scan(
                lv.skip(i as int),
                crate::desktop::opt_view(exec),
                crate::desktop::opt_view(icon),
            ),
        decreases n - i,
    {
        let ghost before = out@;
        let ghost rest = lv.skip(i as int);
        assert(lv[i as int] == ls@[i as int]@);
        assert(rest[0] == lv[i as int]);
        assert(rest.drop_first() =~= lv.skip(i + 1));
        if starts_with_exec(&ls[i], &exec_key) {
            exec = Some(strip_all_exec(&ls[i], &exec_key));
        } else if starts_with_exec(&ls[i], &icon_key) {
            icon = Some(strip_all_exec(&ls[i], &icon_key));
        }
        if opt_string(&exec) && opt_string(&icon) {
            let e = exec.unwrap();
            let ic = icon.unwrap();
            let pair = (string_of(&e), string_of(&ic));
            out.push(pair);
            assert(pair_views(out@) =~= pair_views(before).push((e@, ic@)));
            assert(pair_views(out@) + ql_scan(lv.skip(i + 1), None, None) =~= pair_views(before) + (
            seq![(e@, ic@)] + ql_scan(lv.skip(i + 1), None, None)));
            exec = None;
            icon = None;
        }
        i += 1;
    }
    assert(pair_views(out@) + Seq::<(Seq<char>, Seq<char>)>::empty() =~= pair_views(out@));
    out
}

/// The command that digit key `digit` (1 to 9) starts: the `digit`-th one
/// of the list, if there is one.
pub fn quick_launch_command(commands: &Vec<String>, digit: usize) -> (r: Option<String>)
    ensures
        match r {
            Some(c) => 1 <= digit <= commands@.len() && c@ == commands@[digit - 1]@,
            None => !(1 <= digit <= commands@.len()),
        },
{
    if digit >= 1 && digit <= commands.len() {
        Some(commands[digit - 1].clone())
    } else {
        None
    }
}

/// The quick-launch line of a command.
pub open spec fn exec_line(exec: Seq<char>) -> Seq<char> {
    "Exec="@ + exec
}

/// The quick-launch line of an icon.
pub open spec fn icon_line(icon: Seq<char>) -> Seq<char> {
    "Icon="@ + icon
}

/// The entry written for a command and an icon.
pub open spec fn new_entry(exec: Seq<char>, icon: Seq<char>) -> Seq<char> {
    exec_line(exec) + seq!['\n'] + icon_line(icon)
}

/// Line `k` holds the command and line `k + 1` the icon.
pub open spec fn entry_at(ls: Seq<Seq<char>>, k: int, exec: Seq<char>, icon: Seq<char>) -> bool {
    0 <= k && k + 1 < ls.len() && ls[k] == exec_line(exec) && ls[k + 1] == icon_line(icon)
}

/// The lines without lines `k` and `k + 1`.
pub open spec fn without_pair(ls: Seq<Seq<char>>, k: int) -> Seq<Seq<char>> {
    ls.take(k) + ls.skip(k + 2)
}

/// Adds a command and its icon to the quick-launch file, or removes them when
/// they are there: returns the new contents and whether they were removed.
/// Removal takes out the first pair of lines `Exec=<exec>`, `Icon=<icon>`;
/// addition appends an empty line and the entry. Lines are joined with `\n`.
pub fn toggle_quick_launch(existing: &str, exec: &str, icon: &str) -> (r: (String, bool))
    ensures
        ({
            let ls = lines(existing@);
            &&& r.1 == exists|k: int| entry_at(ls, k, exec@, icon@)
            &&& r.1 ==> exists|k: int|
                {
                    &&& entry_at(ls, k, exec@, icon@)
                    &&& forall|j: int| 0 <= j < k ==> !entry_at(ls, j, exec@, icon@)
                    &&& r.0@ == join(without_pair(ls, k), seq!['\n'])
                }
            &&& !r.1 ==> r.0@ == join(
                ls.push(Seq::<char>::empty()).push(new_entry(exec@, icon@)),
                seq!['\n'],
            )
        }),
{
    let text = chars_of(existing);
    let ls = split_lines(&text);
    let ghost lv = views(ls@);
    let mut eline = chars_of("Exec=");
    let ev = chars_of(exec);
    append_chars(&mut eline, &ev);
    let mut iline = chars_of("Icon=");
    let iv = chars_of(icon);
    append_chars(&mut iline, &iv);
    let newline = vec!['\n'];
    assert(newline@ =~= seq!['\n']);
    let n = ls.len();
    let mut i: usize = 0;
    while i < n
        invariant
            n == ls@.len(),
            lv == views(ls@),
            lv == lines(existing@),
            eline@ == exec_line(exec@),
            iline@ == icon_line(icon@),
            newline@ == seq!['\n'],
            i <= n,
            forall|j: int| 0 <= j < i ==> !entry_at(lv, j, exec@, icon@),
        decreases n - i,
    {
        assert(lv[i as int] == ls@[i as int]@);
        if chars_eq(&ls[i], &eline) {
            if i + 1 < n && chars_eq(&ls[i + 1], &iline) {
                assert(lv[i + 1] == ls@[i + 1]@);
                assert(entry_at(lv, i as int, exec@, icon@));
                let mut kept: Vec<Vec<char>> = Vec::new();
                let mut j: usize = 0;
                while j < n
                    invariant
                        n == ls@.len(),
                        lv == views(ls@),
                        i + 1 < n,
                        j <= n,
                        views(kept@) == if j <= i {
                            lv.take(j as int)
                        } else if j <= i + 2 {
                            lv.take(i as int)
                        } else {
                            lv.take(i as int) + lv.subrange(i + 2, j as int)
                        },
                    decreases n - j,
                {
                    let ghost before = views(kept@);
                    if j < i || j > i + 1 {
                        let line = crate::text::copy_range(&ls[j], 0, ls[j].len());
                        assert(ls@[j as int]@.subrange(0, ls@[j as int]@.len() as int) =~= ls@[j as int]@);
                        assert(lv[j as int] == ls@[j as int]@);
                        kept.push(line);
                        assert(views(kept@) =~= before.push(lv[j as int]));
                    }
                    j += 1;
                    assert(lv.take(j as int) =~= lv.take(j - 1).push(lv[j - 1]));
                    assert(j > i + 2 ==> lv.subrange(i + 2, j as int) =~= lv.subrange(i + 2, j - 1).push(lv[j - 1]));
                    assert(j == i + 3 ==> lv.subrange(i + 2, j as int) =~= seq![lv[j - 1]]);
                }
                assert(lv.take(i as int) + lv.subrange(i + 2, n as int) =~= without_pair(lv, i as int));
                let joined = join_exec(&kept, &newline);
                return (string_of(&joined), true);
            }
        }
        assert(!entry_at(lv, i as int, exec@, icon@));
        i += 1;
    }
    let mut all: Vec<Vec<char>> = Vec::new();
    let mut j: usize = 0;
    while j < n
        invariant
            n == ls@.len(),
            lv == views(ls@),
            j <= n,
            views(all@) == lv.take(j as int),
        decreases n - j,
    {
        let line = crate::text::copy_range(&ls[j], 0, ls[j].len());
        assert(ls@[j as int]@.subrange(0, ls@[j as int]@.len() as int) =~= ls@[j as int]@);
        assert(lv[j as int] == ls@[j as int]@);
        let ghost before = views(all@);
        all.push(line);
        assert(views(all@) =~= before.push(lv[j as int]));
        assert(lv.take(j + 1) =~= lv.take(j as int).push(lv[j as int]));
        j += 1;
    }
    assert(lv.take(n as int) =~= lv);
    let mut entry = crate::text::copy_range(&eline, 0, eline.len());
    assert(eline@.subrange(0, eline@.len() as int) =~= eline@);
    append_chars(&mut entry, &newline);
    append_chars(&mut entry, &iline);
    let ghost before = views(all@);
    all.push(Vec::new());
    all.push(entry);
    assert(views(all@) =~= before.push(Seq::<char>::empty()).push(new_entry(exec@, icon@)));
    let joined = join_exec(&all, &newline);
    (string_of(&joined), false)
}

/// Toggling an application twice gives the old lines back: the first toggle
/// adds it after an empty line; reading the file again, the second finds it
/// there, and no earlier pair, and takes it out. The lines that come back are
/// the old ones, each without up to two trailing carriage returns (each
/// rewrite drops one from every line but the last); with no such carriage
/// returns they are the old lines exactly. This holds when the command and
/// icon hold no newline, the command's line does not end with a carriage
/// return, and the old lines hold the pair neither as they are nor once
/// their trailing carriage returns are dropped.
pub proof fn law_add_then_remove(existing: Seq<char>, exec: Seq<char>, icon: Seq<char>)
    requires
        !(exists|k: int| entry_at(lines(existing), k, exec, icon)),
        !(exists|k: int| entry_at(strip_cr_all(lines(existing)), k, exec, icon)),
        no_newline(exec),
        no_newline(icon),
        no_trailing_cr(exec_line(exec)),
    ensures
        ({
            let ls = lines(existing);
            let added = join(ls.push(Seq::<char>::empty()).push(new_entry(exec, icon)), seq!['\n']);
            let again = lines(added);
            let removed = join(without_pair(again, ls.len() + 1int), seq!['\n']);
            &&& again == strip_cr_all(ls).push(Seq::<char>::empty()).push(exec_line(exec)).push(
                icon_line(icon),
            )
            &&& entry_at(again, ls.len() + 1int, exec, icon)
            &&& forall|j: int| 0 <= j < ls.len() + 1 ==> !entry_at(again, j, exec, icon)
            &&& lines(removed) == strip_cr_all(strip_cr_all(ls))
            &&& (forall|k: int| 0 <= k < ls.len() ==> no_trailing_cr(#[trigger] ls[k])) ==> lines(
                removed,
            ) == ls
        }),
{
    reveal_strlit("Exec=");
    reveal_strlit("Icon=");
    let ls = lines(existing);
    let n = ls.len();
    let el = exec_line(exec);
    let il = icon_line(icon);
    let e = Seq::<char>::empty();
    let m = strip_cr_all(ls);
    let big = ls.push(e).push(el).push(il);
    lemma_join_split_last(ls.push(e), el, il, seq!['\n']);
    assert(new_entry(exec, icon) == el + seq!['\n'] + il);
    lemma_lines_no_newline(existing);
    assert(no_newline(el)) by {
        assert forall|k: int| 0 <= k < el.len() implies el[k] != '\n' by {
            if k >= 5 {
                assert(el[k] == exec[k - 5]);
            }
        }
    }
    assert(no_newline(il)) by {
        assert forall|k: int| 0 <= k < il.len() implies il[k] != '\n' by {
            if k >= 5 {
                assert(il[k] == icon[k - 5]);
            }
        }
    }
    assert forall|k: int| 0 <= k < big.len() implies no_newline(#[trigger] big[k]) by {
        if k < n {
            assert(big[k] == ls[k]);
        }
    }
    lemma_lines_of_join_any(big);
    assert(el.len() >= 5 && il.len() >= 5);
    assert(big.drop_last() =~= ls.push(e).push(el));
    assert(strip_cr_all(ls.push(e).push(el)) =~= m.push(e).push(el));
    let again = m.push(e).push(el).push(il);
    assert(lines(join(big, seq!['\n'])) == again);
    assert forall|j: int| 0 <= j < n + 1 implies !entry_at(again, j, exec, icon) by {
        if j < n - 1 {
            assert(again[j] == m[j]);
            assert(again[j + 1] == m[j + 1]);
            assert(!entry_at(m, j, exec, icon));
        } else if j == n - 1 {
            assert(again[j + 1] == e);
        } else {
            assert(again[j] == e);
        }
    }
    let kept = without_pair(again, n + 1int);
    assert(kept =~= m.push(e));
    lemma_strip_cr_all_no_newline(ls);
    assert forall|k: int| 0 <= k < kept.len() implies no_newline(#[trigger] kept[k]) by {
        if k < n {
            assert(kept[k] == m[k]);
        }
    }
    lemma_lines_of_join_any(kept);
    assert(kept.drop_last() =~= m);
    if forall|k: int| 0 <= k < ls.len() ==> no_trailing_cr(#[trigger] ls[k]) {
        assert(m =~= ls);
        assert(strip_cr_all(m) =~= ls);
    }
}

} // verus!
