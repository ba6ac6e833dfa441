//! Reading `.desktop` entries: the name an application is listed under, the
//! command and icon kept for quick launch, and how a chosen entry is started.

use vstd::prelude::*;
use crate::text::{
    chars_eq, chars_of, copy_range, is_ws, join, join_exec, lines, occurs_at_exec, split_lines,
    split_whitespace, starts_with, starts_with_exec, string_of, strip_all, strip_all_exec, trim,
    trim_chars, trim_end, trim_start, views, words,
};

verus! {

/// The view of an optional character vector.
pub open spec fn opt_view(o: Option<Vec<char>>) -> Option<Seq<char>> {
    match o {
        Some(v) => Some(v@),
        None => None,
    }
}

/// Whether a trimmed line opens a section (`[...]`).
pub open spec fn opens_section(t: Seq<char>) -> bool {
    t.len() > 0 && t[0] == '['
}

/// A word that starts with `%` (a field code such as `%U`) becomes empty.
pub open spec fn mask_field_codes(ws: Seq<Seq<char>>) -> Seq<Seq<char>> {
    ws.map_values(|w: Seq<char>| if w.len() > 0 && w[0] == '%' { Seq::<char>::empty() } else { w })
}

/// The command of an `Exec=` value with its field codes blanked: its words,
/// each `%...` word replaced by the empty word, joined with single spaces.
pub open spec fn sanitized_command(s: Seq<char>) -> Seq<char> {
    join(mask_field_codes(words(s)), seq![' '])
}

/// The command of an `Exec=` value with its field codes blanked.
pub fn sanitize_command(command: &str) -> (r: String)
    ensures
        r@ == sanitized_command(command@),
{
    let v = chars_of(command);
    let s = sanitize_chars(&v);
    string_of(&s)
}

fn sanitize_chars(v: &Vec<char>) -> (r: Vec<char>)
    ensures
        r@ == sanitized_command(v@),
{
    let ws = split_whitespace(v);
    let mut masked: Vec<Vec<char>> = Vec::new();
    let n = ws.len();
    for i in 0..n
        invariant
            n == ws@.len(),
            views(masked@) == mask_field_codes(views(ws@)).take(i as int),
    {
        let w = &ws[i];
        let ghost before = views(masked@);
        assert(views(ws@)[i as int] == ws@[i as int]@);
        if w.len() > 0 && w[0] == '%' {
            masked.push(Vec::new());
        } else {
            masked.push(copy_range(w, 0, w.len()));
            assert(w@.subrange(0, w@.len() as int) =~= w@);
        }
        assert(views(masked@) =~= before.push(masked@[i as int]@));
        assert(mask_field_codes(views(ws@)).take(i + 1) =~= mask_field_codes(views(ws@)).take(i as int).push(mask_field_codes(views(ws@))[i as int]));
        assert(views(masked@) =~= mask_field_codes(views(ws@)).take(i + 1));
    }
    assert(mask_field_codes(views(ws@)).take(n as int) =~= mask_field_codes(views(ws@)));
    let space = vec![' '];
    assert(space@ =~= seq![' ']);
    join_exec(&masked, &space)
}

/// Whether a file name has the extension `desktop` as `Path::extension`
/// reads it: the name ends with `.desktop`, and that dot, the last one, is
/// not its first character.
pub open spec fn has_desktop_extension(name: Seq<char>) -> bool {
    name.len() > 8 && name.subrange(name.len() - 8, name.len() as int) == ".desktop"@
}

/// Whether a directory entry's file name marks a desktop file.
pub fn is_desktop_file_name(name: &str) -> (r: bool)
    ensures
        r == has_desktop_extension(name@),
{
    let v = chars_of(name);
    let suffix = chars_of(".desktop");
    proof {
        reveal_strlit(".desktop");
    }
    if v.len() <= 8 {
        return false;
    }
    occurs_at_exec(&v, v.len() - 8, &suffix)
}

/// The value of the `Name=` key that lists an application: the first `Name=`
/// line of the `[Desktop Entry]` section, with every leading `Name=` removed.
pub open spec fn name_scan(ls: Seq<Seq<char>>, in_entry: bool) -> Option<Seq<char>>
    decreases ls.len(),
{
    if ls.len() == 0 {
        None
    } else {
        let t = trim(ls[0]);
        let e = if opens_section(t) { t == "[Desktop Entry]"@ } else { in_entry };
        if e && starts_with(t, "Name="@) {
            Some(strip_all(t, "Name="@))
        } else {
            name_scan(ls.drop_first(), e)
        }
    }
}

/// Some line, once trimmed, is `NoDisplay=true`.
pub open spec fn hidden_entry(ls: Seq<Seq<char>>) -> bool {
    exists|i: int| 0 <= i < ls.len() && trim(ls[i]) == "NoDisplay=true"@
}

/// The name under which a desktop file's application is listed, or none when
/// the file hides it or names none.
pub open spec fn listed_name(content: Seq<char>) -> Option<Seq<char>> {
    if hidden_entry(lines(content)) {
        None
    } else {
        name_scan(lines(content), false)
    }
}

/// Only a line that trims to exactly `NoDisplay=true` hides an application:
/// adding any other line (`NoDisplay=false` among them) leaves a file hidden
/// or shown as it was, and adding that line hides it.
pub proof fn law_only_nodisplay_true_hides(ls: Seq<Seq<char>>, l: Seq<char>)
    ensures
        trim(l) != "NoDisplay=true"@ ==> hidden_entry(ls.push(l)) == hidden_entry(ls),
        trim(l) == "NoDisplay=true"@ ==> hidden_entry(ls.push(l)),
        hidden_entry(seq![l]) == (trim(l) == "NoDisplay=true"@),
{
    let m = ls.push(l);
    if hidden_entry(ls) {
        let i = choose|i: int| 0 <= i < ls.len() && trim(ls[i]) == "NoDisplay=true"@;
        assert(m[i] == ls[i]);
    }
    if hidden_entry(m) && trim(l) != "NoDisplay=true"@ {
        let i = choose|i: int| 0 <= i < m.len() && trim(m[i]) == "NoDisplay=true"@;
        assert(m[i] == ls[i]);
    }
    if trim(l) == "NoDisplay=true"@ {
        assert(m[ls.len() as int] == l);
    }
    if trim(l) == "NoDisplay=true"@ {
        assert(seq![l][0] == l);
    }
}

/// Once a name is found, lines added after it change nothing: a file keeps
/// the name it is listed under when a line that does not hide it is added.
pub proof fn law_name_kept_after_more_lines(ls: Seq<Seq<char>>, l: Seq<char>, in_entry: bool)
    requires
        name_scan(ls, in_entry) is Some,
    ensures
        name_scan(ls.push(l), in_entry) == name_scan(ls, in_entry),
        !hidden_entry(ls) && trim(l) != "NoDisplay=true"@ ==> !hidden_entry(ls.push(l)),
    decreases ls.len(),
{
    law_only_nodisplay_true_hides(ls, l);
    assert(ls.len() > 0);
    let t = trim(ls[0]);
    let e = if opens_section(t) { t == "[Desktop Entry]"@ } else { in_entry };
    assert(ls.push(l)[0] == ls[0]);
    assert(ls.push(l).drop_first() =~= ls.drop_first().push(l));
    if !(e && starts_with(t, "Name="@)) {
        law_name_kept_after_more_lines(ls.drop_first(), l, e);
    }
}

/// The name under which the application of a desktop file is listed:
/// `None` when a line reads `NoDisplay=true` or the `[Desktop Entry]`
/// section has no `Name=` line.
pub fn desktop_app_name(content: &str) -> (r: Option<String>)
    ensures
        match r {
            Some(name) => listed_name(content@) == Some(name@),
            None => listed_name(content@) is None,
        },
{
    let text = chars_of(content);
    let ls = split_lines(&text);
    let ghost lv = views(ls@);
    let no_display = chars_of("NoDisplay=true");
    let entry = chars_of("[Desktop Entry]");
    let name_key = chars_of("Name=");
    let n = ls.len();
    for i in 0..n
        invariant
            n == ls@.len(),
            lv == views(ls@),
            no_display@ == "NoDisplay=true"@,
            lv == lines(content@),
            forall|j: int| 0 <= j < i ==> trim(lv[j]) != "NoDisplay=true"@,
    {
        let t = trim_chars(&ls[i]);
        assert(lv[i as int] == ls@[i as int]@);
        if chars_eq(&t, &no_display) {
            assert(trim(lv[i as int]) == "NoDisplay=true"@);
            assert(hidden_entry(lv));
            return None;
        }
    }
    assert(!hidden_entry(lv));
    let mut in_entry = false;
    let mut i: usize = 0;
    assert(lv.skip(0) =~= lv);
    while i < n
        invariant
            n == ls@.len(),
            lv == views(ls@),
            entry@ == "[Desktop Entry]"@,
            name_key@ == "Name="@,
            lv == lines(content@),
            !hidden_entry(lv),
            i <= n,
            name_scan(lv, false) == name_scan(lv.skip(i as int), in_entry),
        decreases n - i,
    {
        let t = trim_chars(&ls[i]);
        assert(lv[i as int] == ls@[i as int]@);
        assert(lv.skip(i as int)[0] == lv[i as int]);
        assert(lv.skip(i as int).drop_first() =~= lv.skip(i + 1));
        if t.len() > 0 && t[0] == '[' {
            in_entry = chars_eq(&t, &entry);
        }
        if in_entry && starts_with_exec(&t, &name_key) {
            let name = strip_all_exec(&t, &name_key);
            return Some(string_of(&name));
        }
        i += 1;
    }
    None
}

/// The command and icon that quick launch keeps for a desktop file: the last
/// `Exec=` and `Icon=` lines of its `[Desktop Entry]` section, the command
/// with its field codes blanked.
pub open spec fn exec_icon_scan(
    ls: Seq<Seq<char>>,
    in_entry: bool,
    exec: Option<Seq<char>>,
    icon: Option<Seq<char>>,
) -> (Option<Seq<char>>, Option<Seq<char>>)
    decreases ls.len(),
{
    if ls.len() == 0 {
        (exec, icon)
    } else {
        let t = trim(ls[0]);
        let rest = ls.drop_first();
        if opens_section(t) {
            exec_icon_scan(rest, t == "[Desktop Entry]"@, exec, icon)
        } else if in_entry && starts_with(t, "Exec="@) {
            exec_icon_scan(rest, in_entry, Some(sanitized_command(strip_all(t, "Exec="@))), icon)
        } else if in_entry && starts_with(t, "Icon="@) {
            exec_icon_scan(rest, in_entry, exec, Some(strip_all(t, "Icon="@)))
        } else {
            exec_icon_scan(rest, in_entry, exec, icon)
        }
    }
}

/// The command and icon of a desktop file, when it has both.
pub open spec fn quick_launch_entry(content: Seq<char>) -> Option<(Seq<char>, Seq<char>)> {
    match exec_icon_scan(lines(content), false, None, None) {
        (Some(e), Some(i)) => Some((e, i)),
        _ => None,
    }
}

/// The command (field codes blanked) and the icon that quick launch keeps for
/// a desktop file, or `None` when its `[Desktop Entry]` section lacks either.
pub fn desktop_exec_icon(content: &str) -> (r: Option<(String, String)>)
    ensures
        match r {
            Some((e, i)) => quick_launch_entry(content@) == Some((e@, i@)),
            None => quick_launch_entry(content@) is None,
        },
{
    let text = chars_of(content);
    let ls = split_lines(&text);
    let ghost lv = views(ls@);
    let entry = chars_of("[Desktop Entry]");
    let exec_key = chars_of("Exec=");
    let icon_key = chars_of("Icon=");
    let n = ls.len();
    let mut in_entry = false;
    let mut exec: Option<Vec<char>> = None;
    let mut icon: Option<Vec<char>> = None;
    let mut i: usize = 0;
    assert(lv.skip(0) =~= lv);
    while i < n
        invariant
            n == ls@.len(),
            lv == views(ls@),
            entry@ == "[Desktop Entry]"@,
            exec_key@ == "Exec="@,
            icon_key@ == "Icon="@,
            i <= n,
            exec_icon_scan(lv, false, None, None) == exec_icon_scan(
                lv.skip(i as int),
                in_entry,
                opt_view(exec),
                opt_view(icon),
            ),
        decreases n - i,
    {
        let t = trim_chars(&ls[i]);
        assert(lv[i as int] == ls@[i as int]@);
        assert(lv.skip(i as int)[0] == lv[i as int]);
        assert(lv.skip(i as int).drop_first() =~= lv.skip(i + 1));
        if t.len() > 0 && t[0] == '[' {
            in_entry = chars_eq(&t, &entry);
        } else if in_entry && starts_with_exec(&t, &exec_key) {
            let raw = strip_all_exec(&t, &exec_key);
            exec = Some(sanitize_chars(&raw));
        } else if in_entry && starts_with_exec(&t, &icon_key) {
            icon = Some(strip_all_exec(&t, &icon_key));
        }
        i += 1;
    }
    assert(lv.skip(n as int).len() == 0);
    match (exec, icon) {
        (Some(e), Some(ic)) => Some((string_of(&e), string_of(&ic))),
        _ => None,
    }
}

/// The command of a desktop file and whether it asks for a terminal: the last
/// `Exec=` line of its `[Desktop Entry]` section (trimmed, every leading
/// `Exec=` removed) and the last `Terminal=` line of that section, which asks
/// for one when its value, trimmed, is `true`.
pub open spec fn launch_scan(
    ls: Seq<Seq<char>>,
    in_entry: bool,
    exec: Option<Seq<char>>,
    terminal: bool,
) -> (Option<Seq<char>>, bool)
    decreases ls.len(),
{
    if ls.len() == 0 {
        (exec, terminal)
    } else {
        let l = ls[0];
        let t = trim(l);
        let rest = ls.drop_first();
        if opens_section(t) {
            launch_scan(rest, t == "[Desktop Entry]"@, exec, terminal)
        } else if in_entry && starts_with(t, "Exec="@) {
            launch_scan(rest, in_entry, Some(strip_all(t, "Exec="@)), terminal)
        } else if in_entry && starts_with(l, "Terminal="@) {
            launch_scan(rest, in_entry, exec, trim(strip_all(l, "Terminal="@)) == "true"@)
        } else {
            launch_scan(rest, in_entry, exec, terminal)
        }
    }
}

/// Whether the terminal is asked for, reading only section headers and
/// `Terminal=` lines: in the `[Desktop Entry]` section, the last raw line
/// that starts with `Terminal=` decides, by whether its value, trimmed, is
/// `true`.
pub open spec fn terminal_scan(ls: Seq<Seq<char>>, in_entry: bool, terminal: bool) -> bool
    decreases ls.len(),
{
    if ls.len() == 0 {
        terminal
    } else {
        let l = ls[0];
        let t = trim(l);
        let rest = ls.drop_first();
        if opens_section(t) {
            terminal_scan(rest, t == "[Desktop Entry]"@, terminal)
        } else if in_entry && starts_with(l, "Terminal="@) {
            terminal_scan(rest, in_entry, trim(strip_all(l, "Terminal="@)) == "true"@)
        } else {
            terminal_scan(rest, in_entry, terminal)
        }
    }
}

proof fn lemma_trim_keeps_first(s: Seq<char>)
    requires
        s.len() > 0,
        !is_ws(s[0]),
    ensures
        trim(s).len() > 0,
        trim(s)[0] == s[0],
{
    assert(trim_start(s) == s);
    lemma_trim_end_keeps_first(s);
}

proof fn lemma_trim_end_keeps_first(s: Seq<char>)
    requires
        s.len() > 0,
        !is_ws(s[0]),
    ensures
        trim_end(s).len() > 0,
        trim_end(s)[0] == s[0],
    decreases s.len(),
{
    if is_ws(s.last()) {
        assert(s.len() > 1);
        assert(s.drop_last()[0] == s[0]);
        lemma_trim_end_keeps_first(s.drop_last());
    }
}

/// Exec= lines, wherever they stand, never change whether the terminal is
/// asked for: that depends on the section headers and `Terminal=` lines
/// alone, so a `Terminal=true` before or after the `Exec=` line asks for it
/// all the same.
pub proof fn law_terminal_ignores_exec(
    ls: Seq<Seq<char>>,
    in_entry: bool,
    exec: Option<Seq<char>>,
    terminal: bool,
)
    ensures
        launch_scan(ls, in_entry, exec, terminal).1 == terminal_scan(ls, in_entry, terminal),
    decreases ls.len(),
{
    if ls.len() > 0 {
        let l = ls[0];
        let t = trim(l);
        let rest = ls.drop_first();
        if starts_with(l, "Terminal="@) {
            reveal_strlit("Terminal=");
            reveal_strlit("Exec=");
            assert(l[0] == 'T') by {
                assert(l.subrange(0, 9)[0] == l[0]);
            }
            lemma_trim_keeps_first(l);
            if starts_with(t, "Exec="@) {
                assert(t.subrange(0, 5)[0] == t[0]);
            }
        }
        if opens_section(t) {
            law_terminal_ignores_exec(rest, t == "[Desktop Entry]"@, exec, terminal);
        } else if in_entry && starts_with(t, "Exec="@) {
            law_terminal_ignores_exec(rest, in_entry, Some(strip_all(t, "Exec="@)), terminal);
        } else if in_entry && starts_with(l, "Terminal="@) {
            law_terminal_ignores_exec(
                rest,
                in_entry,
                exec,
                trim(strip_all(l, "Terminal="@)) == "true"@,
            );
        } else {
            law_terminal_ignores_exec(rest, in_entry, exec, terminal);
        }
    }
}

/// How the application of a desktop file is started.
pub enum LaunchPlan {
    /// Run this command in the embedded terminal.
    InTerminal(String),
    /// Spawn this command (field codes blanked) and leave.
    Spawn(String),
    /// The command is empty once its field codes are blanked.
    EmptyCommand,
    /// The `[Desktop Entry]` section has no `Exec=` line.
    NoExec,
}

/// How a desktop file's application is started: in the terminal with its raw
/// command when it asks for a terminal, else spawned with its field codes
/// blanked, unless that leaves nothing.
pub fn desktop_launch_plan(content: &str) -> (r: LaunchPlan)
    ensures
        ({
            let (exec, terminal) = launch_scan(lines(content@), false, None, false);
            match r {
                LaunchPlan::InTerminal(c) => exec == Some(c@) && terminal,
                LaunchPlan::Spawn(c) => exec is Some && !terminal && c@ == sanitized_command(
                    exec->0,
                ) && c@.len() > 0,
                LaunchPlan::EmptyCommand => exec is Some && !terminal && sanitized_command(
                    exec->0,
                ).len() == 0,
                LaunchPlan::NoExec => exec is None,
            }
        }),
{
    let text = chars_of(content);
    let ls = split_lines(&text);
    let ghost lv = views(ls@);
    let entry = chars_of("[Desktop Entry]");
    let exec_key = chars_of("Exec=");
    let term_key = chars_of("Terminal=");
    let yes = chars_of("true");
    let n = ls.len();
    let mut in_entry = false;
    let mut exec: Option<Vec<char>> = None;
    let mut terminal = false;
    let mut i: usize = 0;
    assert(lv.skip(0) =~= lv);
    while i < n
        invariant
            n == ls@.len(),
            lv == views(ls@),
            entry@ == "[Desktop Entry]"@,
            exec_key@ == "Exec="@,
            term_key@ == "Terminal="@,
            yes@ == "true"@,
            i <= n,
            launch_scan(lv, false, None, false) == launch_scan(
                lv.skip(i as int),
                in_entry,
                opt_view(exec),
                terminal,
            ),
        decreases n - i,
    {
        let t = trim_chars(&ls[i]);
        assert(lv[i as int] == ls@[i as int]@);
        assert(lv.skip(i as int)[0] == lv[i as int]);
        assert(lv.skip(i as int).drop_first() =~= lv.skip(i + 1));
        if t.len() > 0 && t[0] == '[' {
            in_entry = chars_eq(&t, &entry);
        } else if in_entry && starts_with_exec(&t, &exec_key) {
            exec = Some(strip_all_exec(&t, &exec_key));
        } else if in_entry && starts_with_exec(&ls[i], &term_key) {
            let value = strip_all_exec(&ls[i], &term_key);
            let tv = trim_chars(&value);
            terminal = chars_eq(&tv, &yes);
        }
        i += 1;
    }
    assert(lv.skip(n as int).len() == 0);
    match exec {
        None => LaunchPlan::NoExec,
        Some(e) => {
            if terminal {
                LaunchPlan::InTerminal(string_of(&e))
            } else {
                let s = sanitize_chars(&e);
                if s.len() > 0 {
                    LaunchPlan::Spawn(string_of(&s))
                } else {
                    LaunchPlan::EmptyCommand
                }
            }
        },
    }
}

} // verus!
