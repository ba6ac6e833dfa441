//! What the search entry lists for its current text: the marker, the chat,
//! nothing, or the applications whose names match.

use vstd::prelude::*;
use crate::fuzzy::{
    ascii_lower, ascii_lowercase, fuzzy_match, is_subsequence, law_prefix_of_match,
    lemma_ascii_lowercase_concat, lowercase_is_ascii, str_lowercase,
};
use crate::text::{chars_of, starts_with, starts_with_exec};

verus! {

/// What the entry's text selects.
#[derive(Clone, Copy, PartialEq, Eq, Structural, Debug)]
pub enum Mode {
    /// Launching applications.
    App,
    /// Opening the marker notes.
    Notes,
    /// Chatting with the assistant.
    Ai,
    /// Nothing to list.
    Nothing,
}

/// The views of a sequence of strings.
pub open spec fn string_views(v: Seq<String>) -> Seq<Seq<char>> {
    v.map_values(|s: String| s@)
}

/// The views of `(name, path)` pairs.
pub open spec fn app_views(apps: Seq<(String, String)>) -> Seq<(Seq<char>, Seq<char>)> {
    apps.map_values(|a: (String, String)| (a.0@, a.1@))
}

/// The names of `(name, path)` pairs.
pub open spec fn names_of(apps: Seq<(Seq<char>, Seq<char>)>) -> Seq<Seq<char>> {
    apps.map_values(|a: (Seq<char>, Seq<char>)| a.0)
}

/// The paths of `(name, path)` pairs.
pub open spec fn paths_of(apps: Seq<(Seq<char>, Seq<char>)>) -> Seq<Seq<char>> {
    apps.map_values(|a: (Seq<char>, Seq<char>)| a.1)
}

/// Whether the pattern fuzzily matches an application's name.
pub open spec fn matches_name(pattern: Seq<char>) -> spec_fn((Seq<char>, Seq<char>)) -> bool {
    |a: (Seq<char>, Seq<char>)| is_subsequence(str_lowercase(pattern), str_lowercase(a.0))
}

/// The applications, in order, whose names the pattern fuzzily matches.
pub open spec fn matching_apps(pattern: Seq<char>, apps: Seq<(Seq<char>, Seq<char>)>) -> Seq<
    (Seq<char>, Seq<char>),
> {
    apps.filter(matches_name(pattern))
}

/// Every listed application is installed and its name matches the pattern;
/// every installed application whose name matches is listed.
pub proof fn law_listed_iff_matching(
    pattern: Seq<char>,
    apps: Seq<(Seq<char>, Seq<char>)>,
    a: (Seq<char>, Seq<char>),
)
    ensures
        matching_apps(pattern, apps).contains(a) <==> (apps.contains(a) && is_subsequence(
            str_lowercase(pattern),
            str_lowercase(a.0),
        )),
{
    let m = matching_apps(pattern, apps);
    if m.contains(a) {
        apps.lemma_filter_contains_rev(matches_name(pattern), a);
        let i = choose|i: int| 0 <= i < m.len() && m[i] == a;
        apps.lemma_filter_pred(matches_name(pattern), i);
    }
    if apps.contains(a) && is_subsequence(str_lowercase(pattern), str_lowercase(a.0)) {
        let i = choose|i: int| 0 <= i < apps.len() && apps[i] == a;
        apps.lemma_filter_contains(matches_name(pattern), i);
    }
}

proof fn lemma_matching_push(
    pattern: Seq<char>,
    s: Seq<(Seq<char>, Seq<char>)>,
    a: (Seq<char>, Seq<char>),
)
    ensures
        matching_apps(pattern, s.push(a)) == if is_subsequence(
            str_lowercase(pattern),
            str_lowercase(a.0),
        ) {
            matching_apps(pattern, s).push(a)
        } else {
            matching_apps(pattern, s)
        },
{
    reveal(Seq::filter);
    assert(s.push(a).drop_last() =~= s);
}

/// The text opens the marker (`~m...`).
pub open spec fn selects_notes(input: Seq<char>) -> bool {
    starts_with(input, "~m"@)
}

/// The text opens the chat (`!...`).
pub open spec fn selects_chat(input: Seq<char>) -> bool {
    starts_with(input, "!"@)
}

/// Whether listing `input` needs the installed applications.
pub fn needs_app_scan(input: &str) -> (r: bool)
    ensures
        r == !(selects_notes(input@) || selects_chat(input@)),
{
    let text = chars_of(input);
    let notes = chars_of("~m");
    let chat = chars_of("!");
    !(starts_with_exec(&text, &notes) || starts_with_exec(&text, &chat))
}

/// The mode, the labels and the paths that the entry shows for `input`,
/// given the installed applications as `(name, path)` pairs:
/// `~m...` opens the marker and `!...` the chat, each with one label and the
/// input as its path; `~` alone lists every application, `~` followed by
/// more lists nothing; any other text lists the applications whose names it
/// fuzzily matches.
pub fn lister(input: &str, apps: &Vec<(String, String)>) -> (r: (Mode, Vec<String>, Vec<String>))
    ensures
        selects_notes(input@) ==> r.0 == Mode::Notes && string_views(r.1@) == seq![
            "Open Marker"@,
        ] && string_views(r.2@) == seq![input@],
        !selects_notes(input@) && selects_chat(input@) ==> r.0 == Mode::Ai && string_views(r.1@)
            == seq!["Enter chat"@] && string_views(r.2@) == seq![input@],
        !selects_notes(input@) && !selects_chat(input@) && starts_with(input@, "~"@) ==> (if input@.len()
            > 1 {
            r.0 == Mode::Nothing && r.1@.len() == 0 && r.2@.len() == 0
        } else {
            r.0 == Mode::App && string_views(r.1@) == names_of(app_views(apps@)) && string_views(
                r.2@,
            ) == paths_of(app_views(apps@))
        }),
        !selects_notes(input@) && !selects_chat(input@) && !starts_with(input@, "~"@) ==> r.0
            == Mode::App && string_views(r.1@) == names_of(matching_apps(input@, app_views(apps@)))
            && string_views(r.2@) == paths_of(matching_apps(input@, app_views(apps@))),
{
    let text = chars_of(input);
    let notes = chars_of("~m");
    let chat = chars_of("!");
    let tilde = chars_of("~");
    if starts_with_exec(&text, &notes) {
        let labels = vec!["Open Marker".to_owned()];
        let paths = vec![input.to_owned()];
        assert(string_views(labels@) =~= seq!["Open Marker"@]);
        assert(string_views(paths@) =~= seq![input@]);
        return (Mode::Notes, labels, paths);
    }
    if starts_with_exec(&text, &chat) {
        let labels = vec!["Enter chat".to_owned()];
        let paths = vec![input.to_owned()];
        assert(string_views(labels@) =~= seq!["Enter chat"@]);
        assert(string_views(paths@) =~= seq![input@]);
        return (Mode::Ai, labels, paths);
    }
    let ghost av = app_views(apps@);
    let n = apps.len();
    let mut names: Vec<String> = Vec::new();
    let mut paths: Vec<String> = Vec::new();
    if starts_with_exec(&text, &tilde) {
        if text.len() > 1 {
            return (Mode::Nothing, names, paths);
        }
        for i in 0..n
            invariant
                n == apps@.len(),
                av == app_views(apps@),
                string_views(names@) == names_of(av.take(i as int)),
                string_views(paths@) == paths_of(av.take(i as int)),
        {
            let name = apps[i].0.clone();
            let path = apps[i].1.clone();
            assert(name@ == apps@[i as int].0@);
            assert(path@ == apps@[i as int].1@);
            let ghost old_names = names@;
            let ghost old_paths = paths@;
            names.push(name);
            paths.push(path);
            assert(string_views(names@) =~= string_views(old_names).push(apps@[i as int].0@));
            assert(string_views(paths@) =~= string_views(old_paths).push(apps@[i as int].1@));
            assert(av[i as int] == (apps@[i as int].0@, apps@[i as int].1@));
            assert(av.take(i + 1) =~= av.take(i as int).push(av[i as int]));
            assert(string_views(names@) =~= names_of(av.take(i + 1)));
            assert(string_views(paths@) =~= paths_of(av.take(i + 1)));
        }
        assert(av.take(n as int) =~= av);
        return (Mode::App, names, paths);
    }
    assert(av.take(0) =~= Seq::<(Seq<char>, Seq<char>)>::empty());
    proof {
        reveal(Seq::filter);
    }
    for i in 0..n
        invariant
            n == apps@.len(),
            av == app_views(apps@),
            string_views(names@) == names_of(matching_apps(input@, av.take(i as int))),
            string_views(paths@) == paths_of(matching_apps(input@, av.take(i as int))),
    {
        let ghost before = matching_apps(input@, av.take(i as int));
        assert(av[i as int] == (apps@[i as int].0@, apps@[i as int].1@));
        assert(av.take(i + 1) =~= av.take(i as int).push(av[i as int]));
        proof {
            lemma_matching_push(input@, av.take(i as int), av[i as int]);
        }
        if fuzzy_match(apps[i].0.as_str(), input) {
            let name = apps[i].0.clone();
            let path = apps[i].1.clone();
            assert(name@ == apps@[i as int].0@);
            assert(path@ == apps@[i as int].1@);
            let ghost old_names = names@;
            let ghost old_paths = paths@;
            names.push(name);
            paths.push(path);
            assert(string_views(names@) =~= string_views(old_names).push(apps@[i as int].0@));
            assert(string_views(paths@) =~= string_views(old_paths).push(apps@[i as int].1@));
            assert(string_views(names@) =~= names_of(before.push(av[i as int])));
            assert(string_views(paths@) =~= paths_of(before.push(av[i as int])));
        }
    }
    assert(av.take(n as int) =~= av);
    (Mode::App, names, paths)
}

proof fn lemma_filter_implied(
    apps: Seq<(Seq<char>, Seq<char>)>,
    p: spec_fn((Seq<char>, Seq<char>)) -> bool,
    q: spec_fn((Seq<char>, Seq<char>)) -> bool,
)
    requires
        forall|a: (Seq<char>, Seq<char>)| #[trigger] p(a) ==> q(a),
    ensures
        apps.filter(p) == apps.filter(q).filter(p),
    decreases apps.len(),
{
    reveal(Seq::filter);
    if apps.len() > 0 {
        lemma_filter_implied(apps.drop_last(), p, q);
        let fq = apps.drop_last().filter(q);
        if q(apps.last()) {
            assert(fq.push(apps.last()).drop_last() =~= fq);
        }
    }
}

/// When the lowercase of `p` begins the lowercase of `s`, the applications
/// listed for `s` are those listed for `p` that `s` also matches, in the
/// same order: a longer pattern only narrows the list.
pub proof fn law_longer_pattern_narrows(
    p: Seq<char>,
    s: Seq<char>,
    apps: Seq<(Seq<char>, Seq<char>)>,
)
    requires
        str_lowercase(p).len() <= str_lowercase(s).len(),
        str_lowercase(s).take(str_lowercase(p).len() as int) == str_lowercase(p),
    ensures
        matching_apps(s, apps) == matching_apps(p, apps).filter(matches_name(s)),
{
    assert forall|a: (Seq<char>, Seq<char>)| #[trigger] matches_name(s)(a) implies matches_name(p)(a) by {
        law_prefix_of_match(str_lowercase(s), str_lowercase(a.0), str_lowercase(p).len() as int);
    }
    lemma_filter_implied(apps, matches_name(s), matches_name(p));
}

/// Typing more ASCII characters only narrows the list: the applications
/// listed for `p + q` are those listed for `p` that `p + q` also matches.
pub proof fn law_typing_more_narrows(
    p: Seq<char>,
    q: Seq<char>,
    apps: Seq<(Seq<char>, Seq<char>)>,
)
    requires
        lowercase_is_ascii(p),
        lowercase_is_ascii(p + q),
    ensures
        matching_apps(p + q, apps) == matching_apps(p, apps).filter(matches_name(p + q)),
{
    lemma_ascii_lowercase_concat(p, q);
    assert(ascii_lowercase(p + q).take(ascii_lowercase(p).len() as int) =~= ascii_lowercase(p));
    law_longer_pattern_narrows(p, p + q, apps);
}

/// Texts equal up to ASCII case list the same applications, and a text
/// that does not start with `~` or `!` keeps that under a change of case.
pub proof fn law_ascii_case_blind(s: Seq<char>, t: Seq<char>, apps: Seq<(Seq<char>, Seq<char>)>)
    requires
        lowercase_is_ascii(s),
        lowercase_is_ascii(t),
        ascii_lowercase(s) == ascii_lowercase(t),
    ensures
        matching_apps(s, apps) == matching_apps(t, apps),
        !starts_with(s, "~"@) && !starts_with(s, "!"@) ==> !selects_notes(t) && !selects_chat(t)
            && !starts_with(t, "~"@),
{
    assert(matches_name(s) == matches_name(t));
    reveal_strlit("~");
    reveal_strlit("!");
    reveal_strlit("~m");
    assert(s.len() == t.len()) by {
        assert(ascii_lowercase(s).len() == s.len());
        assert(ascii_lowercase(t).len() == t.len());
    }
    if !starts_with(s, "~"@) && !starts_with(s, "!"@) && t.len() > 0 {
        assert(ascii_lowercase(s)[0] == ascii_lowercase(t)[0]);
        assert(s.subrange(0, 1) =~= seq![s[0]]);
        assert(t.subrange(0, 1) =~= seq![t[0]]);
        assert(s[0] != '~') by {
            if s[0] == '~' {
                assert(s.subrange(0, 1) =~= "~"@);
            }
        }
        assert(s[0] != '!') by {
            if s[0] == '!' {
                assert(s.subrange(0, 1) =~= "!"@);
            }
        }
        assert(ascii_lowercase(s)[0] == ascii_lower(s[0]));
        assert(ascii_lowercase(t)[0] == ascii_lower(t[0]));
        assert(t[0] != '~' && t[0] != '!');
        assert(!starts_with(t, "~"@)) by {
            if starts_with(t, "~"@) {
                assert(t.subrange(0, 1)[0] == "~"@[0]);
            }
        }
        assert(!starts_with(t, "!"@)) by {
            if starts_with(t, "!"@) {
                assert(t.subrange(0, 1)[0] == "!"@[0]);
            }
        }
        assert(!starts_with(t, "~m"@)) by {
            if starts_with(t, "~m"@) {
                assert(t.subrange(0, 2)[0] == "~m"@[0]);
            }
        }
    }
}

} // verus!
