use alt::fuzzy::{fuzzy_match, is_subsequence_of};
use alt::markdown::strip_markdown_symbols;
use alt::text::trim_text;

#[test]
fn trim_removes_unicode_whitespace() {
    assert_eq!(trim_text("  hi there \n"), "hi there");
    assert_eq!(trim_text("\u{3000}\tkey\u{a0}"), "key");
    assert_eq!(trim_text("   "), "");
    assert_eq!(trim_text(""), "");
}

#[test]
fn strip_removes_markers() {
    assert_eq!(strip_markdown_symbols("**bold** and __under__ and *em* and `code`"), "bold and under and em and code");
    assert_eq!(strip_markdown_symbols("plain text_here"), "plain text_here");
    assert_eq!(strip_markdown_symbols("***"), "");
    assert_eq!(strip_markdown_symbols("___"), "_");
}

#[test]
fn strip_runs_in_order() {
    // "**" first, so the underscores around it meet and are removed next.
    assert_eq!(strip_markdown_symbols("_**_"), "");
    // "*" goes last but one, so underscores around it stay.
    assert_eq!(strip_markdown_symbols("_*_"), "__");
}

#[test]
fn strip_output_has_no_stars_or_ticks() {
    let out = strip_markdown_symbols("a*b**c`d``e***f");
    assert!(!out.contains('*'));
    assert!(!out.contains('`'));
    assert_eq!(out, "abcdef");
}

#[test]
fn fuzzy_matches_subsequence_ignoring_case() {
    assert!(fuzzy_match("Firefox", "ffx"));
    assert!(fuzzy_match("Firefox", "FIRE"));
    assert!(fuzzy_match("FIREFOX", "fire"));
    assert!(!fuzzy_match("Firefox", "xf"));
    assert!(!fuzzy_match("Files", "filesx"));
}

#[test]
fn fuzzy_empty_pattern_and_self() {
    assert!(fuzzy_match("Terminal", ""));
    assert!(fuzzy_match("", ""));
    assert!(!fuzzy_match("", "a"));
    assert!(fuzzy_match("GIMP Image Editor", "GIMP Image Editor"));
}

#[test]
fn subsequence_is_greedy_scan() {
    let p: Vec<char> = "ace".chars().collect();
    let t: Vec<char> = "abcde".chars().collect();
    assert!(is_subsequence_of(&p, &t));
    let q: Vec<char> = "aec".chars().collect();
    assert!(!is_subsequence_of(&q, &t));
    let e: Vec<char> = Vec::new();
    assert!(is_subsequence_of(&e, &e));
}

#[test]
fn fuzzy_matching_chains() {
    assert!(fuzzy_match("ffw", "fw"));
    assert!(fuzzy_match("Firefox Web", "ffw"));
    assert!(fuzzy_match("Firefox Web", "fw"));
    // a pattern longer than the text never matches
    assert!(!fuzzy_match("ab", "abc"));
}

#[test]
fn stripped_text_keeps_order() {
    let out = strip_markdown_symbols("`x` **y** _z_");
    let src: Vec<char> = "`x` **y** _z_".chars().collect();
    let kept: Vec<char> = out.chars().collect();
    assert!(is_subsequence_of(&kept, &src));
}

#[test]
fn pattern_split_and_text_extension() {
    assert!(fuzzy_match("Files Manager", "fm"));
    assert!(fuzzy_match("Files Manager", "f"));
    assert!(fuzzy_match("Files Manager", "m"));
    assert!(fuzzy_match("My Files Manager App", "fm"));
}

#[test]
fn strip_is_idempotent_without_underscore() {
    let once = strip_markdown_symbols("**a** *b* `c` ***d***");
    assert_eq!(strip_markdown_symbols(&once), once);
    let once = strip_markdown_symbols("_*_");
    assert_ne!(strip_markdown_symbols(&once), once);
}
