use alt::marker::{format_spans, marker_offsets_fit, Span, SpanKind};
use alt::quicklaunch::{parse_quick_launch, quick_launch_command, toggle_quick_launch};

#[test]
fn quick_launch_pairs() {
    let got = parse_quick_launch("Exec=firefox\nIcon=firefox\n\nIcon=term\nExec=alacritty\nExec=x");
    assert_eq!(
        got,
        vec![
            ("firefox".to_string(), "firefox".to_string()),
            ("alacritty".to_string(), "term".to_string()),
        ]
    );
    assert!(parse_quick_launch("").is_empty());
}

#[test]
fn digit_keys_pick_commands() {
    let cmds = vec!["a".to_string(), "b".to_string()];
    assert_eq!(quick_launch_command(&cmds, 1), Some("a".to_string()));
    assert_eq!(quick_launch_command(&cmds, 2), Some("b".to_string()));
    assert_eq!(quick_launch_command(&cmds, 3), None);
    assert_eq!(quick_launch_command(&cmds, 0), None);
}

#[test]
fn toggle_adds_then_removes() {
    let (added, removed) = toggle_quick_launch("Exec=a\nIcon=b", "firefox", "ff");
    assert!(!removed);
    assert_eq!(added, "Exec=a\nIcon=b\n\nExec=firefox\nIcon=ff");
    let (again, removed) = toggle_quick_launch(&added, "firefox", "ff");
    assert!(removed);
    assert_eq!(again, "Exec=a\nIcon=b\n");
    let (first, removed) = toggle_quick_launch("", "x", "y");
    assert!(!removed);
    assert_eq!(first, "\nExec=x\nIcon=y");
}

#[test]
fn toggle_needs_icon_right_after() {
    let (out, removed) = toggle_quick_launch("Exec=x\nIcon=z\nExec=x\nIcon=y\n", "x", "y");
    assert!(removed);
    assert_eq!(out, "Exec=x\nIcon=z");
}

#[test]
fn marker_spans() {
    let text = "#\nTitle\n#\n>\nlet x\n>\nplain";
    assert!(marker_offsets_fit(text));
    let spans = format_spans(text);
    assert_eq!(
        spans,
        vec![
            Span { kind: SpanKind::Hidden, start: 0, end: 1 },
            Span { kind: SpanKind::Large, start: 2, end: 7 },
            Span { kind: SpanKind::Hidden, start: 8, end: 9 },
            Span { kind: SpanKind::HideFirstChar, start: 10, end: 11 },
            Span { kind: SpanKind::Code, start: 12, end: 17 },
            Span { kind: SpanKind::HideFirstChar, start: 18, end: 19 },
        ]
    );
}

#[test]
fn marker_offsets_count_bytes() {
    // "é" is two bytes: the next line starts at byte offset 3 + 1.
    let spans = format_spans("#\né\n#\nx");
    assert_eq!(spans[1], Span { kind: SpanKind::Large, start: 2, end: 4 });
    assert_eq!(spans[2], Span { kind: SpanKind::Hidden, start: 5, end: 6 });
    assert!(format_spans("").is_empty());
}

#[test]
fn toggle_twice_gives_the_lines_back() {
    let existing = "Exec=a\r\nIcon=b\n";
    let (added, removed) = toggle_quick_launch(existing, "x", "y");
    assert!(!removed);
    let (back, removed) = toggle_quick_launch(&added, "x", "y");
    assert!(removed);
    let old: Vec<&str> = existing.lines().collect();
    let new: Vec<&str> = back.lines().collect();
    assert_eq!(old, new);
}
