use alt::desktop::{desktop_app_name, is_desktop_file_name, desktop_exec_icon, desktop_launch_plan, sanitize_command, LaunchPlan};
use alt::listing::{lister, needs_app_scan, Mode};

fn apps() -> Vec<(String, String)> {
    vec![
        ("Firefox".to_string(), "/usr/share/applications/firefox.desktop".to_string()),
        ("Files".to_string(), "/usr/share/applications/nautilus.desktop".to_string()),
        ("Terminal".to_string(), "/usr/share/applications/term.desktop".to_string()),
    ]
}

#[test]
fn lister_marker_and_chat() {
    let (mode, labels, paths) = lister("~m hello", &apps());
    assert_eq!(mode, Mode::Notes);
    assert_eq!(labels, vec!["Open Marker".to_string()]);
    assert_eq!(paths, vec!["~m hello".to_string()]);
    let (mode, labels, paths) = lister("!what", &apps());
    assert_eq!(mode, Mode::Ai);
    assert_eq!(labels, vec!["Enter chat".to_string()]);
    assert_eq!(paths, vec!["!what".to_string()]);
}

#[test]
fn lister_tilde() {
    let (mode, labels, paths) = lister("~", &apps());
    assert_eq!(mode, Mode::App);
    assert_eq!(labels, vec!["Firefox", "Files", "Terminal"]);
    assert_eq!(paths.len(), 3);
    let (mode, labels, paths) = lister("~x", &apps());
    assert_eq!(mode, Mode::Nothing);
    assert!(labels.is_empty() && paths.is_empty());
}

#[test]
fn lister_filters_by_fuzzy_name() {
    let (mode, labels, paths) = lister("fi", &apps());
    assert_eq!(mode, Mode::App);
    assert_eq!(labels, vec!["Firefox", "Files"]);
    assert_eq!(paths, vec!["/usr/share/applications/firefox.desktop", "/usr/share/applications/nautilus.desktop"]);
    let (_, labels, _) = lister("tml", &apps());
    assert_eq!(labels, vec!["Terminal"]);
    let (_, labels, _) = lister("", &apps());
    assert_eq!(labels.len(), 3);
}

#[test]
fn scan_needed_unless_marker_or_chat() {
    assert!(!needs_app_scan("~m"));
    assert!(!needs_app_scan("!x"));
    assert!(needs_app_scan("~"));
    assert!(needs_app_scan("fire"));
}

const FIREFOX: &str = "[Desktop Entry]\nName=Firefox\nExec=firefox %u\nIcon=firefox\nTerminal=false\n\n[Desktop Action new-window]\nName=New Window\nExec=firefox --new-window %u\n";

#[test]
fn app_name_of_desktop_entry() {
    assert_eq!(desktop_app_name(FIREFOX), Some("Firefox".to_string()));
    assert_eq!(desktop_app_name("[Desktop Entry]\nName=X\nNoDisplay=true\n"), None);
    assert_eq!(desktop_app_name("  Name=Outside\n[Desktop Entry]\n  Name=Name=Inside \r\n"), Some("Inside".to_string()));
    assert_eq!(desktop_app_name("[Other]\nName=Nope\n"), None);
}

#[test]
fn exec_and_icon_for_quick_launch() {
    assert_eq!(desktop_exec_icon(FIREFOX), Some(("firefox ".to_string(), "firefox".to_string())));
    assert_eq!(desktop_exec_icon("[Desktop Entry]\nExec=foo\n"), None);
    assert_eq!(
        desktop_exec_icon("[Desktop Entry]\nIcon=a\nExec=  run   --x  %F\n"),
        Some(("run --x ".to_string(), "a".to_string()))
    );
}

#[test]
fn sanitize_blanks_field_codes() {
    assert_eq!(sanitize_command("firefox %u"), "firefox ");
    assert_eq!(sanitize_command("  a  %f b "), "a  b");
    assert_eq!(sanitize_command("%U"), "");
    assert_eq!(sanitize_command(""), "");
}

#[test]
fn launch_plans() {
    match desktop_launch_plan(FIREFOX) {
        LaunchPlan::Spawn(c) => assert_eq!(c, "firefox "),
        _ => panic!("expected spawn"),
    }
    match desktop_launch_plan("[Desktop Entry]\nExec=htop %f\nTerminal= true \n") {
        LaunchPlan::InTerminal(c) => assert_eq!(c, "htop %f"),
        _ => panic!("expected terminal"),
    }
    assert!(matches!(desktop_launch_plan("[Desktop Entry]\nExec=%U\n"), LaunchPlan::EmptyCommand));
    assert!(matches!(desktop_launch_plan("[Desktop Entry]\nName=x\n"), LaunchPlan::NoExec));
    // a `Terminal=` key is read on the raw line, so indentation hides it
    match desktop_launch_plan("[Desktop Entry]\nExec=vim\n  Terminal=true\n") {
        LaunchPlan::Spawn(c) => assert_eq!(c, "vim"),
        _ => panic!("expected spawn"),
    }
}

#[test]
fn desktop_file_names() {
    assert!(is_desktop_file_name("firefox.desktop"));
    assert!(is_desktop_file_name("..desktop"));
    assert!(!is_desktop_file_name(".desktop"));
    assert!(!is_desktop_file_name("firefox.desktop.bak"));
    assert!(!is_desktop_file_name("desktop"));
}

#[test]
fn typing_more_narrows_the_list() {
    let (_, short, _) = lister("f", &apps());
    let (_, long, _) = lister("fi", &apps());
    let (_, longer, _) = lister("fir", &apps());
    assert_eq!(short, vec!["Firefox", "Files"]);
    assert_eq!(long, vec!["Firefox", "Files"]);
    assert_eq!(longer, vec!["Firefox"]);
}

#[test]
fn ascii_case_does_not_change_the_list() {
    let (_, lower, _) = lister("term", &apps());
    let (_, upper, _) = lister("TERM", &apps());
    let (_, mixed, _) = lister("TeRm", &apps());
    assert_eq!(lower, vec!["Terminal"]);
    assert_eq!(lower, upper);
    assert_eq!(lower, mixed);
}
