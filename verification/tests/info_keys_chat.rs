use alt::chat::{chat_command, command_from_lowercase, note_entry, ChatCommand, ChatHistory, ChatRole};
use alt::info::{
    battery_markup, battery_mood, battery_style, info_flag, info_revealed, parse_capacity,
    reply_scroller_height, typing_frame, BatteryMood, InfoFlag,
};
use alt::keys::{alt_fallback, key_number, select_next, select_previous, AltFallback};
use alt::listing::Mode;

#[test]
fn flags() {
    assert_eq!(info_flag("~t"), InfoFlag::Time);
    assert_eq!(info_flag("~b"), InfoFlag::Battery);
    assert_eq!(info_flag("`"), InfoFlag::Help);
    assert_eq!(info_flag("!"), InfoFlag::AskAi);
    assert_eq!(info_flag("~tt"), InfoFlag::Hint);
    assert!(info_revealed(""));
    assert!(info_revealed("~b"));
    assert!(!info_revealed("fire"));
}

#[test]
fn battery_moods_and_boundaries() {
    assert_eq!(battery_mood(95), BatteryMood::Nirvana);
    assert_eq!(battery_mood(81), BatteryMood::Nirvana);
    assert_eq!(battery_mood(80), BatteryMood::Depleted);
    assert_eq!(battery_mood(60), BatteryMood::Harmony);
    assert_eq!(battery_mood(50), BatteryMood::Depleted);
    assert_eq!(battery_mood(30), BatteryMood::Border);
    assert_eq!(battery_mood(20), BatteryMood::Depleted);
    assert_eq!(battery_mood(5), BatteryMood::Depleted);
}

#[test]
fn battery_report() {
    assert_eq!(battery_markup("85", BatteryMood::Nirvana), "Battery capacity, 85%\n<i>\"At battery nirvana.\"</i>");
    assert_eq!(battery_markup("30", BatteryMood::Border), "Battery capacity, 30%\n<i>\"The border of zone efficiency.\"</i>");
    assert_eq!(battery_style(BatteryMood::Harmony), Some("batg".to_string()));
    assert_eq!(battery_style(BatteryMood::Depleted), Some("batb".to_string()));
    assert_eq!(battery_style(BatteryMood::Border), None);
}

#[test]
fn capacity_parsing() {
    assert_eq!(parse_capacity("85"), Some(85));
    assert_eq!(parse_capacity("+7"), Some(7));
    assert_eq!(parse_capacity("007"), Some(7));
    assert_eq!(parse_capacity("18446744073709551615"), Some(u64::MAX));
    assert_eq!(parse_capacity("18446744073709551616"), None);
    assert_eq!(parse_capacity(""), None);
    assert_eq!(parse_capacity("+"), None);
    assert_eq!(parse_capacity("-1"), None);
    assert_eq!(parse_capacity("8 5"), None);
}

#[test]
fn typing_frames() {
    let chars: Vec<char> = "héllo".chars().collect();
    assert_eq!(typing_frame(&chars, 0), Some("h".to_string()));
    assert_eq!(typing_frame(&chars, 1), Some("hé".to_string()));
    assert_eq!(typing_frame(&chars, 4), Some("héllo".to_string()));
    assert_eq!(typing_frame(&chars, 5), None);
}

#[test]
fn scroller_height_is_capped() {
    assert_eq!(reply_scroller_height(300), 300);
    assert_eq!(reply_scroller_height(800), 800);
    assert_eq!(reply_scroller_height(1200), 800);
}

#[test]
fn selection_moves() {
    assert_eq!(select_next(0, 3), 1);
    assert_eq!(select_next(2, 3), 2);
    assert_eq!(select_next(0, 0), 0);
    assert_eq!(select_previous(2), 1);
    assert_eq!(select_previous(0), 0);
    assert_eq!(select_previous(select_next(1, 3)), 1);
}

#[test]
fn key_numbers() {
    assert_eq!(key_number("1"), Some(1));
    assert_eq!(key_number(" 9 "), Some(9));
    assert_eq!(key_number("KP_1"), None);
}

#[test]
fn alt_fallbacks() {
    assert_eq!(alt_fallback(Mode::Ai, false, "!!"), AltFallback::Starfield);
    assert_eq!(alt_fallback(Mode::Ai, false, "!hi"), AltFallback::OpenChat);
    assert_eq!(alt_fallback(Mode::Ai, true, "!hi"), AltFallback::Unreadable);
    assert_eq!(alt_fallback(Mode::Notes, false, "~m"), AltFallback::OpenMarker);
    assert_eq!(alt_fallback(Mode::App, false, "x"), AltFallback::Unreadable);
}

#[test]
fn chat_commands_ignore_case() {
    assert_eq!(chat_command("/e"), ChatCommand::Exit);
    assert_eq!(chat_command("/E"), ChatCommand::Exit);
    assert_eq!(chat_command("/S"), ChatCommand::SaveLast);
    assert_eq!(chat_command("/e "), ChatCommand::Send);
    assert_eq!(chat_command("hello"), ChatCommand::Send);
}

#[test]
fn history_keeps_last() {
    let mut h = ChatHistory::new();
    assert_eq!(h.last_content(), None);
    h.push_user("hi".to_string());
    h.push_assistant("hello **there**".to_string());
    assert_eq!(h.len(), 2);
    assert_eq!(h.last_content(), Some("hello **there**".to_string()));
    assert_eq!(h.message(0).role, ChatRole::User);
    assert_eq!(h.message(0).content, "hi");
}

#[test]
fn saved_note_entry() {
    let rule = "_".repeat(50);
    let expected = format!("\n{}\n>\n alterAi \n>\nMay  5,  3:07 pm\n\nhello there\n{}\n", rule, rule);
    assert_eq!(note_entry("May  5,  3:07 pm", "hello **there**"), expected);
}

#[test]
fn lowercase_commands() {
    assert_eq!(command_from_lowercase("/e"), ChatCommand::Exit);
    assert_eq!(command_from_lowercase("/s"), ChatCommand::SaveLast);
    assert_eq!(command_from_lowercase("/E"), ChatCommand::Send);
}

#[test]
fn saved_message_is_the_last_whoever_wrote_it() {
    let mut h = ChatHistory::new();
    h.push_user("first".to_string());
    h.push_assistant("answer".to_string());
    assert_eq!(h.last_content(), Some("answer".to_string()));
    // a request that failed or is pending leaves the user's line last
    h.push_user("pending question".to_string());
    assert_eq!(h.last_content(), Some("pending question".to_string()));
}
