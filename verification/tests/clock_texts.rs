use alt::clock::{note_timestamp, time_card};

#[test]
fn time_card_texts() {
    assert_eq!(time_card(2024, 5, 5, 15, 7), Some(" May  5,\n 3:07 pm".to_string()));
    assert_eq!(time_card(2024, 12, 25, 0, 0), Some(" December 25,\n12:00 am".to_string()));
    assert_eq!(time_card(2024, 1, 10, 12, 59), Some(" January 10,\n12:59 pm".to_string()));
    assert_eq!(time_card(2024, 9, 30, 11, 5), Some(" September 30,\n11:05 am".to_string()));
}

#[test]
fn note_timestamps() {
    assert_eq!(note_timestamp(2023, 7, 4, 21, 30), Some("July  4,  9:30 pm".to_string()));
    assert_eq!(note_timestamp(2023, 2, 28, 1, 0), Some("February 28,  1:00 am".to_string()));
}

#[test]
fn impossible_moments() {
    assert_eq!(time_card(2023, 2, 29, 10, 0), None);
    assert!(time_card(2024, 2, 29, 10, 0).is_some());
    assert_eq!(time_card(2100, 2, 29, 10, 0), None);
    assert!(time_card(2000, 2, 29, 10, 0).is_some());
    assert_eq!(time_card(2024, 4, 31, 10, 0), None);
    assert_eq!(time_card(2024, 13, 1, 10, 0), None);
    assert_eq!(time_card(2024, 0, 1, 10, 0), None);
    assert_eq!(note_timestamp(2024, 1, 1, 24, 0), None);
    assert_eq!(note_timestamp(2024, 1, 1, 23, 60), None);
    assert_eq!(note_timestamp(262143, 1, 1, 0, 0), None);
    assert!(note_timestamp(262142, 1, 1, 0, 0).is_some());
}

#[test]
fn same_text_as_chrono_on_a_local_reading() {
    let d = chrono::NaiveDate::from_ymd_opt(2022, 3, 9).unwrap().and_hms_opt(18, 4, 33).unwrap();
    assert_eq!(time_card(2022, 3, 9, 18, 4), Some(d.format(" %B %e,\n%l:%M %P").to_string()));
    assert_eq!(note_timestamp(2022, 3, 9, 18, 4), Some(d.format("%B %e, %l:%M %P").to_string()));
}
