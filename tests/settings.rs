use irotate::file::{parse_decimal, FileSize};
use irotate::helpers::FileError;
use irotate::models::Settings;
use irotate::processes::{Actions, WatchEvent, WatchState, WatchStep, ACTION_QUEUE_CAPACITY};

fn defaults() -> Settings {
    Settings { sleep_counter: 2, file_size: FileSize::Mb(1) }
}

#[test]
fn test_new_settings_format() {
    let file_content = r#"{"sleep_counter": 2, "mb": 1}"#;
    println!("file content is {}", file_content);
    let item: Settings = Settings::from_json(file_content, defaults()).unwrap();

    assert_eq!(item.file_size.bytes(), 1_000_000);
}

#[test]
fn timer_rearms_only_after_dispatch() {
    let mut state = WatchState::new(&Settings { sleep_counter: 5, file_size: FileSize::Bytes(10) });
    assert!(!state.on_event(WatchEvent::LogModified { size: Some(3) }).rearms_timer());
    assert!(!state.on_event(WatchEvent::Unrelated).rearms_timer());
    let reload = Settings::from_json(r#"{"sleep_counter": 9, "kb": 1}"#, defaults());
    assert!(!state.on_event(WatchEvent::SettingsModified { settings: reload }).rearms_timer());
    assert_eq!(state.sleep_seconds, 9);
    assert!(state.on_event(WatchEvent::LogModified { size: Some(1000) }).rearms_timer());
    assert!(state.on_event(WatchEvent::TimerElapsed).rearms_timer());
}

#[test]
fn test_deserializer_lowercase() {
    let settings = FileSize::from_json(r#"{"kb": 512}"#);
    assert!(settings.is_ok());
}

#[test]
fn test_deserializer_uppercase_fail() {
    assert!(FileSize::from_json(r#"{"Kb": 512}"#).is_err());
}

#[test]
fn test_string_parsing() {
    let data = r#"{"kb": 100}"#;
    let size: FileSize = FileSize::from_json(data).unwrap();
    assert_eq!(FileSize::Kb(100), size);
}

#[test]
fn test_fail_parse() {
    let data = r#"{"unknown": 100}"#;
    let result = FileSize::from_json(data);
    assert_eq!(result.is_err(), true);
}

#[test]
fn size_units_are_decimal() {
    assert_eq!(FileSize::from_json(r#"{"kb": 100}"#).unwrap().bytes(), 100_000);
    assert_eq!(FileSize::Mb(1).bytes(), 1_000_000);
    assert_eq!(FileSize::Bytes(7).bytes(), 7);
}

#[test]
fn size_json_needs_exactly_one_size_member() {
    assert_eq!(FileSize::from_json(r#"{}"#), Err(FileError::FileSizeInvalid));
    assert_eq!(FileSize::from_json(r#"{"kb": 1, "mb": 1}"#), Err(FileError::FileSizeInvalid));
    assert_eq!(FileSize::from_json(r#"{"bytes": 9}"#), Ok(FileSize::Bytes(9)));
    assert_eq!(FileSize::from_json(r#"{"kb": -1}"#), Err(FileError::FileSizeInvalid));
    assert_eq!(FileSize::from_json("not json"), Err(FileError::FileSizeInvalid));
}

#[test]
fn settings_from_json_reads_both_fields() {
    let s = Settings::from_json(r#"{"sleep_counter": 2, "mb": 1}"#, defaults()).unwrap();
    assert_eq!(s.sleep_counter, 2);
    assert_eq!(s.file_size, FileSize::Mb(1));
    assert_eq!(s.threshold(), 1_000_000);
}

#[test]
fn settings_missing_fields_take_defaults() {
    let s = Settings::from_json(r#"{"kb": 50}"#, defaults()).unwrap();
    assert_eq!(s.sleep_counter, 2);
    assert_eq!(s.file_size, FileSize::Kb(50));
    let t = Settings::from_json(r#"{"sleep_counter": 9}"#, defaults()).unwrap();
    assert_eq!(t.sleep_counter, 9);
    assert_eq!(t.file_size, FileSize::Mb(1));
}

#[test]
fn settings_reject_unknown_keys_and_two_sizes() {
    assert_eq!(
        Settings::from_json(r#"{"sleep_counter": 2, "gb": 1}"#, defaults()),
        Err(FileError::FileSizeInvalid)
    );
    assert_eq!(
        Settings::from_json(r#"{"kb": 2, "bytes": 1}"#, defaults()),
        Err(FileError::FileSizeInvalid)
    );
    assert_eq!(
        Settings::from_json(r#"{"mb": 18446744073709551615}"#, defaults()),
        Err(FileError::FileSizeInvalid)
    );
}

#[test]
fn size_text_reads_digits_and_unit() {
    assert_eq!(FileSize::from_size_text("1mb"), Some(FileSize::Mb(1)));
    assert_eq!(FileSize::from_size_text("size=512kb!"), Some(FileSize::Kb(512)));
    assert_eq!(FileSize::from_size_text("300by"), Some(FileSize::Bytes(300)));
    assert_eq!(FileSize::from_size_text("12MB"), None);
    assert_eq!(FileSize::from_size_text("512KB"), None);
    assert_eq!(FileSize::from_size_text("5Mb"), None);
    assert_eq!(FileSize::from_parts("512", "KB"), None);
    assert_eq!(FileSize::from_parts("512", "kb"), Some(FileSize::Kb(512)));
    assert_eq!(FileSize::from_size_text("100"), None);
    assert_eq!(FileSize::from_size_text("99999999999999999999mb"), None);
}

#[test]
fn decimal_parse_limits() {
    assert_eq!(parse_decimal("18446744073709551615"), Some(u64::MAX));
    assert_eq!(parse_decimal("18446744073709551616"), None);
    assert_eq!(parse_decimal(""), None);
    assert_eq!(parse_decimal("1a"), None);
    assert_eq!(parse_decimal("007"), Some(7));
}

#[test]
fn watch_rotates_at_threshold() {
    let mut state = WatchState::new(&Settings { sleep_counter: 5, file_size: FileSize::Bytes(10) });
    assert_eq!(state.on_event(WatchEvent::LogModified { size: Some(9) }), WatchStep::Wait);
    assert_eq!(state.on_event(WatchEvent::LogModified { size: Some(10) }), WatchStep::Dispatch(Actions::Rotate));
    assert_eq!(state.on_event(WatchEvent::LogModified { size: None }), WatchStep::Wait);
    assert_eq!(state.on_event(WatchEvent::Unrelated), WatchStep::Wait);
    assert_eq!(state.on_event(WatchEvent::TimerElapsed), WatchStep::Dispatch(Actions::RotatedFromSleep));
    assert_eq!(state, WatchState { sleep_seconds: 5, threshold: 10 });
}

#[test]
fn watch_reload_changes_threshold() {
    let start = Settings::from_json(r#"{"sleep_counter": 2, "kb": 50}"#, defaults()).unwrap();
    let mut state = WatchState::new(&start);
    assert_eq!(state.threshold, 50_000);
    let reloaded = Settings::from_json(r#"{"sleep_counter": 3, "mb": 1}"#, defaults());
    assert_eq!(state.on_event(WatchEvent::SettingsModified { settings: reloaded }), WatchStep::Reloaded);
    assert_eq!(state.threshold, 1_000_000);
    assert_eq!(state.sleep_seconds, 3);
    assert_eq!(state.on_event(WatchEvent::LogModified { size: Some(60_000) }), WatchStep::Wait);
    assert_eq!(
        state.on_event(WatchEvent::LogModified { size: Some(1_000_000) }),
        WatchStep::Dispatch(Actions::Rotate)
    );
}

#[test]
fn watch_failed_reload_keeps_settings() {
    let mut state = WatchState::new(&defaults());
    let bad = Settings::from_json(r#"{"Kb": 1}"#, defaults());
    assert_eq!(
        state.on_event(WatchEvent::SettingsModified { settings: bad }),
        WatchStep::ReloadFailed(FileError::FileSizeInvalid)
    );
    let too_big = Ok(Settings { sleep_counter: 1, file_size: FileSize::Mb(u64::MAX) });
    assert_eq!(
        state.on_event(WatchEvent::SettingsModified { settings: too_big }),
        WatchStep::ReloadFailed(FileError::FileSizeInvalid)
    );
    assert_eq!(
        state.on_event(WatchEvent::SettingsModified { settings: Err(FileError::NotFound) }),
        WatchStep::ReloadFailed(FileError::NotFound)
    );
    assert_eq!(state, WatchState { sleep_seconds: 2, threshold: 1_000_000 });
}

#[test]
fn action_queue_applies_backpressure() {
    let (tx, mut rx) = tokio::sync::mpsc::channel::<Actions>(ACTION_QUEUE_CAPACITY);
    for _ in 0..3 {
        assert!(tx.try_send(Actions::Rotate).is_ok());
    }
    assert!(tx.try_send(Actions::RotatedFromSleep).is_err());
    assert_eq!(rx.try_recv().ok(), Some(Actions::Rotate));
    assert!(tx.try_send(Actions::RotatedFromSleep).is_ok());
}
