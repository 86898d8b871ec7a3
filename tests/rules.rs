use rakaly::config::{default_base_url, upload_settings, MissingSetting, RakalyConfig};
use rakaly::options::{log_level, parse_failed_resolve, FailedResolveStrategy, LogLevel, MelterKind, ParseError};
use rakaly::upload::{upload_kind, RakalyError, UploadClient, UploadError, UploadKind};
use rakaly::watch::{
    determine_game_type, find_latest_snapshot, parse_snapshot_name, GameDate, GameType,
    GameTypeError, SnapshotFrequency, WatchState,
};

fn date(year: i16, month: u8, day: u8) -> GameDate {
    GameDate { year, month, day }
}

#[test]
fn frequencies_by_name() {
    assert_eq!(SnapshotFrequency::from_str("Daily"), Ok(SnapshotFrequency::Daily));
    assert_eq!(SnapshotFrequency::from_str("month"), Ok(SnapshotFrequency::Monthly));
    assert_eq!(SnapshotFrequency::from_str("QUARTER"), Ok(SnapshotFrequency::Quarterly));
    assert_eq!(SnapshotFrequency::from_str("year"), Ok(SnapshotFrequency::Yearly));
    assert_eq!(SnapshotFrequency::from_str("decade"), Ok(SnapshotFrequency::Decade));
    assert_eq!(SnapshotFrequency::from_str("weekly"), Err(ParseError::Frequency));
}

#[test]
fn games_and_default_frequencies() {
    assert_eq!(GameType::from_str("EU4"), Ok(GameType::Eu4));
    assert_eq!(GameType::from_str("rome"), Ok(GameType::Imperator));
    assert_eq!(GameType::from_str("v3"), Ok(GameType::Vic3));
    assert_eq!(GameType::from_str("stellaris"), Err(ParseError::GameType));
    assert_eq!(GameType::Eu4.default_frequency(), SnapshotFrequency::Yearly);
    assert_eq!(GameType::Vic3.default_frequency(), SnapshotFrequency::Quarterly);
    assert_eq!(GameType::Hoi4.default_frequency(), SnapshotFrequency::Monthly);
}

#[test]
fn game_type_of_a_watched_file() {
    assert_eq!(determine_game_type(Some("ck3"), Some("eu4")), Ok(GameType::Ck3));
    assert_eq!(
        determine_game_type(Some("xyz"), Some("eu4")),
        Err(GameTypeError::Format(ParseError::GameType))
    );
    assert_eq!(determine_game_type(None, Some("hoi4")), Ok(GameType::Hoi4));
    assert_eq!(determine_game_type(None, None), Err(GameTypeError::NoExtension));
    assert_eq!(determine_game_type(None, Some("txt")), Err(GameTypeError::UnknownExtension));
}

#[test]
fn decades_and_quarters() {
    assert_eq!(date(1449, 1, 1).decade(), 1440);
    assert_eq!(date(1450, 1, 1).decade(), 1450);
    assert_eq!(date(-5, 1, 1).decade(), 0);
    assert_eq!(date(-15, 1, 1).decade(), -10);
    assert_eq!(date(1444, 1, 1).quarter(), 1);
    assert_eq!(date(1444, 3, 1).quarter(), 1);
    assert_eq!(date(1444, 4, 1).quarter(), 2);
    assert_eq!(date(1444, 12, 1).quarter(), 4);
}

#[test]
fn snapshot_rules() {
    let d = date(1444, 11, 11);
    assert!(d.should_snapshot(None, SnapshotFrequency::Yearly));
    assert!(d.should_snapshot(Some(&date(1444, 11, 10)), SnapshotFrequency::Daily));
    assert!(!d.should_snapshot(Some(&date(1444, 11, 1)), SnapshotFrequency::Monthly));
    assert!(d.should_snapshot(Some(&date(1444, 10, 31)), SnapshotFrequency::Monthly));
    assert!(!d.should_snapshot(Some(&date(1444, 10, 1)), SnapshotFrequency::Quarterly));
    assert!(d.should_snapshot(Some(&date(1444, 9, 30)), SnapshotFrequency::Quarterly));
    assert!(!d.should_snapshot(Some(&date(1444, 1, 1)), SnapshotFrequency::Yearly));
    assert!(d.should_snapshot(Some(&date(1443, 12, 31)), SnapshotFrequency::Yearly));
    assert!(!d.should_snapshot(Some(&date(1440, 1, 1)), SnapshotFrequency::Decade));
    assert!(d.should_snapshot(Some(&date(1439, 12, 31)), SnapshotFrequency::Decade));
}

#[test]
fn date_text() {
    assert_eq!(date(1444, 1, 5).to_text(), "1444-01-05");
    assert_eq!(date(800, 12, 25).to_text(), "800-12-25");
    assert_eq!(date(-5, 1, 1).to_text(), "-5-01-01");
    assert_eq!(date(0, 10, 9).to_text(), "0-10-09");
    assert_eq!(date(-32768, 255, 0).to_text(), "-32768-255-00");
}

#[test]
fn latest_snapshot() {
    assert_eq!(find_latest_snapshot(&Vec::new()), None);
    let dates = vec![date(1444, 11, 11), date(1450, 1, 1), date(1449, 12, 31), date(1450, 1, 2)];
    assert_eq!(find_latest_snapshot(&dates), Some(date(1450, 1, 2)));
}

#[test]
fn watch_loop_decisions() {
    let mut s = WatchState::new(None);
    assert!(!s.on_quiet());
    s.on_modified();
    assert!(s.on_quiet());
    assert!(!s.on_quiet());
    s.on_copied(date(1444, 11, 11));
    s.on_modified();
    assert!(!s.on_quiet());
    s.on_modified();
    assert!(s.on_quiet());
    assert_eq!(s.last_snapshot, Some(date(1444, 11, 11)));
}

#[test]
fn melt_options() {
    assert_eq!(parse_failed_resolve("ignore"), Ok(FailedResolveStrategy::Ignore));
    assert_eq!(parse_failed_resolve("stringify"), Ok(FailedResolveStrategy::Stringify));
    assert_eq!(parse_failed_resolve("error"), Ok(FailedResolveStrategy::Error));
    assert_eq!(parse_failed_resolve("Error"), Err(ParseError::UnknownKeyStrategy));
    assert_eq!(MelterKind::from_str("rome"), Ok(MelterKind::Imperator));
    assert_eq!(MelterKind::from_str("v3"), Ok(MelterKind::Vic3));
    assert_eq!(MelterKind::from_str("eu5"), Err(ParseError::MeltFormat));
    assert_eq!(log_level(0), Ok(LogLevel::Warn));
    assert_eq!(log_level(3), Ok(LogLevel::Trace));
    assert_eq!(log_level(4), Err(ParseError::LogLevel));
}

#[test]
fn upload_client_requests() {
    let client = UploadClient { user: "user", api_key: "key", base_url: "https://pdx.tools" };
    assert_eq!(client.save_url(), "https://pdx.tools/api/saves");
    assert_eq!(client.format_basic_auth(), "Basic dXNlcjprZXk=");
    assert_eq!(client.upload_file_name("/tmp/a.eu4"), Ok(String::from("a.eu4")));
    assert_eq!(client.upload_file_name("/"), Err(UploadError::NoFileName));
    assert_eq!(client.upload_file_name(""), Err(UploadError::NoFileName));
    assert_eq!(client.upload_file_name("saves/x.."), Ok(String::from("x..")));
    assert_eq!(client.save_page_url("abc"), "https://pdx.tools/eu4/saves/abc");
}

#[test]
fn upload_kinds() {
    assert_eq!(upload_kind([0x50, 0x4b, 0x03, 0x04]), Ok(UploadKind::Zip));
    assert_eq!(upload_kind(*b"EU4t"), Ok(UploadKind::Text));
    assert_eq!(upload_kind(*b"EU4b"), Err(UploadError::Signature(*b"EU4b")));
    let e = RakalyError { name: String::from("quota"), msg: String::from("full") };
    assert_eq!(e.describe(), "server returned an error: quota : full");
}

#[test]
fn settings_for_upload() {
    assert_eq!(default_base_url(), "https://pdx.tools");
    let config = RakalyConfig {
        user: String::from("cfg-user"),
        api_key: String::from("cfg-key"),
        base_url: String::from("https://example.test"),
    };
    assert_eq!(
        upload_settings(Some("me"), None, Some(&config)),
        Ok((String::from("me"), String::from("cfg-key"), String::from("https://example.test")))
    );
    assert_eq!(
        upload_settings(Some("me"), Some("k"), None),
        Ok((String::from("me"), String::from("k"), String::from("https://pdx.tools")))
    );
    assert_eq!(upload_settings(None, Some("k"), None), Err(MissingSetting::User));
    assert_eq!(upload_settings(Some("me"), None, None), Err(MissingSetting::ApiKey));
}

#[test]
fn snapshot_names() {
    assert_eq!(parse_snapshot_name("save", "save_1444-11-11"), Some(date(1444, 11, 11)));
    assert_eq!(parse_snapshot_name("save", "save_1444-01-02-extra"), Some(date(1444, 1, 2)));
    assert_eq!(parse_snapshot_name("save", "save_+1444-1-2"), Some(date(1444, 1, 2)));
    assert_eq!(parse_snapshot_name("save", "save1444-11-11"), None);
    assert_eq!(parse_snapshot_name("save", "save_1444-11"), None);
    assert_eq!(parse_snapshot_name("save", "save_1444-11-"), None);
    assert_eq!(parse_snapshot_name("save", "other_1444-11-11"), None);
    assert_eq!(parse_snapshot_name("save", "save_1444-256-1"), None);
    assert_eq!(parse_snapshot_name("save", "save_40000-1-1"), None);
    assert_eq!(parse_snapshot_name("save", "save_32767-255-255"), Some(date(32767, 255, 255)));
    assert_eq!(parse_snapshot_name("save", "save"), None);
}
