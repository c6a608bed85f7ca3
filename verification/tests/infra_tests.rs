use lyrictag::infra::config::{dedup_paths, same_path, SaveTarget, Settings, MAX_RECENT_PATHS};
use lyrictag::infra::error::AppError;
use lyrictag::infra::ratelimit::{per_source, RateLimiter};
use lyrictag::infra::time::{civil_from_millis, format_timestamp, now_string, year_from_epoch_ms, DAY_MS};

fn ymd(ms: i64) -> (i64, u32, u32) {
    let d = civil_from_millis(ms);
    (d.year, d.month, d.day)
}

#[test]
fn epoch_is_1970_01_01() {
    assert_eq!(ymd(0), (1970, 1, 1));
}

#[test]
fn known_dates_round_trip() {
    assert_eq!(ymd(1_130_256_000_000), (2005, 10, 25));
    assert_eq!(ymd(1_193_932_800_007), (2007, 11, 1));
    assert_eq!(ymd(1_167_600_000_000), (2006, 12, 31));
    assert_eq!(ymd(1_792_000_000_000), (2026, 10, 14));
}

#[test]
fn leap_day_is_handled() {
    assert_eq!(ymd(1_582_934_400_000), (2020, 2, 29));
    assert_eq!(ymd(1_614_470_400_000), (2021, 2, 28));
}

#[test]
fn year_extraction_from_netease_publish_time() {
    assert_eq!(year_from_epoch_ms(1_193_932_800_007), Some(2007));
    assert_eq!(year_from_epoch_ms(1_130_256_000_000), Some(2005));
}

#[test]
fn bare_year_is_passed_through() {
    assert_eq!(year_from_epoch_ms(2005), Some(2005));
    assert_eq!(year_from_epoch_ms(0), None);
}

#[test]
fn timestamp_formatting() {
    assert_eq!(format_timestamp(0), "1970-01-01 00:00:00");
    assert_eq!(format_timestamp(DAY_MS + 3_723_000), "1970-01-02 01:02:03");
}

#[test]
fn negative_timestamps_are_safe() {
    assert_eq!(ymd(-DAY_MS), (1969, 12, 31));
    assert!(now_string().len() >= 19);
    assert_eq!(format_timestamp(-1), "1969-12-31 23:59:59");
}

#[test]
fn extreme_timestamps_do_not_panic() {
    let _ = civil_from_millis(i64::MAX);
    let _ = civil_from_millis(i64::MIN);
    let _ = format_timestamp(i64::MIN);
    assert_eq!(year_from_epoch_ms(12_345_678_901), Some(1));
    assert_eq!(year_from_epoch_ms(u64::MAX), Some(1969));
}

// ── settings ──

#[test]
fn remember_path_puts_newest_first() {
    let mut s = Settings::default();
    s.remember_path("D:/A");
    s.remember_path("D:/B");
    assert_eq!(s.library.recent_paths, vec!["D:/B", "D:/A"]);
    assert_eq!(s.library.last_scan_path, "D:/B");
}

#[test]
fn remember_path_dedups_across_spellings() {
    let cases = [("D:\\Music", "d:/music/"), ("D:\\Music", "D:\\Music\\"), ("D:\\Music", "D:\\MUSIC")];
    for (first, second) in cases {
        let mut s = Settings::default();
        s.remember_path(first);
        s.remember_path(second);
        assert_eq!(s.library.recent_paths.len(), 1, "{first} / {second}");
        assert_eq!(s.library.recent_paths[0], second);
    }
}

#[test]
fn drive_roots_are_the_same_directory() {
    assert!(same_path("D:", "d:\\"));
    assert!(same_path("D:\\", "D:/"));
    assert!(!same_path("D:\\", "D:\\Music"));
}

#[test]
fn recent_paths_are_capped() {
    let mut s = Settings::default();
    for i in 0..MAX_RECENT_PATHS + 5 {
        s.remember_path(&format!("D:/M{i}"));
    }
    assert_eq!(s.library.recent_paths.len(), MAX_RECENT_PATHS);
    assert_eq!(s.library.recent_paths[0], format!("D:/M{}", MAX_RECENT_PATHS + 4));
}

#[test]
fn blank_path_is_ignored() {
    let mut s = Settings::default();
    s.remember_path("   ");
    assert!(s.library.recent_paths.is_empty());
    assert!(s.library.last_scan_path.is_empty());
}

#[test]
fn dedup_paths_cleans_up_existing_duplicates() {
    let raw = vec![
        "D:\\Music".to_string(),
        "d:/music/".to_string(),
        "".to_string(),
        "E:\\Albums".to_string(),
        "E:\\ALBUMS\\".to_string(),
        "D:\\Other".to_string(),
    ];
    assert_eq!(dedup_paths(&raw), vec!["D:\\Music", "E:\\Albums", "D:\\Other"]);
}

#[test]
fn dedup_paths_respects_the_cap() {
    let raw: Vec<String> = (0..MAX_RECENT_PATHS + 3).map(|i| format!("D:/M{i}")).collect();
    assert_eq!(dedup_paths(&raw).len(), MAX_RECENT_PATHS);
}

#[test]
fn save_target_keys() {
    assert_eq!(SaveTarget::File.as_str(), "file");
    assert_eq!(SaveTarget::Sidecar.as_str(), "sidecar");
    assert_eq!(SaveTarget::default(), SaveTarget::File);
}

// ── errors and rate limits ──

#[test]
fn user_messages_hide_technical_detail() {
    assert_eq!(AppError::Cancelled.user_message(), "已停止");
    assert_eq!(AppError::Other("自定义".into()).user_message(), "自定义");
    assert!(AppError::Http("timeout".into()).is_retryable());
    assert!(!AppError::Io("denied".into()).is_retryable());
}

#[test]
fn rate_limiter_spaces_requests() {
    let mut rl = RateLimiter::new(20);
    assert_eq!(rl.interval_ns, 50_000_000);
    let mut waits = Vec::new();
    for _ in 0..5 {
        waits.push(rl.reserve(1_000));
    }
    assert_eq!(waits, vec![0, 50_000_000, 100_000_000, 150_000_000, 200_000_000]);
    assert_eq!(per_source().interval_ns, 200_000_000);
    assert_eq!(RateLimiter::new(0).interval_ns, 1_000_000_000);
}
