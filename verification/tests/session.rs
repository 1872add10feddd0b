use std::time::Duration;

use yomiage_bot::session::{farewell_text, format_duration, JoinTimes};

#[test]
fn formats_hours_minutes_and_seconds() {
    assert_eq!(format_duration(Duration::from_secs(30)), "30秒");
    assert_eq!(format_duration(Duration::from_secs(90)), "1分");
    assert_eq!(
        format_duration(Duration::from_secs(3 * 3600 + 26 * 60)),
        "3時間26分"
    );
}

#[test]
fn take_returns_elapsed_and_forgets() {
    let mut times = JoinTimes::default();
    let guild = 1;
    let now = Duration::from_secs(100);

    assert!(times.take(guild, now).is_none());

    times.set(guild, now);
    assert!(times.take(guild, now).is_some());
    assert!(times.take(guild, now).is_none());
}

#[test]
fn the_time_since_joining_is_told() {
    let mut times = JoinTimes::default();
    times.set(1, Duration::from_millis(1_500));
    times.set(2, Duration::from_secs(50));
    assert_eq!(
        times.take(1, Duration::from_secs(10)),
        Some(Duration::from_millis(8_500))
    );
    assert_eq!(times.take(2, Duration::from_secs(10)), Some(Duration::ZERO));
}

#[test]
fn the_farewell_tells_how_long_it_was() {
    assert_eq!(
        farewell_text(Some(Duration::from_secs(90))),
        "誰もいなくなったので退出しました。（参加時間: 1分）"
    );
    assert_eq!(farewell_text(None), "誰もいなくなったので退出しました。");
}
