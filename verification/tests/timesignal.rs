use yomiage_bot::timesignal::{
    announcement, is_boundary, jst_day, jst_hour_minute, Call, Connected, TimeSignal, Wish,
};
use yomiage_bot::voicevox::{StyleId, Voice};

#[test]
fn jst_is_nine_hours_ahead_of_utc() {
    assert_eq!(jst_hour_minute(1_767_225_600), (9, 0));
}

#[test]
fn minute_wraps_around_midnight() {
    assert_eq!(jst_hour_minute(1_767_279_600), (0, 0));
}

#[test]
fn hourly_boundary_is_only_the_top_of_the_hour() {
    assert!(is_boundary(0, 60));
    assert!(!is_boundary(30, 60));
    assert!(!is_boundary(1, 60));
}

#[test]
fn half_hourly_boundary_matches_zero_and_thirty() {
    assert!(is_boundary(0, 30));
    assert!(is_boundary(30, 30));
    assert!(!is_boundary(15, 30));
}

#[test]
fn announcement_omits_minutes_on_the_hour() {
    assert_eq!(announcement(14, 0), "ただいま14時です");
    assert_eq!(announcement(14, 30), "ただいま14時30分です");
}

fn guild(guild_id: u64, enabled: bool, interval_minutes: u32) -> Connected {
    Connected {
        guild_id,
        wish: Some(Wish {
            enabled,
            interval_minutes,
            style: 8,
        }),
    }
}

fn called(calls: &[Call]) -> Vec<u64> {
    calls.iter().map(|call| call.guild_id).collect()
}

#[test]
fn the_time_is_read_where_it_is_wanted() {
    // 2026-01-01T00:30:00Z, half past nine in Japan.
    let now = 1_767_225_600 + 1_800;
    let mut signal = TimeSignal::new();
    let guilds = [
        guild(1, true, 30),
        guild(2, true, 60),
        guild(3, false, 30),
        Connected {
            guild_id: 4,
            wish: None,
        },
    ];
    let calls = signal.tick(now, &guilds);
    assert_eq!(called(&calls), vec![1]);
    let task = &calls[0].task;
    assert_eq!(task.text, "ただいま9時30分です");
    assert_eq!(task.voice.style, StyleId(8));
    assert_eq!(task.voice.speed, Voice::default().speed);
    assert!(task.file.is_none());
    assert_eq!(task.origin, None);
}

#[test]
fn the_time_is_not_read_twice_in_a_minute() {
    let now = 1_767_225_600;
    let mut signal = TimeSignal::new();
    let both = [guild(1, true, 60), guild(2, true, 60)];
    assert_eq!(called(&signal.tick(now, &both[..1])), vec![1]);
    assert_eq!(called(&signal.tick(now + 59, &both)), vec![2]);
    assert_eq!(called(&signal.tick(now + 59, &both)), Vec::<u64>::new());
    assert_eq!(called(&signal.tick(now + 3_600, &both)), vec![1, 2]);
}

#[test]
fn a_guild_that_left_is_forgotten() {
    let now = 1_767_225_600;
    let mut signal = TimeSignal::new();
    let guilds = [guild(1, true, 60)];
    assert_eq!(called(&signal.tick(now, &guilds)), vec![1]);
    assert_eq!(called(&signal.tick(now, &[])), Vec::<u64>::new());
    assert_eq!(called(&signal.tick(now, &guilds)), vec![1]);
}

#[test]
fn days_change_at_midnight_in_japan() {
    assert_eq!(jst_day(0), 0);
    assert_eq!(jst_day(15 * 3_600 - 1), 0);
    assert_eq!(jst_day(15 * 3_600), 1);
    assert_eq!(jst_day(-9 * 3_600), 0);
    assert_eq!(jst_day(-9 * 3_600 - 1), -1);
    assert_eq!(jst_hour_minute(-9 * 3_600 - 1), (23, 59));
}

#[test]
fn an_interval_of_nothing_never_comes() {
    assert!(!is_boundary(0, 0));
}
