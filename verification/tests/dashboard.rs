use std::time::Duration;

use yomiage_bot::commands::dashboard::{
    handle_component, parse, render, ButtonStyle, Press, Tick, Ticker,
};
use yomiage_bot::music::{NowPlaying, QueuedTrack};
use yomiage_bot::scale::Scale;

fn float(value: f32) -> Scale {
    Scale {
        bits: value.to_bits(),
    }
}

fn track(title: &str) -> QueuedTrack {
    QueuedTrack {
        title: title.to_owned(),
        url: None,
    }
}

fn now(paused: bool) -> Option<NowPlaying> {
    Some(NowPlaying {
        track: QueuedTrack {
            title: "一".to_owned(),
            url: Some("https://youtu.be/abc".to_owned()),
        },
        position: Duration::from_secs(0),
        duration: Some(Duration::from_secs(60)),
        paused,
    })
}

#[test]
fn buttons_are_understood() {
    assert_eq!(parse("music:toggle"), Some(Press::Toggle));
    assert_eq!(parse("music:next"), Some(Press::Next));
    assert_eq!(parse("music:stop"), Some(Press::Stop));
    assert_eq!(parse("music:refresh"), Some(Press::Refresh));
    assert_eq!(parse("music:seek:-60"), Some(Press::Seek(-60)));
    assert_eq!(parse("music:seek:10"), Some(Press::Seek(10)));
    assert_eq!(parse("music:back"), Some(Press::Seek(-10)));
    assert_eq!(parse("music:forward"), Some(Press::Seek(10)));
}

#[test]
fn other_identifiers_are_ignored() {
    assert_eq!(parse("other:toggle"), None);
    assert_eq!(parse("music:dance"), None);
    assert_eq!(parse("music:seek:"), None);
    assert_eq!(parse("music:seek:x"), None);
    assert_eq!(parse("music:seek:61"), None);
    assert_eq!(parse("music:seek:-9223372036854775808"), None);
    assert_eq!(parse(""), None);
}

#[test]
fn a_seek_is_acknowledged_first() {
    let reaction = handle_component("music:seek:-10", Some(7)).unwrap();
    assert_eq!(reaction.guild_id, 7);
    assert!(reaction.acknowledge);
    assert!(!handle_component("music:stop", Some(7)).unwrap().acknowledge);
    assert!(handle_component("music:stop", None).is_none());
    assert!(handle_component("stop", Some(7)).is_none());
}

#[test]
fn a_silent_panel_says_so() {
    let panel = render(&None, &Vec::new(), float(0.3));
    assert_eq!(
        panel.content,
        "**音楽コントロール**\n再生していません。`/play` で追加してください。"
    );
    assert!(!panel.playing);
}

#[test]
fn a_panel_shows_what_plays_and_waits() {
    let mut tracks = vec![track("一")];
    for i in 2..9 {
        tracks.push(track(&format!("曲{i}")));
    }
    let panel = render(&now(false), &tracks, float(0.45));
    assert_eq!(
        panel.content,
        "**音楽コントロール**（音量 45%）\n▶ 再生中: **[一](<https://youtu.be/abc>)**\n\
         ◉▬▬▬▬▬▬▬▬▬▬▬▬▬▬  0:00 / 1:00\n2. 曲2\n3. 曲3\n4. 曲4\n5. 曲5\n6. 曲6\n…ほか 2 件"
    );
    assert!(panel.playing);
}

#[test]
fn the_buttons_follow_the_pause() {
    let panel = render(&now(true), &vec![track("一")], float(0.3));
    assert!(panel.content.contains("⏸ 一時停止中: "));
    let ids: Vec<&str> = panel
        .seeking
        .iter()
        .chain(panel.queueing.iter())
        .map(|button| button.custom_id.as_str())
        .collect();
    assert_eq!(
        ids,
        vec![
            "music:seek:-60",
            "music:seek:-10",
            "music:toggle",
            "music:seek:10",
            "music:seek:60",
            "music:next",
            "music:stop",
            "music:refresh",
        ]
    );
    for id in ids {
        assert!(parse(id).is_some(), "{id}");
    }
    assert_eq!(panel.seeking[0].emoji, '⏪');
    assert_eq!(panel.seeking[0].label, "60秒");
    assert_eq!(panel.seeking[3].emoji, '⏩');
    assert_eq!(panel.seeking[3].label, "10秒");
    assert_eq!(panel.seeking[2].emoji, '▶');
    assert_eq!(panel.seeking[2].label, "再開");
    assert_eq!(panel.seeking[2].style, ButtonStyle::Primary);
    assert_eq!(panel.queueing[1].style, ButtonStyle::Danger);
    let panel = render(&now(false), &vec![track("一")], float(0.3));
    assert_eq!(panel.seeking[2].label, "一時停止");
}

#[test]
fn the_same_drawing_is_not_sent_twice() {
    let mut ticker = Ticker::new();
    assert_eq!(ticker.tick(true, "a"), Tick::Edit);
    ticker.edited("a".to_owned());
    assert_eq!(ticker.tick(true, "a"), Tick::Keep);
    assert_eq!(ticker.tick(true, "b"), Tick::Edit);
}

#[test]
fn a_panel_rests_after_five_silent_minutes() {
    let mut ticker = Ticker::new();
    ticker.edited("a".to_owned());
    for _ in 0..60 {
        assert_eq!(ticker.tick(false, "a"), Tick::Keep);
    }
    assert_eq!(ticker.tick(true, "a"), Tick::Keep);
    for _ in 0..60 {
        assert_eq!(ticker.tick(false, "a"), Tick::Keep);
    }
    assert_eq!(ticker.tick(false, "a"), Tick::Stop);
}
