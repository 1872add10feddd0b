use std::time::Duration;

use yomiage_bot::announce::{wording_text, AnnounceChannels};
use yomiage_bot::import::{Step, EMPTY_PLAYLIST};
use yomiage_bot::music::{
    source_of, FlatEntry, Manager, Playing, PlaylistQueued, Removal, Source, Toggle, TrackInfo,
};
use yomiage_bot::nicovideo::Metadata;

fn info(title: &str, secs: Option<u64>) -> TrackInfo {
    TrackInfo {
        title: title.to_owned(),
        duration: secs.map(Duration::from_secs),
        url: None,
    }
}

fn playing(uuid: u128, secs: u64) -> Option<Playing> {
    Some(Playing {
        uuid,
        position: Duration::from_secs(secs),
        paused: false,
    })
}

fn line(id: Option<&str>, title: Option<&str>) -> FlatEntry {
    FlatEntry {
        title: title.map(str::to_owned),
        id: id.map(str::to_owned),
        url: None,
        webpage_url: None,
        duration: Some(Duration::from_secs(9)),
    }
}

fn metadata(title: Option<&str>, url: Option<&str>) -> Metadata {
    Metadata {
        title: title.map(str::to_owned),
        duration: Some(Duration::from_secs(60)),
        source_url: url.map(str::to_owned),
    }
}

#[test]
fn requests_are_looked_up_in_three_places() {
    assert_eq!(
        source_of("https://www.nicovideo.jp/watch/sm9"),
        Source::NicoVideo
    );
    assert_eq!(source_of("https://youtu.be/abc"), Source::Address);
    assert_eq!(source_of("夜に駆ける"), Source::Search);
}

#[test]
fn what_is_found_describes_a_track() {
    let info = Manager::enqueue(
        "夜に駆ける",
        Ok(metadata(Some("曲"), Some("https://youtu.be/abc"))),
    )
    .unwrap();
    assert_eq!(info.title, "曲");
    assert_eq!(info.duration, Some(Duration::from_secs(60)));
    assert_eq!(info.url.as_deref(), Some("https://youtu.be/abc"));
}

#[test]
fn a_request_stands_for_what_is_not_found() {
    let info = Manager::enqueue("https://youtu.be/abc", Ok(metadata(None, None))).unwrap();
    assert_eq!(info.title, "https://youtu.be/abc");
    assert_eq!(info.url.as_deref(), Some("https://youtu.be/abc"));

    let info = Manager::enqueue("言葉", Err("だめ".to_owned())).unwrap();
    assert_eq!(info.title, "言葉");
    assert_eq!(info.duration, None);
    assert_eq!(info.url, None);
}

#[test]
fn a_niconico_video_that_cannot_be_described_is_refused() {
    let refused = Manager::enqueue(
        "https://www.nicovideo.jp/watch/sm9",
        Err("会員限定".to_owned()),
    );
    assert_eq!(refused.unwrap_err(), "会員限定");
}

#[test]
fn uploads_keep_their_title_and_address() {
    let info = Manager::enqueue_upload("https://cdn.example/a.mp3", "a.mp3".to_owned());
    assert_eq!(info.title, "a.mp3");
    assert_eq!(info.duration, None);
    assert_eq!(info.url.as_deref(), Some("https://cdn.example/a.mp3"));
}

#[test]
fn a_queue_is_listed_and_the_rest_forgotten() {
    let mut manager = Manager::new();
    let queued = manager.queue_input(1, info("一", None), 1);
    assert_eq!(queued.position, 1);
    assert_eq!(queued.track.title, "一");
    manager.queue_input(2, info("二", None), 2);

    let titles = |tracks: Vec<yomiage_bot::music::QueuedTrack>| -> Vec<String> {
        tracks.into_iter().map(|track| track.title).collect()
    };
    assert_eq!(titles(manager.queue(&[2, 3])), vec!["二", "（タイトル不明）"]);
    assert_eq!(titles(manager.queue(&[1])), vec!["（タイトル不明）"]);
    assert_eq!(titles(manager.queue(&[2])), vec!["（タイトル不明）"]);
}

#[test]
fn what_plays_is_shown() {
    let mut manager = Manager::new();
    manager.queue_input(1, info("一", Some(100)), 1);
    let now = manager.now_playing(playing(1, 5)).unwrap();
    assert_eq!(now.track.title, "一");
    assert_eq!(now.position, Duration::from_secs(5));
    assert_eq!(now.duration, Some(Duration::from_secs(100)));
    assert!(!now.paused);
    let now = manager.now_playing(playing(2, 5)).unwrap();
    assert_eq!(now.track.title, "（タイトル不明）");
    assert_eq!(now.duration, None);
    assert!(manager.now_playing(None).is_none());
}

#[test]
fn seeks_stay_inside_the_track() {
    let mut manager = Manager::new();
    manager.queue_input(1, info("一", Some(100)), 1);
    manager.queue_input(2, info("短い", Some(2)), 2);
    let target = |current, delta| manager.seek_relative(current, delta);
    assert_eq!(target(playing(1, 50), 10), Some(Duration::from_secs(60)));
    assert_eq!(target(playing(1, 50), -60), Some(Duration::ZERO));
    assert_eq!(target(playing(1, 50), 60), Some(Duration::from_secs(97)));
    assert_eq!(target(playing(1, 97), 0), Some(Duration::from_secs(97)));
    assert_eq!(target(playing(2, 1), 10), Some(Duration::ZERO));
    assert_eq!(target(playing(3, 50), 60), Some(Duration::from_secs(110)));
    assert_eq!(target(None, 60), None);
    assert_eq!(
        target(
            Some(Playing {
                uuid: 3,
                position: Duration::MAX,
                paused: false
            }),
            10
        ),
        Some(Duration::MAX)
    );
    assert_eq!(
        target(playing(3, 50), i64::MIN),
        Some(Duration::ZERO)
    );
}

#[test]
fn an_empty_queue_has_nothing_to_change() {
    assert_eq!(Manager::toggle_pause(0, false), None);
    assert_eq!(Manager::toggle_pause(2, false), Some(Toggle::Pause));
    assert_eq!(Manager::toggle_pause(2, true), Some(Toggle::Resume));
    assert!(!Manager::skip(0));
    assert!(Manager::skip(1));
}

#[test]
fn tracks_are_taken_out_by_number() {
    assert_eq!(Manager::remove(0, 3), Removal::Nothing);
    assert_eq!(Manager::remove(1, 3), Removal::Skip);
    assert_eq!(Manager::remove(3, 3), Removal::Dequeue(2));
    assert_eq!(Manager::remove(4, 3), Removal::Nothing);
    assert_eq!(Manager::remove(1, 0), Removal::Nothing);
    let mut manager = Manager::new();
    manager.queue_input(1, info("一", None), 1);
    manager.removed(1);
    assert_eq!(manager.queue(&[1])[0].title, "（タイトル不明）");
}

#[test]
fn a_track_that_ends_is_announced() {
    let mut manager = Manager::new();
    manager.queue_input(1, info("一", None), 1);
    manager.queue_input(2, info("二", None), 2);
    let change = manager.track_ended(5, 1, Some(2)).unwrap();
    assert_eq!(change.guild_id, 5);
    assert_eq!(
        wording_text(&change),
        "⏹ 一 の再生が終わりました。\n▶ 二 を再生開始します。"
    );
    assert!(manager.track_ended(5, 1, Some(2)).is_none());
    let change = manager.track_ended(5, 2, None).unwrap();
    assert_eq!(
        wording_text(&change),
        "⏹ 二 の再生が終わりました。キューは空です。"
    );

    let mut channels = AnnounceChannels::default();
    assert!(channels.announce(&change).is_none());
    channels.set(5, 10);
    channels.set(5, 11);
    assert_eq!(channels.get(5), Some(11));
    assert_eq!(channels.get(6), None);
    let (channel, _) = channels.announce(&change).unwrap();
    assert_eq!(channel, 11);
}

#[test]
fn a_stop_by_hand_is_not_announced() {
    let mut manager = Manager::new();
    manager.queue_input(1, info("一", None), 1);
    assert!(!manager.stop(0));
    assert!(manager.stop(1));
    assert!(manager.track_ended(5, 1, None).is_none());
}

#[test]
fn an_empty_playlist_is_an_error() {
    let refused = Manager::enqueue_playlist("https://www.youtube.com/playlist?list=a", Vec::new());
    assert_eq!(refused.unwrap_err(), EMPTY_PLAYLIST);
}

#[test]
fn a_youtube_playlist_is_queued_as_listed() {
    let mut entries = vec![line(None, Some("住所なし"))];
    for i in 0..59 {
        entries.push(line(Some(&format!("v{i}")), None));
    }
    entries[1].title = Some("最初".to_owned());
    let mut import =
        Manager::enqueue_playlist("https://www.youtube.com/playlist?list=a", entries).unwrap();
    let mut urls = Vec::new();
    let done = loop {
        match import.step() {
            Step::Queue { url, info } => {
                if urls.is_empty() {
                    assert_eq!(info.title, "最初");
                } else {
                    assert_eq!(info.title, url);
                }
                assert_eq!(info.duration, Some(Duration::from_secs(9)));
                assert_eq!(info.url.as_deref(), Some(url.as_str()));
                urls.push(url);
            }
            Step::Probe { .. } => panic!("nothing is tried beforehand"),
            Step::Done(done) => break done,
        }
    };
    assert_eq!(urls.len(), 49);
    assert_eq!(urls[0], "https://www.youtube.com/watch?v=v0");
    assert_eq!(
        done,
        PlaylistQueued {
            queued: 49,
            skipped: 10,
            unplayable: 0
        }
    );
}

#[test]
fn niconico_tracks_are_tried_first() {
    let entries = vec![
        line(Some("sm1"), Some("一")),
        line(Some("sm2"), None),
        line(None, None),
        line(Some("sm3"), None),
    ];
    let mut import =
        Manager::enqueue_playlist("https://www.nicovideo.jp/mylist/1", entries).unwrap();
    let mut probed = Vec::new();
    let done = loop {
        match import.step() {
            Step::Probe { url } => {
                let outcome = match url.as_str() {
                    "https://www.nicovideo.jp/watch/sm1" => Some(metadata(None, None)),
                    "https://www.nicovideo.jp/watch/sm2" => None,
                    _ => Some(metadata(Some("三"), Some("https://nico.ms/sm3"))),
                };
                if let Some(info) = import.probed(outcome) {
                    probed.push((info.title, info.url.unwrap()));
                }
            }
            Step::Queue { .. } => panic!("everything is tried beforehand"),
            Step::Done(done) => break done,
        }
    };
    assert_eq!(
        probed,
        vec![
            (
                "一".to_owned(),
                "https://www.nicovideo.jp/watch/sm1".to_owned()
            ),
            ("三".to_owned(), "https://nico.ms/sm3".to_owned()),
        ]
    );
    assert_eq!(
        done,
        PlaylistQueued {
            queued: 2,
            skipped: 0,
            unplayable: 1
        }
    );
}

#[test]
fn all_guilds_share_one_table_of_tracks() {
    let mut manager = Manager::new();
    manager.queue_input(1, info("一", Some(100)), 1);
    manager.queue_input(2, info("二", Some(50)), 1);
    manager.queue_input(3, info("三", None), 2);

    // The queue of the one guild holds the first track alone.
    assert_eq!(manager.queue(&[1])[0].title, "一");
    assert_eq!(
        manager.now_playing(playing(2, 5)).unwrap().track.title,
        "（タイトル不明）"
    );
    assert!(manager.track_ended(6, 2, Some(3)).is_none());

    manager.queue_input(4, info("四", None), 1);
    assert!(manager.stop(1));
    assert!(manager.track_ended(6, 4, None).is_none());
    assert_eq!(manager.queue(&[4])[0].title, "（タイトル不明）");
}
