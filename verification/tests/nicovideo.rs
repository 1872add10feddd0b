use std::time::Duration;

use yomiage_bot::nicovideo::{
    failure, host_of, is_nicovideo, playlist_args, start_error, NicoVideo,
};

#[test]
fn watch_urls_are_recognised() {
    assert!(is_nicovideo("https://www.nicovideo.jp/watch/sm9"));
    assert!(is_nicovideo("http://www.nicovideo.jp/watch/sm9"));
    assert!(is_nicovideo("https://nicovideo.jp/watch/sm9"));
    assert!(is_nicovideo("https://sp.nicovideo.jp/watch/sm9"));
}

#[test]
fn short_urls_are_recognised() {
    assert!(is_nicovideo("https://nico.ms/sm9"));
}

#[test]
fn query_and_fragment_do_not_confuse_the_host() {
    assert!(is_nicovideo("https://www.nicovideo.jp/watch/sm9?ref=x"));
    assert!(is_nicovideo("https://www.nicovideo.jp/watch/sm9#t=30"));
}

#[test]
fn other_hosts_are_not_nicovideo() {
    assert!(!is_nicovideo("https://www.youtube.com/watch?v=abc"));
    assert!(!is_nicovideo("https://example.com/?q=nicovideo.jp"));
    assert!(!is_nicovideo("https://example.com/nicovideo.jp/watch/sm9"));
    assert!(!is_nicovideo("https://nicovideo.jp.example.com/watch/sm9"));
    assert!(!is_nicovideo("https://notnicovideo.jp/watch/sm9"));
}

#[test]
fn search_terms_are_not_urls() {
    assert!(!is_nicovideo("ニコニコ動画"));
    assert!(!is_nicovideo("nicovideo.jp"));
    assert!(!is_nicovideo(""));
}

#[test]
fn port_and_userinfo_are_stripped() {
    assert!(is_nicovideo("https://www.nicovideo.jp:443/watch/sm9"));
    assert!(is_nicovideo("https://user@www.nicovideo.jp/watch/sm9"));
}

#[test]
fn hosts_are_found_in_odd_addresses() {
    assert_eq!(
        host_of("https://WWW.NicoVideo.JP:443/"),
        Some("www.nicovideo.jp".to_owned())
    );
    assert_eq!(
        host_of("http://a@b@nico.ms?x"),
        Some("nico.ms".to_owned())
    );
    assert_eq!(host_of("https://[::1]:80/"), Some("[::1]:80".to_owned()));
    assert_eq!(host_of("https:///path"), None);
    assert_eq!(host_of("https://user@/path"), None);
    assert_eq!(host_of("https://:80/path"), None);
    assert_eq!(host_of("ftp://nico.ms/sm9"), None);
}

#[test]
fn a_path_does_not_change_where_an_address_leads() {
    for tail in ["", "/watch/sm9", "?q=youtube.com", "#@example.com"] {
        assert!(is_nicovideo(&format!("https://nico.ms{tail}")), "{tail}");
        assert!(!is_nicovideo(&format!("https://e.com{tail}")), "{tail}");
    }
}

#[test]
fn a_video_is_asked_about_once() {
    let mut video = NicoVideo::new("https://nico.ms/sm9".to_owned());
    assert!(video.cached().is_none());
    assert_eq!(
        video.probe_args(None),
        ["-j", "--no-playlist", "--no-warnings", "https://nico.ms/sm9"]
    );
    assert_eq!(
        video.probe_args(Some("/tmp/jar")),
        [
            "-j",
            "--no-playlist",
            "--no-warnings",
            "--cookies",
            "/tmp/jar",
            "https://nico.ms/sm9"
        ]
    );
    let found = video.probed(Some("曲".to_owned()), Some(Duration::from_secs(320)));
    let kept = video.cached().expect("it was described");
    for metadata in [found, kept] {
        assert_eq!(metadata.title.as_deref(), Some("曲"));
        assert_eq!(metadata.duration, Some(Duration::from_secs(320)));
        assert_eq!(metadata.source_url.as_deref(), Some("https://nico.ms/sm9"));
    }
}

#[test]
fn sound_goes_to_the_standard_output() {
    let video = NicoVideo::new("https://nico.ms/sm9".to_owned());
    assert_eq!(
        video.stream_args(None),
        [
            "--no-playlist",
            "--quiet",
            "--no-warnings",
            "--no-progress",
            "-f",
            "ba[abr>0][vcodec=none]/best",
            "-o",
            "-",
            "https://nico.ms/sm9",
        ]
    );
}

#[test]
fn cookies_go_before_the_address() {
    let video = NicoVideo::new("https://nico.ms/sm9".to_owned());
    let plain = video.stream_args(None);
    let args = video.stream_args(Some("/tmp/jar"));
    assert_eq!(args[..8], plain[..8]);
    assert_eq!(args[8..], ["--cookies", "/tmp/jar", "https://nico.ms/sm9"]);
    assert_eq!(
        playlist_args("https://e.com/list", None),
        ["--flat-playlist", "-j", "--no-warnings", "https://e.com/list"]
    );
    assert_eq!(
        playlist_args("https://e.com/list", Some("/tmp/jar"))[3..],
        ["--cookies", "/tmp/jar", "https://e.com/list"]
    );
}

#[test]
fn the_downloader_is_missed_by_name() {
    assert_eq!(start_error(true, "gone"), "'yt-dlp' が見つからない");
    assert_eq!(start_error(false, "denied"), "denied");
    assert_eq!(failure("premium only"), "yt-dlp が失敗した: premium only");
}
