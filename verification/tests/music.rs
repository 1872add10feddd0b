use std::time::Duration;

use yomiage_bot::music::{
    format_time, is_playlist_url, progress_bar, track_link, FlatEntry, BAR_CELLS,
};

fn secs(value: u64) -> Duration {
    Duration::from_secs(value)
}

fn entry(id: Option<&str>, url: Option<&str>, webpage_url: Option<&str>) -> FlatEntry {
    FlatEntry {
        title: None,
        id: id.map(str::to_owned),
        url: url.map(str::to_owned),
        webpage_url: webpage_url.map(str::to_owned),
        duration: None,
    }
}

#[test]
fn youtube_playlist_pages_are_recognised() {
    assert!(is_playlist_url(
        "https://www.youtube.com/playlist?list=PLxxxx"
    ));
    assert!(is_playlist_url(
        "https://m.youtube.com/playlist?list=PLxxxx"
    ));
}

#[test]
fn youtube_watch_urls_with_a_list_param_are_not_playlists() {
    assert!(!is_playlist_url(
        "https://www.youtube.com/watch?v=abc&list=PLxxxx"
    ));
}

#[test]
fn youtu_be_short_links_are_never_playlists() {
    assert!(!is_playlist_url("https://youtu.be/abc?list=PLxxxx"));
}

#[test]
fn nicovideo_mylist_and_series_are_recognised() {
    assert!(is_playlist_url("https://www.nicovideo.jp/mylist/12345"));
    assert!(is_playlist_url("https://www.nicovideo.jp/series/12345"));
}

#[test]
fn nicovideo_watch_urls_are_not_playlists() {
    assert!(!is_playlist_url("https://www.nicovideo.jp/watch/sm9"));
}

#[test]
fn search_terms_are_not_playlists() {
    assert!(!is_playlist_url("プレイリスト"));
    assert!(!is_playlist_url(""));
}

#[test]
fn resolve_url_prefers_webpage_url() {
    let entry = entry(Some("x"), Some("y"), Some("https://example.com/w"));
    assert_eq!(
        entry.resolve_url(false),
        Some("https://example.com/w".to_owned())
    );
}

#[test]
fn resolve_url_falls_back_to_a_full_url_field() {
    let entry = entry(Some("x"), Some("https://example.com/u"), None);
    assert_eq!(
        entry.resolve_url(false),
        Some("https://example.com/u".to_owned())
    );
}

#[test]
fn resolve_url_builds_a_youtube_watch_url_from_the_id() {
    let entry = entry(Some("abc123"), Some("abc123"), None);
    assert_eq!(
        entry.resolve_url(false),
        Some("https://www.youtube.com/watch?v=abc123".to_owned())
    );
}

#[test]
fn resolve_url_builds_a_nicovideo_watch_url_from_the_id() {
    let entry = entry(Some("sm9"), None, None);
    assert_eq!(
        entry.resolve_url(true),
        Some("https://www.nicovideo.jp/watch/sm9".to_owned())
    );
}

#[test]
fn resolve_url_is_none_without_any_identifier() {
    let entry = entry(None, None, None);
    assert_eq!(entry.resolve_url(false), None);
}

fn cells(rendered: &str) -> Vec<char> {
    rendered
        .chars()
        .take_while(|c| *c == '▬' || *c == '◉')
        .collect()
}

#[test]
fn title_links_to_its_page() {
    assert_eq!(
        track_link("曲名", Some("https://youtu.be/abc")),
        "[曲名](<https://youtu.be/abc>)"
    );
}

#[test]
fn the_url_is_wrapped_to_suppress_the_preview() {
    let rendered = track_link("曲名", Some("https://youtu.be/abc"));
    assert!(rendered.contains("(<https://"), "{rendered}");
    assert!(rendered.ends_with(">)"), "{rendered}");
}

#[test]
fn title_without_a_url_stays_plain() {
    assert_eq!(track_link("曲名", None), "曲名");
}

#[test]
fn brackets_in_the_title_are_escaped() {
    assert_eq!(
        track_link("[MV] 曲名", Some("https://youtu.be/abc")),
        "[\\[MV\\] 曲名](<https://youtu.be/abc>)"
    );
}

#[test]
fn markdown_in_the_title_is_escaped() {
    assert_eq!(
        track_link("*強調* _した_ `名前`", None),
        "\\*強調\\* \\_した\\_ \\`名前\\`"
    );
    assert_eq!(track_link("~~消し~~", None), "\\~\\~消し\\~\\~");
    assert_eq!(track_link("a|b", None), "a\\|b");
    assert_eq!(track_link("back\\slash", None), "back\\\\slash");
}

#[test]
fn angle_brackets_in_the_title_are_escaped() {
    assert_eq!(track_link("<@123>", None), "\\<@123\\>");
}

#[test]
fn urls_that_would_break_the_link_are_dropped() {
    assert_eq!(track_link("曲名", Some("https://e.com/a(b)c")), "曲名");
    assert_eq!(track_link("曲名", Some("https://e.com/a b")), "曲名");
}

#[test]
fn non_http_urls_are_not_linked() {
    assert_eq!(track_link("曲名", Some("javascript:alert(1)")), "曲名");
    assert_eq!(track_link("曲名", Some("ftp://e.com/a")), "曲名");
    assert_eq!(track_link("曲名", Some("")), "曲名");
}

#[test]
fn bar_always_has_a_fixed_number_of_cells() {
    for position in [0, 1, 60, 145, 291, 292, 1000] {
        let rendered = progress_bar(secs(position), Some(secs(292)));
        assert_eq!(cells(&rendered).len(), BAR_CELLS, "position={position}");
    }
}

#[test]
fn knob_starts_at_the_left() {
    let rendered = progress_bar(secs(0), Some(secs(292)));
    assert_eq!(cells(&rendered).iter().position(|c| *c == '◉'), Some(0));
    assert!(rendered.ends_with("0:00 / 4:52"), "{rendered}");
}

#[test]
fn knob_moves_with_the_position() {
    let rendered = progress_bar(secs(146), Some(secs(292)));
    assert_eq!(cells(&rendered).iter().position(|c| *c == '◉'), Some(7));
    assert!(rendered.ends_with("2:26 / 4:52"), "{rendered}");
}

#[test]
fn knob_stops_at_the_last_cell() {
    let rendered = progress_bar(secs(292), Some(secs(292)));
    assert_eq!(
        cells(&rendered).iter().position(|c| *c == '◉'),
        Some(BAR_CELLS - 1)
    );
}

#[test]
fn position_beyond_the_end_is_clamped() {
    let rendered = progress_bar(secs(400), Some(secs(292)));
    assert_eq!(
        cells(&rendered).iter().position(|c| *c == '◉'),
        Some(BAR_CELLS - 1)
    );
    assert!(rendered.ends_with("4:52 / 4:52"), "{rendered}");
}

#[test]
fn zero_length_falls_back_to_elapsed_only() {
    let rendered = progress_bar(secs(10), Some(secs(0)));
    assert_eq!(rendered, "0:10（長さ不明）");
}

#[test]
fn unknown_length_falls_back_to_elapsed_only() {
    let rendered = progress_bar(secs(75), None);
    assert_eq!(rendered, "1:15（長さ不明）");
    assert!(cells(&rendered).is_empty());
}

#[test]
fn time_is_formatted_as_minutes_and_seconds() {
    assert_eq!(format_time(secs(0)), "0:00");
    assert_eq!(format_time(secs(9)), "0:09");
    assert_eq!(format_time(secs(74)), "1:14");
    assert_eq!(format_time(secs(292)), "4:52");
    assert_eq!(format_time(secs(599)), "9:59");
}

#[test]
fn hours_are_shown_only_when_needed() {
    assert_eq!(format_time(secs(3599)), "59:59");
    assert_eq!(format_time(secs(3600)), "1:00:00");
    assert_eq!(format_time(secs(3661)), "1:01:01");
    assert_eq!(format_time(secs(7325)), "2:02:05");
}

#[test]
fn a_time_reads_back_from_what_is_shown() {
    for value in [0, 9, 59, 60, 599, 3599, 3600, 3661, 86_399, 1_000_000] {
        let shown = format_time(secs(value));
        let parts: Vec<&str> = shown.split(':').collect();
        let read = parts
            .iter()
            .fold(0, |sum, part| sum * 60 + part.parse::<u64>().unwrap());
        assert_eq!(read, value, "{shown}");
        assert_eq!(parts.len(), if value >= 3600 { 3 } else { 2 });
        assert!(parts[1..].iter().all(|part| part.len() == 2));
    }
}
