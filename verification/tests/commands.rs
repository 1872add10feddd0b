use std::time::Duration;

use yomiage_bot::commands::about::{about, about_without_voice};
use yomiage_bot::commands::dict;
use yomiage_bot::commands::help::help;
use yomiage_bot::commands::music;
use yomiage_bot::commands::playlist;
use yomiage_bot::commands::reply::{Embed, Reply};
use yomiage_bot::commands::settings::{
    autocomplete_style, config, feature, intonation, maxlength, pitch, speed, style_choices,
    style_label, suggest, voice, Candidate, Feature, Shown, StyleChoice,
};
use yomiage_bot::commands::stats::{music_stats, speech_stats};
use yomiage_bot::commands::timesignal::{interval, Frequency};
use yomiage_bot::commands::voice as channels;
use yomiage_bot::commands::voice::{Caller, Leaving};
use yomiage_bot::db::{Db, GuildSettings};
use yomiage_bot::music::{NowPlaying, PlaylistQueued, Queued, QueuedTrack};
use yomiage_bot::scale::Scale;
use yomiage_bot::voicevox::{Speaker, Style, StyleId};

fn said(reply: Reply) -> String {
    match reply {
        Reply::Text(text) => text,
        Reply::Embed(embed) => panic!("{embed:?}"),
    }
}

fn shown(reply: Reply) -> Embed {
    match reply {
        Reply::Embed(embed) => embed,
        Reply::Text(text) => panic!("{text}"),
    }
}

fn styles() -> Vec<StyleChoice> {
    style_choices(&vec![
        Speaker {
            name: "ずんだもん".to_owned(),
            styles: vec![
                Style {
                    name: "ノーマル".to_owned(),
                    id: 3,
                },
                Style {
                    name: "あまあま".to_owned(),
                    id: 1,
                },
            ],
        },
        Speaker {
            name: "Test".to_owned(),
            styles: vec![Style {
                name: "ずんだ".to_owned(),
                id: 31,
            }],
        },
    ])
}

fn float(value: f32) -> Scale {
    Scale {
        bits: value.to_bits(),
    }
}

fn song(title: &str) -> QueuedTrack {
    QueuedTrack {
        title: title.to_owned(),
        url: None,
    }
}

#[test]
fn styles_become_choices() {
    let labels: Vec<(String, u32)> = styles()
        .into_iter()
        .map(|choice| (choice.label, choice.id))
        .collect();
    assert_eq!(
        labels,
        vec![
            ("ずんだもん（ノーマル）".to_owned(), 3),
            ("ずんだもん（あまあま）".to_owned(), 1),
            ("Test（ずんだ）".to_owned(), 31),
        ]
    );
}

#[test]
fn suggestions_put_beginnings_first() {
    let ids = |partial: &str| -> Vec<u32> {
        autocomplete_style(&styles(), partial)
            .into_iter()
            .map(|choice| choice.id)
            .collect()
    };
    assert_eq!(ids(""), vec![3, 1, 31]);
    assert_eq!(ids(" ずんだ"), vec![3, 1, 31]);
    assert_eq!(ids("TEST"), vec![31]);
    assert_eq!(ids("3"), vec![3, 31]);
    assert_eq!(ids("あま"), vec![1]);
    assert_eq!(ids("だれか"), Vec::<u32>::new());

    let many: Vec<StyleChoice> = (0..30)
        .map(|id| StyleChoice {
            label: if id < 29 {
                format!("名前{id} x")
            } else {
                "X".to_owned()
            },
            id,
        })
        .collect();
    let found = autocomplete_style(&many, "x");
    assert_eq!(found.len(), 25);
    assert_eq!(found[0].id, 29);
    assert_eq!(found[1].id, 0);
}

#[test]
fn a_style_is_chosen_by_number() {
    let mut db = Db::new();
    assert_eq!(
        said(voice(&mut db, 5, &styles(), 1)),
        "話者を **ずんだもん（あまあま）** にしました。"
    );
    assert_eq!(db.voice(5).style, StyleId(1));
    assert_eq!(
        said(voice(&mut db, 5, &styles(), 2)),
        "その話者は見つかりませんでした。候補から選んでください。"
    );
    assert_eq!(db.voice(5).style, StyleId(1));
    assert_eq!(
        said(voice(&mut db, 5, &Vec::new(), 2)),
        "話者を **ID 2** にしました。"
    );
    assert_eq!(style_label(&styles(), 3), "ずんだもん（ノーマル）");
}

#[test]
fn numbers_of_a_voice_are_checked() {
    let mut db = Db::new();
    assert_eq!(
        said(speed(&mut db, 5, float(1.5), "1.5")),
        "速さを 1.5 にしました。"
    );
    assert_eq!(
        said(speed(&mut db, 5, float(2.5), "2.5")),
        "0.5 〜 2.0 の範囲で指定してください。"
    );
    assert_eq!(
        said(pitch(&mut db, 5, float(-0.1), "-0.1")),
        "高さを -0.1 にしました。"
    );
    assert_eq!(
        said(pitch(&mut db, 5, float(0.2), "0.2")),
        "-0.15 〜 0.15 の範囲で指定してください。"
    );
    assert_eq!(
        said(intonation(&mut db, 5, float(0.0), "0")),
        "抑揚を 0 にしました。"
    );
    assert_eq!(
        said(intonation(&mut db, 5, float(-1.0), "-1")),
        "0.0 〜 2.0 の範囲で指定してください。"
    );
    let kept = db.voice(5);
    assert_eq!(kept.speed, float(1.5));
    assert_eq!(kept.pitch, float(-0.1));
    assert_eq!(kept.intonation, float(0.0));
}

#[test]
fn lengths_are_checked() {
    let mut db = Db::new();
    assert_eq!(
        said(maxlength(&mut db, Some(1), 200)),
        "読み上げの文字数上限を 200 文字にしました。"
    );
    assert_eq!(
        said(maxlength(&mut db, Some(1), 201)),
        "読み上げの文字数上限を 201 文字にしました。\n長い設定なので、上限に近い発言は読み始めるまで数秒かかります。"
    );
    for value in [0, 501] {
        assert_eq!(
            said(maxlength(&mut db, Some(1), value)),
            "1 〜 500 の範囲で指定してください。"
        );
    }
    assert_eq!(db.guild_settings(1).max_length, 201);
    assert_eq!(
        said(maxlength(&mut db, None, 10)),
        "サーバー内で実行してください。"
    );
}

#[test]
fn features_are_switched_one_by_one() {
    let mut db = Db::new();
    let off = feature(&mut db, Some(1), Feature::Tts, false);
    assert!(off.discard);
    assert_eq!(said(off.reply), "**読み上げ**を無効にしました。");
    assert!(!db.guild_settings(1).tts_enabled);
    assert!(db.guild_settings(1).music_enabled);
    let off = feature(&mut db, Some(1), Feature::Music, false);
    assert!(off.discard);
    let on = feature(&mut db, Some(1), Feature::Music, true);
    assert!(!on.discard);
    assert_eq!(said(on.reply), "**音楽**を有効にしました。");
    let on = feature(&mut db, Some(1), Feature::TimeSignal, true);
    assert_eq!(said(on.reply), "**時報**を有効にしました。");
    assert!(db.guild_settings(1).time_signal_enabled);
    let off = feature(&mut db, Some(1), Feature::TimeSignal, false);
    assert!(!off.discard);
    let refused = feature(&mut db, None, Feature::Tts, true);
    assert_eq!(said(refused.reply), "サーバー内で実行してください。");
}

#[test]
fn the_configuration_is_told() {
    let mut db = Db::new();
    let numbers = Shown {
        speed: "1".to_owned(),
        pitch: "0".to_owned(),
        intonation: "1".to_owned(),
    };
    assert_eq!(
        said(config(&db, Some(1), 5, &styles(), &numbers)),
        "**サーバー設定**\n機能: 読み上げ 有効 / 音楽 有効\n読み上げ中: （未登録）\n紐づけ:\n（なし）\n\
         文字数上限: 100 文字\nBot の発言: 読まない\n無視する接頭辞: `;`\n\n**あなたの声**（サーバー共通）\n\
         話者: ずんだもん（ノーマル） (ID 3)\n速さ: 1 / 高さ: 0 / 抑揚: 1"
    );
    db.add_read_channel(1, 10);
    db.add_read_channel(1, 11);
    db.bind_channel(1, 10, 20);
    db.bind_channel(1, 11, 21);
    db.set_music_enabled(1, false);
    let text = said(config(&db, Some(1), 5, &Vec::new(), &numbers));
    assert!(text.contains("音楽 無効"));
    assert!(text.contains("読み上げ中: <#10> <#11>\n"));
    assert!(text.contains("紐づけ:\n<#10> → <#20>\n<#11> → <#21>\n"));
    assert!(text.contains("話者: ID 3 (ID 3)"));
    assert_eq!(
        said(config(&db, None, 5, &styles(), &numbers)),
        "サーバー内で実行してください。"
    );
}

#[test]
fn the_bot_goes_where_the_channel_is_bound() {
    let mut db = Db::new();
    assert_eq!(channels::join(&db, 1, 10, Caller::In(22)).unwrap(), 22);
    assert_eq!(
        said(channels::join(&db, 1, 10, Caller::Nowhere).unwrap_err()),
        "先にボイスチャンネルに参加するか、`/bind` でこのチャンネルにボイスチャンネルを紐づけてください。"
    );
    assert_eq!(
        said(channels::join(&db, 1, 10, Caller::Unknown).unwrap_err()),
        "サーバー情報を取得できませんでした。"
    );
    assert_eq!(
        said(channels::bind(&mut db, 1, 10, 20)),
        "<#10> を <#20> に紐づけました。`/join` で接続すると読み上げます。"
    );
    assert_eq!(channels::join(&db, 1, 10, Caller::In(22)).unwrap(), 20);
    assert_eq!(channels::join(&db, 1, 10, Caller::Unknown).unwrap(), 20);
}

#[test]
fn what_is_bound_is_read() {
    let mut db = Db::new();
    assert_eq!(
        said(channels::joined(&mut db, 1, 22, 10, true)),
        "<#22> に参加しました。<#10> の発言を読み上げます。"
    );
    assert_eq!(db.read_channels(1), vec![10]);
    db.bind_channel(1, 11, 20);
    db.bind_channel(1, 12, 20);
    assert_eq!(
        said(channels::joined(&mut db, 1, 20, 10, true)),
        "<#20> に参加しました。<#11> <#12> の発言を読み上げます。"
    );
    assert_eq!(db.read_channels(1), vec![10, 11, 12]);
    assert_eq!(
        said(channels::joined(&mut db, 1, 23, 13, false)),
        "ボイスチャンネルへの接続に失敗しました。"
    );
    assert_eq!(db.read_channels(1).len(), 3);
}

#[test]
fn leaving_ends_the_reading() {
    let mut db = Db::new();
    db.add_read_channel(1, 10);
    db.bind_channel(1, 10, 20);
    assert_eq!(
        said(channels::leave(&mut db, 1, Leaving::NotConnected)),
        "ボイスチャンネルに参加していません。"
    );
    assert_eq!(
        said(channels::leave(&mut db, 1, Leaving::Failed)),
        "切断に失敗しました。"
    );
    assert!(db.is_read_channel(1, 10));
    assert_eq!(
        said(channels::leave(&mut db, 1, Leaving::Left)),
        "ボイスチャンネルから切断しました。"
    );
    assert!(!db.is_read_channel(1, 10));
    assert_eq!(db.bound_voice_channel(1, 10), Some(20));
}

#[test]
fn what_is_unbound_is_not_read() {
    let mut db = Db::new();
    db.bind_channel(1, 10, 20);
    db.add_read_channel(1, 10);
    assert_eq!(
        said(channels::unbind(&mut db, 1, 10)),
        "<#10> の紐づけを解除しました。"
    );
    assert!(!db.is_read_channel(1, 10));
    db.add_read_channel(1, 10);
    assert_eq!(
        said(channels::unbind(&mut db, 1, 10)),
        "<#10> は紐づけられていません。"
    );
    assert!(db.is_read_channel(1, 10));
    assert_eq!(said(channels::skip(true)), "スキップしました。");
    assert_eq!(
        said(channels::skip(false)),
        "いま読み上げているものはありません。"
    );
}

#[test]
fn requests_are_resolved_before_they_are_played() {
    let mut db = Db::new();
    playlist::add(&mut db, 1, " 朝 ", " https://www.youtube.com/playlist?list=a ");
    let wish = music::play(&db, 1, " 朝 ").unwrap();
    assert_eq!(wish.query, "https://www.youtube.com/playlist?list=a");
    assert!(wish.playlist);
    assert_eq!(wish.volume, float(0.3));
    let wish = music::play(&db, 1, "朝の曲").unwrap();
    assert_eq!(wish.query, "朝の曲");
    assert!(!wish.playlist);
    assert_eq!(
        said(music::play(&db, 1, "  ").unwrap_err()),
        "URL か検索語を指定してください。"
    );
    db.set_music_enabled(1, false);
    assert_eq!(
        said(music::play(&db, 1, "朝").unwrap_err()),
        "音楽機能は無効です。`/feature` で有効にできます。"
    );
    assert!(music::enabled(None));
    assert!(music::enabled(Some(&GuildSettings::default())));
    assert!(!music::enabled(Some(&db.guild_settings(1))));
}

#[test]
fn a_queued_track_is_told_and_counted() {
    let mut db = Db::new();
    let queued = |position| {
        Ok(Queued {
            track: song("*曲*"),
            position,
        })
    };
    let embed = shown(music::played(&mut db, 1, 5, float(0.45), queued(1)));
    assert_eq!(embed.title, "▶ 再生します");
    assert_eq!(embed.description.as_deref(), Some("\\*曲\\*"));
    assert_eq!(embed.fields[0].name, "音量");
    assert_eq!(embed.fields[0].value, "45%");
    assert!(embed.fields[0].inline);
    let embed = shown(music::played(&mut db, 1, 5, float(0.45), queued(3)));
    assert_eq!(embed.title, "＋ キューに追加しました");
    assert_eq!(embed.fields[0].name, "順番");
    assert_eq!(embed.fields[0].value, "3 番目");
    assert_eq!(
        said(music::played(&mut db, 1, 5, float(0.45), Err("だめ".to_owned()))),
        "再生できませんでした: だめ"
    );
    assert_eq!(db.music_stats_by_track(1), vec![("*曲*".to_owned(), 2)]);
}

#[test]
fn a_queued_playlist_is_told() {
    let outcome = |queued, skipped, unplayable| {
        said(music::playlist_played(Ok(PlaylistQueued {
            queued,
            skipped,
            unplayable,
        })))
    };
    assert_eq!(
        outcome(3, 0, 0),
        "再生リストから 3 曲をキューに追加しました。"
    );
    assert_eq!(
        outcome(48, 7, 2),
        "再生リストから 48 曲をキューに追加しました。\n上限（50 曲）を超えた 7 曲は追加していません。\n再生できない 2 曲は追加していません。"
    );
    assert_eq!(
        said(music::playlist_played(Err("だめ".to_owned()))),
        "再生できませんでした: だめ"
    );
}

#[test]
fn a_queue_is_told() {
    assert_eq!(said(music::queue(&Vec::new(), &None)), "キューは空です。");
    let mut tracks = vec![song("一"), song("二")];
    let embed = shown(music::queue(&tracks, &None));
    assert_eq!(embed.title, "🎵 キュー");
    assert_eq!(
        embed.description.as_deref(),
        Some("▶ **一**（再生中）\n2. 二")
    );
    let now = Some(NowPlaying {
        track: song("一"),
        position: Duration::from_secs(75),
        duration: None,
        paused: false,
    });
    for i in 3..24 {
        tracks.push(song(&format!("曲{i}")));
    }
    let body = shown(music::queue(&tracks, &now)).description.unwrap();
    assert!(body.starts_with("▶ **一**（再生中）\n1:15（長さ不明）\n2. 二\n3. 曲3\n"));
    assert!(body.ends_with("\n21. 曲21\n…ほか 2 件"));
}

#[test]
fn music_is_controlled() {
    let mut db = Db::new();
    assert_eq!(said(music::next(true)), "次の曲へ進みました。");
    assert_eq!(said(music::next(false)), "音楽は流れていません。");
    assert_eq!(
        said(music::stop(true)),
        "音楽を止めて、キューを空にしました。"
    );
    assert_eq!(said(music::stop(false)), "音楽は流れていません。");
    assert_eq!(music::volume(&mut db, 1, 100).unwrap(), float(1.0));
    assert_eq!(music::volume(&mut db, 2, 55).unwrap(), float(0.55));
    assert_eq!(
        said(music::volume(&mut db, 1, 101).unwrap_err()),
        "0 〜 100 の範囲で指定してください。"
    );
    assert_eq!(db.guild_settings(1).music_volume, float(1.0));
    assert_eq!(db.guild_settings(2).music_volume, float(0.55));
    assert_eq!(said(music::volume_set(40, 2)), "音量を 40% にしました。");
    assert_eq!(
        said(music::volume_set(40, 0)),
        "音量を 40% にしました。（次に流す曲から反映されます）"
    );
}

#[test]
fn the_dictionary_is_managed() {
    let mut db = Db::new();
    assert_eq!(said(dict::list(&db, 1)), "辞書は空です。");
    assert_eq!(
        said(dict::add(&mut db, 1, " ", "よみ")),
        "表記と読みの両方を指定してください。"
    );
    assert_eq!(
        said(dict::add(&mut db, 1, " 犬 ", " いぬ ")),
        "辞書に登録しました: **犬** → **いぬ**"
    );
    assert_eq!(said(dict::list(&db, 1)), "**サーバー辞書**\n・犬 → いぬ");
    assert_eq!(said(dict::remove(&mut db, 1, " 犬")), "削除しました: **犬**");
    assert_eq!(
        said(dict::remove(&mut db, 1, "犬")),
        "**犬** は登録されていません。"
    );
    for i in 0..51 {
        db.add_dictionary_entry(1, &format!("a{i}"), "b");
    }
    let list = said(dict::list(&db, 1));
    assert!(list.starts_with("**サーバー辞書**\n・a0 → b\n・a1 → b\n"));
    assert!(list.ends_with("\n・a49 → b\n（51 件中 50 件を表示）"));
}

#[test]
fn favourites_are_managed() {
    let mut db = Db::new();
    assert_eq!(
        said(playlist::list(&db, 1)),
        "お気に入りは空です。`/playlist add` で登録できます。"
    );
    assert_eq!(
        said(playlist::add(&mut db, 1, "朝", " ")),
        "名前と URL の両方を指定してください。"
    );
    assert_eq!(
        said(playlist::add(&mut db, 1, "朝", "https://youtu.be/a")),
        "登録しました: **朝** → https://youtu.be/a"
    );
    playlist::add(&mut db, 1, "Night", "https://youtu.be/b");
    let embed = shown(playlist::list(&db, 1));
    assert_eq!(embed.title, "🎵 お気に入り");
    assert_eq!(
        embed.description.as_deref(),
        Some("・**朝** → https://youtu.be/a\n・**Night** → https://youtu.be/b")
    );
    assert_eq!(
        playlist::autocomplete_playlist_name(&db, 1, " NIG"),
        vec!["Night"]
    );
    assert_eq!(
        playlist::autocomplete_playlist_name(&db, 1, ""),
        vec!["朝", "Night"]
    );
    assert!(playlist::autocomplete_playlist_name(&db, 2, "").is_empty());
    assert_eq!(
        said(playlist::remove(&mut db, 1, "朝 ")),
        "削除しました: **朝**"
    );
    assert_eq!(
        said(playlist::remove(&mut db, 1, "朝")),
        "**朝** は登録されていません。"
    );
}

#[test]
fn reading_is_told_in_numbers() {
    let mut db = Db::new();
    assert_eq!(
        said(speech_stats(&db, 1, 9)),
        "まだ読み上げの記録がありません。"
    );
    db.record_speech_chars(1, 5, 8, 10);
    db.record_speech_chars(1, 6, 9, 30);
    let embed = shown(speech_stats(&db, 1, 9));
    assert_eq!(embed.title, "📊 読み上げ統計");
    assert_eq!(embed.fields[0].value, "今日 30 文字／累計 40 文字");
    assert_eq!(
        embed.fields[1].value,
        "・<@6> 今日 30 文字／累計 30 文字\n・<@5> 今日 0 文字／累計 10 文字"
    );
    for user in 10..31 {
        db.record_speech_chars(1, user, 9, 1);
    }
    let embed = shown(speech_stats(&db, 1, 9));
    assert!(embed.fields[1].value.ends_with("\n…ほか 3 人"));
}

#[test]
fn playing_is_told_in_numbers() {
    let mut db = Db::new();
    assert_eq!(said(music_stats(&db, 1)), "まだ再生の記録がありません。");
    db.record_play(1, 5, "[a]");
    db.record_play(1, 6, "b");
    db.record_play(1, 6, "b");
    let embed = shown(music_stats(&db, 1));
    assert_eq!(embed.title, "📊 再生統計");
    assert_eq!(embed.fields[0].value, "・2 回 b\n・1 回 \\[a\\]");
    assert_eq!(embed.fields[1].value, "・<@6> 2 回\n・<@5> 1 回");
    for i in 0..12 {
        db.record_play(1, 100 + i, &format!("t{i}"));
    }
    let embed = shown(music_stats(&db, 1));
    assert_eq!(embed.fields[0].value.lines().count(), 10);
}

#[test]
fn the_credits_name_the_voice() {
    let mut db = Db::new();
    let embed = shown(about(&db, 5, &styles()));
    assert_eq!(embed.title, "yomiage-bot");
    assert_eq!(embed.fields.len(), 4);
    assert_eq!(embed.fields[1].value, "ずんだもん（ノーマル）");
    db.set_style(5, StyleId(77));
    let embed = shown(about(&db, 5, &styles()));
    assert_eq!(embed.fields[1].value, "ID 77");
    assert!(embed.fields[2].value.contains("VOICEVOX:（キャラクター名）"));
    assert_eq!(shown(help()).fields.len(), 2);
}

#[test]
fn the_time_signal_is_set_up() {
    let mut db = Db::new();
    assert_eq!(
        said(interval(&mut db, 1, Frequency::HalfHourly)),
        "時報の頻度を **30分おき** にしました。"
    );
    assert_eq!(db.guild_settings(1).time_signal_interval, 30);
    assert_eq!(
        said(interval(&mut db, 1, Frequency::Hourly)),
        "時報の頻度を **毎正時** にしました。"
    );
    assert_eq!(db.guild_settings(1).time_signal_interval, 60);
    assert_eq!(
        said(yomiage_bot::commands::timesignal::voice(
            &mut db,
            1,
            &styles(),
            31
        )),
        "時報の話者を **Test（ずんだ）** にしました。"
    );
    assert_eq!(db.guild_settings(1).time_signal_style, 31);
    assert_eq!(
        said(yomiage_bot::commands::timesignal::voice(
            &mut db,
            1,
            &styles(),
            32
        )),
        "その話者は見つかりませんでした。候補から選んでください。"
    );
}

#[test]
fn suggestions_are_chosen_among_small_letters() {
    let candidate = |lowered: &str, label: &str, id: u32| Candidate {
        lowered: lowered.to_owned(),
        choice: StyleChoice {
            label: label.to_owned(),
            id,
        },
    };
    let candidates = vec![
        candidate("the abc", "The ABC", 7),
        candidate("abc", "Abc", 8),
        candidate("xyz", "Xyz", 9),
    ];
    let ids = |needle: &str| -> Vec<u32> {
        suggest(&candidates, needle)
            .iter()
            .map(|choice| choice.id)
            .collect()
    };
    assert_eq!(ids("abc"), [8, 7]);
    assert_eq!(ids("9"), [9]);
    assert_eq!(ids(""), [7, 8, 9]);
    assert_eq!(ids("ABC"), [0u32; 0]);

    let pair = |name: &str, lowered: &str| (name.to_owned(), lowered.to_owned());
    let names = vec![pair("Lo-Fi", "lo-fi"), pair("Rock", "rock")];
    assert_eq!(playlist::suggest_names(&names, "fi"), ["Lo-Fi"]);
    assert_eq!(playlist::suggest_names(&names, "F"), [""; 0]);
    let many: Vec<(String, String)> = (0..30).map(|_| pair("a", "a")).collect();
    assert_eq!(playlist::suggest_names(&many, "").len(), 25);
}

#[test]
fn the_credits_are_told_without_a_voice() {
    let embed = shown(about_without_voice());
    assert_eq!(embed.title, "yomiage-bot");
    assert_eq!(embed.fields.len(), 4);
    assert_eq!(embed.fields[1].value, "（取得できませんでした）");
}

#[test]
fn the_music_bot_goes_to_the_caller() {
    assert_eq!(channels::music_join(Caller::In(7)).unwrap(), 7);
    assert_eq!(
        said(channels::music_join(Caller::Nowhere).unwrap_err()),
        "先にボイスチャンネルに参加してください。"
    );
    assert_eq!(
        said(channels::music_join(Caller::Unknown).unwrap_err()),
        "サーバー情報を取得できませんでした。"
    );
    assert_eq!(said(channels::music_joined(7, true)), "<#7> に参加しました。");
    assert_eq!(
        said(channels::music_joined(7, false)),
        "ボイスチャンネルへの接続に失敗しました。"
    );
}
