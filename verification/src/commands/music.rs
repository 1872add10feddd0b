//! Playing music.

use vstd::prelude::*;

use crate::chars;
use crate::chars::Edge;
use crate::commands::reply;
use crate::commands::reply::FieldModel;
use crate::commands::reply::Reply;
use crate::commands::reply::ReplyModel;
use crate::db;
use crate::db::Db;
use crate::db::DbModel;
use crate::db::GuildSettings;
use crate::db::SettingsModel;
use crate::music;
use crate::music::NowPlaying;
use crate::music::PlaylistQueued;
use crate::music::Queued;
use crate::music::QueuedTrack;
use crate::music::PLAYLIST_LIMIT;
use crate::scale::Scale;
use crate::volume::percent_of;
use crate::volume::share_of;
use crate::volume::MAX_VOLUME;

verus! {

/// How many of the tracks that wait are listed.
pub const QUEUE_LIMIT: usize = 20;

/// What is said where music is switched off.
pub const MUSIC_DISABLED: &'static str = "音楽機能は無効です。`/feature` で有効にできます。";

/// Whether music is switched on, given the settings of a guild, if they can be read. Settings that
/// cannot be read do not keep music off.
pub fn enabled(settings: Option<&GuildSettings>) -> (out: bool)
    ensures
        out == match settings {
            Some(settings) => settings.music_enabled,
            None => true,
        },
{
    match settings {
        Some(settings) => settings.music_enabled,
        None => true,
    }
}

/// What is to be played.
#[derive(Debug)]
pub struct Wish {
    /// An address or words to search for.
    pub query: String,
    /// Whether it is a whole playlist.
    pub playlist: bool,
    /// The volume as a share of the loudest.
    pub volume: Scale,
}

/// What a request stands for: the address of a favourite with exactly that name, or itself.
pub open spec fn resolved(playlist: Map<(u64, Seq<char>), Seq<char>>, guild_id: u64, query: Seq<
    char,
>) -> Seq<char> {
    if playlist.contains_key((guild_id, query)) {
        playlist[(guild_id, query)]
    } else {
        query
    }
}

/// Decides what is to be played on a request.
pub fn play(db: &Db, guild_id: u64, query: &str) -> (out: Result<Wish, Reply>)
    requires
        db.well_formed(),
    ensures
        ({
            let settings = db@.settings_of(guild_id);
            let asked = chars::trimmed(Edge::Space, query@);
            match out {
                Ok(wish) => {
                    &&& settings.music_enabled
                    &&& asked.len() > 0
                    &&& wish.query@ == resolved(db@.playlist, guild_id, asked)
                    &&& wish.playlist == music::leads_to_playlist(wish.query@)
                    &&& wish.volume == settings.music_volume
                },
                Err(refusal) => {
                    &&& !settings.music_enabled || asked.len() == 0
                    &&& refusal@ == ReplyModel::Text(
                        if !settings.music_enabled {
                            MUSIC_DISABLED@
                        } else {
                            "URL か検索語を指定してください。"@
                        },
                    )
                },
            }
        }),
{
    let settings = db.guild_settings(guild_id);
    if !enabled(Some(&settings)) {
        return Err(reply::say(MUSIC_DISABLED));
    }
    let asked = chars::trim_text(Edge::Space, query);
    if asked.as_str().is_empty() {
        return Err(reply::say("URL か検索語を指定してください。"));
    }
    let query = match db.playlist_url(guild_id, asked.as_str()) {
        Some(url) => url,
        None => asked,
    };
    let playlist = music::is_playlist_url(query.as_str());
    Ok(Wish { query, playlist, volume: settings.music_volume })
}

/// What is told of a track that was queued: that it plays, with the volume, or its place.
pub open spec fn queued_reply(track: music::TrackModel, position: nat, percent: nat) -> ReplyModel {
    if position <= 1 {
        ReplyModel::Embed {
            title: "▶ 再生します"@,
            description: Some(music::linked(track)),
            fields: seq![
                FieldModel { name: "音量"@, value: chars::decimal(percent) + "%"@, inline: true },
            ],
        }
    } else {
        ReplyModel::Embed {
            title: "＋ キューに追加しました"@,
            description: Some(music::linked(track)),
            fields: seq![
                FieldModel {
                    name: "順番"@,
                    value: chars::decimal(position) + " 番目"@,
                    inline: true,
                },
            ],
        }
    }
}

/// Takes in whether a track was queued for a user. A track that was is counted.
pub fn played(
    db: &mut Db,
    guild_id: u64,
    user_id: u64,
    share: Scale,
    outcome: Result<Queued, String>,
) -> (out: Reply)
    requires
        old(db).well_formed(),
    ensures
        final(db).well_formed(),
        match outcome {
            Ok(queued) => {
                &&& out@ == queued_reply(
                    queued.track@,
                    queued.position as nat,
                    crate::volume::shown(share),
                )
                &&& final(db)@ == (DbModel {
                    tracks: old(db)@.tracks.insert(
                        (guild_id, queued.track.title@),
                        db::one_more(old(db)@.tracks, (guild_id, queued.track.title@)),
                    ),
                    listeners: old(db)@.listeners.insert(
                        (guild_id, user_id),
                        db::one_more(old(db)@.listeners, (guild_id, user_id)),
                    ),
                    ..old(db)@
                })
            },
            Err(reason) => {
                &&& *final(db) == *old(db)
                &&& out@ == ReplyModel::Text("再生できませんでした: "@ + reason@)
            },
        },
{
    match outcome {
        Ok(queued) => {
            db.record_play(guild_id, user_id, queued.track.title.as_str());
            let link = queued.track.link();
            if queued.position <= 1 {
                let percent = chars::decimal_text(percent_of(share) as u64).concat("%");
                reply::framed("▶ 再生します", link, Some(reply::field("音量", percent, true)))
            } else {
                let place = chars::decimal_text(queued.position as u64).concat(" 番目");
                reply::framed(
                    "＋ キューに追加しました",
                    link,
                    Some(reply::field("順番", place, true)),
                )
            }
        },
        Err(reason) => Reply::Text("再生できませんでした: ".to_owned().concat(reason.as_str())),
    }
}

/// What is told of a playlist that was queued: how many tracks of it were, and how many were not
/// and why.
pub open spec fn playlist_reply(outcome: PlaylistQueued) -> Seq<char> {
    "再生リストから "@ + chars::decimal(outcome.queued as nat) + " 曲をキューに追加しました。"@ + if outcome.skipped
        > 0 {
        "\n上限（"@ + chars::decimal(PLAYLIST_LIMIT as nat) + " 曲）を超えた "@ + chars::decimal(
            outcome.skipped as nat,
        ) + " 曲は追加していません。"@
    } else {
        ""@
    } + if outcome.unplayable > 0 {
        "\n再生できない "@ + chars::decimal(outcome.unplayable as nat) + " 曲は追加していません。"@
    } else {
        ""@
    }
}

/// Takes in whether a playlist was queued. Its tracks are not counted.
pub fn playlist_played(outcome: Result<PlaylistQueued, String>) -> (out: Reply)
    ensures
        out@ == ReplyModel::Text(
            match outcome {
                Ok(outcome) => playlist_reply(outcome),
                Err(reason) => "再生できませんでした: "@ + reason@,
            },
        ),
{
    let outcome = match outcome {
        Ok(outcome) => outcome,
        Err(reason) => return Reply::Text(
            "再生できませんでした: ".to_owned().concat(reason.as_str()),
        ),
    };
    let queued = chars::decimal_text(outcome.queued as u64);
    let skipped = if outcome.skipped > 0 {
        let count = chars::decimal_text(outcome.skipped as u64);
        let limit = chars::decimal_text(PLAYLIST_LIMIT as u64);
        "\n上限（".to_owned().concat(limit.as_str()).concat(" 曲）を超えた ").concat(
            count.as_str(),
        ).concat(" 曲は追加していません。")
    } else {
        "".to_owned()
    };
    let unplayable = if outcome.unplayable > 0 {
        let count = chars::decimal_text(outcome.unplayable as u64);
        "\n再生できない ".to_owned().concat(count.as_str()).concat(" 曲は追加していません。")
    } else {
        "".to_owned()
    };
    Reply::Text(
        "再生リストから ".to_owned().concat(queued.as_str()).concat(" 曲をキューに追加しました。").concat(
            skipped.as_str(),
        ).concat(unplayable.as_str()),
    )
}

/// What is told of a queue.
pub open spec fn queue_reply(tracks: Seq<music::TrackModel>, now: Option<NowPlaying>) -> ReplyModel {
    if tracks.len() == 0 {
        ReplyModel::Text("キューは空です。"@)
    } else {
        ReplyModel::Embed {
            title: "🎵 キュー"@,
            description: Some(
                "▶ **"@ + music::linked(tracks[0]) + "**（再生中）"@ + match now {
                    Some(now) => "\n"@ + music::progress(now.position, now.duration),
                    None => ""@,
                } + reply::waiting(tracks, QUEUE_LIMIT as nat),
            ),
            fields: Seq::empty(),
        }
    }
}

/// Tells the tracks of a queue, with the progress of the one that plays where it is known.
pub fn queue(tracks: &Vec<QueuedTrack>, now: &Option<NowPlaying>) -> (out: Reply)
    ensures
        out@ == queue_reply(reply::track_views(tracks@), *now),
{
    if tracks.len() == 0 {
        return reply::say("キューは空です。");
    }
    let link = tracks[0].link();
    let progress = match now {
        Some(now) => {
            let bar = music::progress_bar(now.position, now.duration);
            "\n".to_owned().concat(bar.as_str())
        },
        None => "".to_owned(),
    };
    let rest = reply::list_waiting(tracks, QUEUE_LIMIT);
    let body = "▶ **".to_owned().concat(link.as_str()).concat("**（再生中）").concat(
        progress.as_str(),
    ).concat(rest.as_str());
    reply::framed("🎵 キュー", body, None)
}

/// Takes in whether a track was skipped.
pub fn next(skipped: bool) -> (out: Reply)
    ensures
        out@ == ReplyModel::Text(
            if skipped {
                "次の曲へ進みました。"@
            } else {
                "音楽は流れていません。"@
            },
        ),
{
    if skipped {
        reply::say("次の曲へ進みました。")
    } else {
        reply::say("音楽は流れていません。")
    }
}

/// Takes in whether the music was stopped.
pub fn stop(stopped: bool) -> (out: Reply)
    ensures
        out@ == ReplyModel::Text(
            if stopped {
                "音楽を止めて、キューを空にしました。"@
            } else {
                "音楽は流れていません。"@
            },
        ),
{
    if stopped {
        reply::say("音楽を止めて、キューを空にしました。")
    } else {
        reply::say("音楽は流れていません。")
    }
}

/// Sets the volume of a guild in percent, unless it is out of range. Hands out the share of the
/// loudest that it is.
pub fn volume(db: &mut Db, guild_id: u64, percent: u32) -> (out: Result<Scale, Reply>)
    requires
        old(db).well_formed(),
    ensures
        final(db).well_formed(),
        match out {
            Ok(share) => {
                &&& percent <= MAX_VOLUME
                &&& crate::volume::is_share(share, percent as nat)
                &&& crate::volume::shown(share) == percent
                &&& final(db)@ == old(db)@.with_settings(
                    guild_id,
                    SettingsModel { music_volume: share, ..old(db)@.settings_of(guild_id) },
                )
            },
            Err(refusal) => {
                &&& percent > MAX_VOLUME
                &&& *final(db) == *old(db)
                &&& refusal@ == ReplyModel::Text("0 〜 100 の範囲で指定してください。"@)
            },
        },
{
    if percent > MAX_VOLUME {
        return Err(reply::say("0 〜 100 の範囲で指定してください。"));
    }
    let share = share_of(percent);
    db.set_music_volume(guild_id, share);
    Ok(share)
}

/// Takes in for how many tracks a volume was set at once.
pub fn volume_set(percent: u32, applied: usize) -> (out: Reply)
    ensures
        out@ == ReplyModel::Text(
            "音量を "@ + chars::decimal(percent as nat) + "% にしました。"@ + if applied > 0 {
                ""@
            } else {
                "（次に流す曲から反映されます）"@
            },
        ),
{
    let shown = chars::decimal_text(percent as u64);
    let note = if applied > 0 {
        ""
    } else {
        "（次に流す曲から反映されます）"
    };
    Reply::Text("音量を ".to_owned().concat(shown.as_str()).concat("% にしました。").concat(note))
}

/// A favourite is played by its name, in its guild and in no other, and everything else as it was
/// asked for.
pub proof fn favourites_are_played_by_name(
    playlist: Map<(u64, Seq<char>), Seq<char>>,
    guild_id: u64,
    name: Seq<char>,
    url: Seq<char>,
    other: u64,
    query: Seq<char>,
)
    requires
        other != guild_id,
        query != name,
    ensures
        resolved(playlist.insert((guild_id, name), url), guild_id, name) == url,
        resolved(playlist.insert((guild_id, name), url), guild_id, query) == resolved(
            playlist,
            guild_id,
            query,
        ),
        resolved(playlist.insert((guild_id, name), url), other, name) == resolved(
            playlist,
            other,
            name,
        ),
        resolved(playlist.remove((guild_id, name)), guild_id, name) == name,
{
}

/// A track that plays at once is told with the volume, any other with its place in the queue. Either
/// way its title leads to its page.
pub proof fn a_queued_track_is_told_its_place(
    track: music::TrackModel,
    position: nat,
    percent: nat,
)
    ensures
        queued_reply(track, position, percent) is Embed,
        queued_reply(track, position, percent)->description == Some(music::linked(track)),
        queued_reply(track, position, percent)->fields.len() == 1,
        position <= 1 ==> {
            &&& queued_reply(track, position, percent)->title == "▶ 再生します"@
            &&& queued_reply(track, position, percent)->fields[0].name == "音量"@
            &&& queued_reply(track, position, percent)->fields[0].value == chars::decimal(percent)
                + "%"@
        },
        position > 1 ==> {
            &&& queued_reply(track, position, percent)->title == "＋ キューに追加しました"@
            &&& queued_reply(track, position, percent)->fields[0].name == "順番"@
            &&& queued_reply(track, position, percent)->fields[0].value == chars::decimal(position)
                + " 番目"@
        },
{
}

/// The number of tracks that were queued is told first. What is beyond fifty and what cannot be played
/// adds a line each that tells its number, and nothing else does.
pub proof fn what_was_left_out_is_told(queued: usize, skipped: usize, unplayable: usize)
    ensures
        playlist_reply((PlaylistQueued { queued, skipped: 0, unplayable: 0 })) == "再生リストから "@
            + chars::decimal(queued as nat) + " 曲をキューに追加しました。"@,
        skipped > 0 ==> playlist_reply((PlaylistQueued { queued, skipped, unplayable: 0 }))
            == playlist_reply((PlaylistQueued { queued, skipped: 0, unplayable: 0 })) + "\n上限（"@
            + chars::decimal(50) + " 曲）を超えた "@ + chars::decimal(skipped as nat)
            + " 曲は追加していません。"@,
        unplayable > 0 ==> playlist_reply((PlaylistQueued { queued, skipped, unplayable }))
            == playlist_reply((PlaylistQueued { queued, skipped, unplayable: 0 }))
            + "\n再生できない "@ + chars::decimal(unplayable as nat) + " 曲は追加していません。"@,
{
    reveal_strlit("");
}

/// The queue begins with the track that plays, and with how far it is where that is known. Each track
/// that joins the queue adds a line with its place, up to twenty; beyond them only the number is told.
pub proof fn the_queue_is_told_in_order(
    tracks: Seq<music::TrackModel>,
    track: music::TrackModel,
    now: Option<NowPlaying>,
)
    requires
        tracks.len() > 0,
    ensures
        queue_reply(Seq::empty(), now) == ReplyModel::Text("キューは空です。"@),
        queue_reply(seq![track], now) is Embed,
        now is None ==> queue_reply(seq![track], now)->description == Some(
            "▶ **"@ + music::linked(track) + "**（再生中）"@,
        ),
        now is Some ==> queue_reply(seq![track], now)->description == Some(
            queue_reply(seq![track], None)->description->0 + "\n"@ + music::progress(
                now->0.position,
                now->0.duration,
            ),
        ),
        tracks.len() <= 20 ==> queue_reply(tracks.push(track), now)->description == Some(
            queue_reply(tracks, now)->description->0 + "\n"@ + chars::decimal(tracks.len() + 1)
                + ". "@ + music::linked(track),
        ),
        tracks.len() > 21 ==> queue_reply(tracks, now)->description == Some(
            queue_reply(tracks.take(21), now)->description->0 + "\n…ほか "@ + chars::decimal(
                (tracks.len() - 21) as nat,
            ) + " 件"@,
        ),
{
    reveal_strlit("");
    reply::what_waits_is_listed(tracks, track, 20);
    reply::what_waits_is_listed(seq![track], track, 20);
    assert(tracks.push(track)[0] == tracks[0]);
    let none: Option<NowPlaying> = None;
    assert(queue_reply(seq![track], none)->description->0 =~= "▶ **"@ + music::linked(track)
        + "**（再生中）"@);
    if now is Some {
        assert(queue_reply(seq![track], now)->description->0 =~= queue_reply(
            seq![track],
            none,
        )->description->0 + "\n"@ + music::progress(now->0.position, now->0.duration));
    } else {
        assert(now == none);
    }
    if tracks.len() <= 20 {
        assert(queue_reply(tracks.push(track), now)->description->0 =~= queue_reply(
            tracks,
            now,
        )->description->0 + "\n"@ + chars::decimal(tracks.len() + 1) + ". "@ + music::linked(track));
    }
    if tracks.len() > 21 {
        assert(queue_reply(tracks, now)->description->0 =~= queue_reply(
            tracks.take(21),
            now,
        )->description->0 + "\n…ほか "@ + chars::decimal((tracks.len() - 21) as nat) + " 件"@);
    }
}

} // verus!
