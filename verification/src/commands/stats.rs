//! What was read aloud and played, in numbers.

use vstd::prelude::*;

use crate::chars;
use crate::commands::reply;
use crate::commands::reply::FieldModel;
use crate::commands::reply::Reply;
use crate::commands::reply::ReplyModel;
use crate::db;
use crate::db::Db;
use crate::db::Reader;
use crate::music;
use crate::rank;
use crate::table;

verus! {

/// How many users are listed with what was read of them.
pub const READER_LIMIT: usize = 20;

/// How many tracks and users are listed with how often they were played and had something played.
pub const PLAY_LIMIT: usize = 10;

/// The characters of a day that users wrote.
pub open spec fn sum_today(readers: Seq<Reader>) -> nat
    decreases readers.len(),
{
    if readers.len() == 0 {
        0
    } else {
        sum_today(readers.drop_last()) + readers.last().today as nat
    }
}

/// The characters of all days that users wrote.
pub open spec fn sum_total(readers: Seq<Reader>) -> nat
    decreases readers.len(),
{
    if readers.len() == 0 {
        0
    } else {
        sum_total(readers.drop_last()) + readers.last().total as nat
    }
}

/// Users with the numbers that they are ranked by.
pub open spec fn by_total(readers: Seq<Reader>) -> Seq<(Reader, u64)> {
    Seq::new(readers.len(), |i: int| (readers[i], readers[i].total))
}

/// So many characters today and in all.
pub open spec fn amount(today: nat, total: nat) -> Seq<char> {
    "今日 "@ + chars::decimal(today) + " 文字／累計 "@ + chars::decimal(total) + " 文字"@
}

/// So many characters today and in all.
fn amount_text(today: u128, total: u128) -> (out: String)
    ensures
        out@ == amount(today as nat, total as nat),
{
    let today = chars::long_decimal_text(today);
    let total = chars::long_decimal_text(total);
    "今日 ".to_owned().concat(today.as_str()).concat(" 文字／累計 ").concat(total.as_str()).concat(" 文字")
}

/// The line of a user.
pub open spec fn reader_line(reader: Reader) -> Seq<char> {
    "・<@"@ + chars::decimal(reader.user_id as nat) + "> "@ + amount(
        reader.today as nat,
        reader.total as nat,
    )
}

/// The lines of the first so many users of a ranking.
pub open spec fn reader_lines(ranking: Seq<(Reader, u64)>, count: nat) -> Seq<Seq<char>> {
    Seq::new(count, |i: int| reader_line(ranking[i].0))
}

/// The users of a ranking in a line each, and how many more there are.
pub open spec fn reader_board(ranking: Seq<(Reader, u64)>) -> Seq<char> {
    if ranking.len() > READER_LIMIT {
        chars::joined(reader_lines(ranking, READER_LIMIT as nat), "\n"@) + "\n…ほか "@
            + chars::decimal((ranking.len() - READER_LIMIT) as nat) + " 人"@
    } else {
        chars::joined(reader_lines(ranking, ranking.len()), "\n"@)
    }
}

/// What is told of what was read aloud.
pub open spec fn speech_reply(readers: Seq<Reader>) -> ReplyModel {
    if readers.len() == 0 {
        ReplyModel::Text("まだ読み上げの記録がありません。"@)
    } else {
        ReplyModel::Embed {
            title: "📊 読み上げ統計"@,
            description: None,
            fields: seq![
                FieldModel {
                    name: "サーバー合計"@,
                    value: amount(sum_today(readers), sum_total(readers)),
                    inline: false,
                },
                FieldModel {
                    name: "ユーザー別"@,
                    value: reader_board(rank::ranked(by_total(readers))),
                    inline: false,
                },
            ],
        }
    }
}

/// The characters of a day and of all days that users wrote.
fn sums(readers: &Vec<Reader>) -> (out: (u128, u128))
    ensures
        out.0 == sum_today(readers@),
        out.1 == sum_total(readers@),
{
    let count: usize = readers.len();
    let mut today: u128 = 0;
    let mut total: u128 = 0;
    let mut i: usize = 0;
    while i < count
        invariant
            i <= count,
            count == readers@.len(),
            today == sum_today(readers@.take(i as int)),
            total == sum_total(readers@.take(i as int)),
            today <= i * 0xffff_ffff_ffff_ffff,
            total <= i * 0xffff_ffff_ffff_ffff,
        decreases count - i,
    {
        let reader: Reader = readers[i];
        proof {
            assert(readers@.take(i + 1).drop_last() == readers@.take(i as int));
            assert(readers@.take(i + 1).last() == readers@[i as int]);
            assert((i + 1) * 0xffff_ffff_ffff_ffff <= 0xffff_ffff_ffff_ffff * 0xffff_ffff_ffff_ffff)
                by (nonlinear_arith)
                requires
                    i + 1 <= 0xffff_ffff_ffff_ffff,
            ;
        }
        today = today + reader.today as u128;
        total = total + reader.total as u128;
        i = i + 1;
    }
    assert(readers@.take(i as int) == readers@);
    (today, total)
}

/// The users of a ranking in a line each.
fn list_readers(ranking: &Vec<(Reader, u64)>) -> (out: String)
    ensures
        out@ == reader_board(ranking@),
{
    let total: usize = ranking.len();
    let count: usize = if total > READER_LIMIT {
        READER_LIMIT
    } else {
        total
    };
    let mut parts: Vec<String> = Vec::new();
    let mut i: usize = 0;
    while i < count
        invariant
            i <= count <= ranking@.len(),
            parts@.len() == i,
            forall|j: int| 0 <= j < i ==> (#[trigger] parts@[j])@ == reader_line(ranking@[j].0),
        decreases count - i,
    {
        let reader: Reader = ranking[i].0;
        let user = chars::decimal_text(reader.user_id);
        let shown = amount_text(reader.today as u128, reader.total as u128);
        parts.push("・<@".to_owned().concat(user.as_str()).concat("> ").concat(shown.as_str()));
        i = i + 1;
    }
    assert(chars::views(parts@) =~= reader_lines(ranking@, count as nat));
    let body = chars::join(&parts, "\n");
    if total > READER_LIMIT {
        let more = chars::decimal_text((total - READER_LIMIT) as u64);
        body.concat("\n…ほか ").concat(more.as_str()).concat(" 人")
    } else {
        body
    }
}

/// Users with the numbers that they are ranked by.
fn keyed(readers: &Vec<Reader>) -> (out: Vec<(Reader, u64)>)
    ensures
        out@ == by_total(readers@),
{
    let mut out: Vec<(Reader, u64)> = Vec::new();
    let mut i: usize = 0;
    while i < readers.len()
        invariant
            i <= readers@.len(),
            out@ =~= by_total(readers@).take(i as int),
        decreases readers@.len() - i,
    {
        let reader: Reader = readers[i];
        out.push((reader, reader.total));
        i = i + 1;
    }
    assert(by_total(readers@).take(i as int) =~= by_total(readers@));
    out
}

/// Tells what was read aloud in a guild, on a day and in all.
pub fn speech_stats(db: &Db, guild_id: u64, day: i64) -> (out: Reply)
    requires
        db.well_formed(),
    ensures
        out@ == speech_reply(db::readers(db.speech_list(guild_id), day)),
{
    let readers = db.speech_stats(guild_id, day);
    if readers.len() == 0 {
        return reply::say("まだ読み上げの記録がありません。");
    }
    let (today, total) = sums(&readers);
    let ranking = rank::rank(keyed(&readers));
    let whole = reply::field("サーバー合計", amount_text(today, total), false);
    let each = reply::field("ユーザー別", list_readers(&ranking), false);
    let fields = vec![whole, each];
    assert(reply::field_views(fields@) =~= seq![whole@, each@]);
    reply::board("📊 読み上げ統計", None, fields)
}

/// The line of a track: how often it was played, and its title.
pub open spec fn track_line(entry: (Seq<char>, u64)) -> Seq<char> {
    "・"@ + chars::decimal(entry.1 as nat) + " 回 "@ + music::linked(
        music::TrackModel { title: entry.0, url: None },
    )
}

/// The line of a user: how often something was played for them.
pub open spec fn listener_line(entry: (u64, u64)) -> Seq<char> {
    "・<@"@ + chars::decimal(entry.0 as nat) + "> "@ + chars::decimal(entry.1 as nat) + " 回"@
}

/// How many of a ranking are listed.
pub open spec fn shown_of(len: nat) -> nat {
    if len > PLAY_LIMIT {
        PLAY_LIMIT as nat
    } else {
        len
    }
}

/// The lines of the first tracks of a ranking.
pub open spec fn track_board(ranking: Seq<(Seq<char>, u64)>) -> Seq<char> {
    chars::joined(
        Seq::new(shown_of(ranking.len()), |i: int| track_line(ranking[i])),
        "\n"@,
    )
}

/// The lines of the first users of a ranking.
pub open spec fn listener_board(ranking: Seq<(u64, u64)>) -> Seq<char> {
    chars::joined(
        Seq::new(shown_of(ranking.len()), |i: int| listener_line(ranking[i])),
        "\n"@,
    )
}

/// What is told of what was played.
pub open spec fn music_reply(
    tracks: Seq<(Seq<char>, u64)>,
    listeners: Seq<(u64, u64)>,
) -> ReplyModel {
    if tracks.len() == 0 {
        ReplyModel::Text("まだ再生の記録がありません。"@)
    } else {
        ReplyModel::Embed {
            title: "📊 再生統計"@,
            description: None,
            fields: seq![
                FieldModel {
                    name: "曲別（再生回数順）"@,
                    value: track_board(rank::ranked(tracks)),
                    inline: false,
                },
                FieldModel {
                    name: "ユーザー別（リクエスト回数順）"@,
                    value: listener_board(rank::ranked(listeners)),
                    inline: false,
                },
            ],
        }
    }
}

/// The lines of the first tracks of a ranking.
fn list_tracks(ranking: &Vec<(String, u64)>) -> (out: String)
    ensures
        out@ == track_board(table::pairs(ranking@)),
{
    let count: usize = if ranking.len() > PLAY_LIMIT {
        PLAY_LIMIT
    } else {
        ranking.len()
    };
    let ghost said = table::pairs(ranking@);
    let mut parts: Vec<String> = Vec::new();
    let mut i: usize = 0;
    while i < count
        invariant
            i <= count <= ranking@.len(),
            said == table::pairs(ranking@),
            parts@.len() == i,
            forall|j: int| 0 <= j < i ==> (#[trigger] parts@[j])@ == track_line(said[j]),
        decreases count - i,
    {
        let plays = chars::decimal_text(ranking[i].1);
        let title = music::track_link(ranking[i].0.as_str(), None);
        assert(said[i as int] == (ranking@[i as int].0@, ranking@[i as int].1));
        parts.push("・".to_owned().concat(plays.as_str()).concat(" 回 ").concat(title.as_str()));
        i = i + 1;
    }
    assert(chars::views(parts@) =~= Seq::new(
        shown_of(said.len()),
        |i: int| track_line(said[i]),
    ));
    chars::join(&parts, "\n")
}

/// The lines of the first users of a ranking.
fn list_listeners(ranking: &Vec<(u64, u64)>) -> (out: String)
    ensures
        out@ == listener_board(ranking@),
{
    let count: usize = if ranking.len() > PLAY_LIMIT {
        PLAY_LIMIT
    } else {
        ranking.len()
    };
    let mut parts: Vec<String> = Vec::new();
    let mut i: usize = 0;
    while i < count
        invariant
            i <= count <= ranking@.len(),
            parts@.len() == i,
            forall|j: int| 0 <= j < i ==> (#[trigger] parts@[j])@ == listener_line(ranking@[j]),
        decreases count - i,
    {
        let user = chars::decimal_text(ranking[i].0);
        let plays = chars::decimal_text(ranking[i].1);
        parts.push(
            "・<@".to_owned().concat(user.as_str()).concat("> ").concat(plays.as_str()).concat(" 回"),
        );
        i = i + 1;
    }
    assert(chars::views(parts@) =~= Seq::new(
        shown_of(ranking@.len()),
        |i: int| listener_line(ranking@[i]),
    ));
    chars::join(&parts, "\n")
}

/// Tells what was played in a guild.
pub fn music_stats(db: &Db, guild_id: u64) -> (out: Reply)
    requires
        db.well_formed(),
    ensures
        out@ == music_reply(db.track_list(guild_id), db.listener_list(guild_id)),
{
    let tracks = db.music_stats_by_track(guild_id);
    proof {
        rank::a_ranking_is_ordered(db.track_list(guild_id));
        assert(table::pairs(tracks@).len() == tracks@.len());
    }
    if tracks.len() == 0 {
        return reply::say("まだ再生の記録がありません。");
    }
    let listeners = db.music_stats_by_user(guild_id);
    let by_track = reply::field("曲別（再生回数順）", list_tracks(&tracks), false);
    let by_user = reply::field("ユーザー別（リクエスト回数順）", list_listeners(&listeners), false);
    let fields = vec![by_track, by_user];
    assert(reply::field_views(fields@) =~= seq![by_track@, by_user@]);
    reply::board("📊 再生統計", None, fields)
}

/// What all users together wrote is the sum over the users, whoever they are and however they are
/// listed.
pub proof fn sums_are_over_all_users(a: Seq<Reader>, b: Seq<Reader>, reader: Reader)
    ensures
        sum_today(a + b) == sum_today(a) + sum_today(b),
        sum_total(a + b) == sum_total(a) + sum_total(b),
        sum_today(seq![reader]) == reader.today,
        sum_total(seq![reader]) == reader.total,
    decreases b.len(),
{
    reveal_with_fuel(sum_today, 2);
    reveal_with_fuel(sum_total, 2);
    assert(seq![reader].drop_last() =~= Seq::<Reader>::empty());
    if b.len() == 0 {
        assert(a + b =~= a);
    } else {
        sums_are_over_all_users(a, b.drop_last(), reader);
        assert((a + b).drop_last() =~= a + b.drop_last());
        assert((a + b).last() == b.last());
    }
}

/// The users of a ranking have a line each, up to twenty; of a longer ranking the first twenty have,
/// and it is told how many more there are. Of tracks and of those who had something played, the first
/// ten have a line.
pub proof fn the_first_of_a_ranking_are_listed(
    readers: Seq<(Reader, u64)>,
    reader: (Reader, u64),
    tracks: Seq<(Seq<char>, u64)>,
    track: (Seq<char>, u64),
    listeners: Seq<(u64, u64)>,
    listener: (u64, u64),
)
    ensures
        0 < readers.len() < 20 ==> reader_board(readers.push(reader)) == reader_board(readers)
            + "\n"@ + reader_line(reader.0),
        readers.len() > 20 ==> reader_board(readers) == reader_board(readers.take(20)) + "\n…ほか "@
            + chars::decimal((readers.len() - 20) as nat) + " 人"@,
        0 < tracks.len() < 10 ==> track_board(tracks.push(track)) == track_board(tracks) + "\n"@
            + track_line(track),
        tracks.len() > 10 ==> track_board(tracks) == track_board(tracks.take(10)),
        0 < listeners.len() < 10 ==> listener_board(listeners.push(listener)) == listener_board(
            listeners,
        ) + "\n"@ + listener_line(listener),
        listeners.len() > 10 ==> listener_board(listeners) == listener_board(listeners.take(10)),
{
    if 0 < readers.len() < 20 {
        let longer = reader_lines(readers.push(reader), readers.len() + 1);
        assert(longer.drop_last() =~= reader_lines(readers, readers.len()));
        assert(longer.last() == reader_line(reader.0));
    }
    if readers.len() > 20 {
        assert(reader_lines(readers, 20) =~= reader_lines(readers.take(20), 20));
    }
    let tl = |ranking: Seq<(Seq<char>, u64)>|
        Seq::new(shown_of(ranking.len()), |i: int| track_line(ranking[i]));
    if 0 < tracks.len() < 10 {
        let longer = tl(tracks.push(track));
        assert(longer.drop_last() =~= tl(tracks));
        assert(longer.last() == track_line(track));
        assert(track_board(tracks.push(track)) == chars::joined(longer, "\n"@));
    }
    if tracks.len() > 10 {
        assert(tl(tracks) =~= tl(tracks.take(10)));
    }
    let ll = |ranking: Seq<(u64, u64)>|
        Seq::new(shown_of(ranking.len()), |i: int| listener_line(ranking[i]));
    if 0 < listeners.len() < 10 {
        let longer = ll(listeners.push(listener));
        assert(longer.drop_last() =~= ll(listeners));
        assert(longer.last() == listener_line(listener));
        assert(listener_board(listeners.push(listener)) == chars::joined(longer, "\n"@));
    }
    if listeners.len() > 10 {
        assert(ll(listeners) =~= ll(listeners.take(10)));
    }
}

/// The line of a user mentions them and tells what was read today before what was read in all.
pub proof fn a_reader_is_told_with_both_numbers(reader: Reader)
    ensures
        chars::begins(
            reader_line(reader),
            "・<@"@ + chars::decimal(reader.user_id as nat) + "> 今日 "@ + chars::decimal(
                reader.today as nat,
            ) + " 文字"@,
        ),
        chars::ends(
            reader_line(reader),
            "累計 "@ + chars::decimal(reader.total as nat) + " 文字"@,
        ),
{
    reveal_strlit("> ");
    reveal_strlit("今日 ");
    reveal_strlit("> 今日 ");
    reveal_strlit(" 文字／累計 ");
    reveal_strlit(" 文字");
    reveal_strlit("累計 ");
    reveal_strlit("／");
    let today = "・<@"@ + chars::decimal(reader.user_id as nat) + "> 今日 "@ + chars::decimal(
        reader.today as nat,
    ) + " 文字"@;
    let total = "累計 "@ + chars::decimal(reader.total as nat) + " 文字"@;
    assert(reader_line(reader) =~= today + ("／"@ + total));
    assert(reader_line(reader) =~= (today + "／"@) + total);
    chars::a_part_stands_where_it_was_put(today, "／"@ + total, total);
    chars::a_part_stands_where_it_was_put(today, today + "／"@, total);
}

/// The line of a track ends with its title, and that of a user begins with a mention of them. Both tell
/// how often something was played.
pub proof fn plays_are_told_with_their_number(entry: (Seq<char>, u64), listener: (u64, u64))
    ensures
        chars::begins(track_line(entry), "・"@ + chars::decimal(entry.1 as nat) + " 回 "@),
        chars::ends(
            track_line(entry),
            music::linked((music::TrackModel { title: entry.0, url: None })),
        ),
        chars::begins(listener_line(listener), "・<@"@ + chars::decimal(listener.0 as nat) + "> "@),
        chars::ends(listener_line(listener), "> "@ + chars::decimal(listener.1 as nat) + " 回"@),
{
    let count = "・"@ + chars::decimal(entry.1 as nat) + " 回 "@;
    let title = music::linked((music::TrackModel { title: entry.0, url: None }));
    chars::a_part_stands_where_it_was_put(count, title, title);
    chars::a_part_stands_where_it_was_put(count, count, title);
    let user = "・<@"@ + chars::decimal(listener.0 as nat);
    let number = chars::decimal(listener.1 as nat);
    chars::lemma_grouping(user + "> "@, number, " 回"@);
    chars::lemma_grouping(user, "> "@, number);
    chars::lemma_grouping(user, "> "@ + number, " 回"@);
    chars::a_part_stands_where_it_was_put(user + "> "@, number + " 回"@, number);
    chars::a_part_stands_where_it_was_put(user, user, "> "@ + number + " 回"@);
}

/// Where something was read, the sums over all users are told, and then the users, who are ranked by all
/// that they wrote. Where nothing was, that is told.
pub proof fn all_readers_are_told(readers: Seq<Reader>, i: int)
    requires
        0 <= i < readers.len(),
    ensures
        speech_reply(Seq::empty()) == ReplyModel::Text("まだ読み上げの記録がありません。"@),
        speech_reply(readers) is Embed,
        speech_reply(readers)->fields.len() == 2,
        speech_reply(readers)->fields[0].value == "今日 "@ + chars::decimal(sum_today(readers))
            + " 文字／累計 "@ + chars::decimal(sum_total(readers)) + " 文字"@,
        speech_reply(readers)->fields[1].value == reader_board(rank::ranked(by_total(readers))),
        by_total(readers).len() == readers.len(),
        by_total(readers)[i] == (readers[i], readers[i].total),
{
}

/// Where something was played, the tracks are told and then the users, both ranked. Where nothing was,
/// that is told.
pub proof fn all_plays_are_told(tracks: Seq<(Seq<char>, u64)>, listeners: Seq<(u64, u64)>)
    requires
        tracks.len() > 0,
    ensures
        music_reply(Seq::empty(), listeners) == ReplyModel::Text("まだ再生の記録がありません。"@),
        music_reply(tracks, listeners) is Embed,
        music_reply(tracks, listeners)->fields.len() == 2,
        music_reply(tracks, listeners)->fields[0].value == track_board(rank::ranked(tracks)),
        music_reply(tracks, listeners)->fields[1].value == listener_board(rank::ranked(listeners)),
{
}

} // verus!
