//! What holds of everything that the bot remembers.

use vstd::prelude::*;

use crate::db;
use crate::db::DbModel;
use crate::db::SettingsModel;
use crate::db::Spoken;
use crate::table;
use crate::voicevox::Voice;
use crate::volume::DEFAULT_VOLUME;

verus! {

/// Settings are read as they were set, and those of other guilds and all voices stay as they are.
pub proof fn settings_are_per_guild(
    before: DbModel,
    guild_id: u64,
    settings: SettingsModel,
    other: u64,
    user_id: u64,
)
    requires
        other != guild_id,
    ensures
        before.with_settings(guild_id, settings).settings_of(guild_id) == settings,
        before.with_settings(guild_id, settings).settings_of(other) == before.settings_of(other),
        before.with_settings(guild_id, settings).voice_of(user_id) == before.voice_of(user_id),
{
}

/// A voice is read as it was set, and those of other users and all settings stay as they are.
pub proof fn voices_are_per_user(
    before: DbModel,
    user_id: u64,
    voice: Voice,
    other: u64,
    guild_id: u64,
)
    requires
        other != user_id,
    ensures
        before.with_voice(user_id, voice).voice_of(user_id) == voice,
        before.with_voice(user_id, voice).voice_of(other) == before.voice_of(other),
        before.with_voice(user_id, voice).settings_of(guild_id) == before.settings_of(guild_id),
{
}

/// What is put down for an owner is found there in place of what was there under the same key, and
/// nothing else changes, for the owner or for any other.
pub proof fn entries_are_per_owner<A, B>(
    map: Map<(u64, A), B>,
    owner: u64,
    key: A,
    value: B,
    other: u64,
)
    requires
        other != owner,
    ensures
        table::of(map.insert((owner, key), value), owner) == table::of(map, owner).insert(
            key,
            value,
        ),
        table::of(map.insert((owner, key), value), other) == table::of(map, other),
        table::of(map.remove((owner, key)), owner) == table::of(map, owner).remove(key),
        table::of(map.remove((owner, key)), other) == table::of(map, other),
{
    assert(table::of(map.insert((owner, key), value), owner) =~= table::of(map, owner).insert(
        key,
        value,
    ));
    assert(table::of(map.insert((owner, key), value), other) =~= table::of(map, other));
    assert(table::of(map.remove((owner, key)), owner) =~= table::of(map, owner).remove(key));
    assert(table::of(map.remove((owner, key)), other) =~= table::of(map, other));
}

/// Taking out what an owner has leaves nothing of the owner and all of the others.
pub proof fn clearing_is_per_owner<A, B>(map: Map<(u64, A), B>, owner: u64, other: u64)
    requires
        other != owner,
    ensures
        table::of(table::without(map, owner), owner) == Map::<A, B>::empty(),
        table::of(table::without(map, owner), other) == table::of(map, other),
{
    assert(table::of(table::without(map, owner), owner) =~= Map::<A, B>::empty());
    assert(table::of(table::without(map, owner), other) =~= table::of(map, other));
}

/// An identifier that was turned into a signed number comes back from it.
pub proof fn identifiers_come_back(value: u64)
    ensures
        (value as i64) as u64 == value,
{
    assert((value as i64) as u64 == value) by (bit_vector);
}

/// What is counted of a day is part of what is counted in all, starts anew with another day, and
/// is not lost within the day.
pub proof fn days_are_part_of_the_total(row: Spoken, day: i64, count: u64)
    requires
        row.today <= row.total,
    ensures
        db::counted(Some(row), day, count).today <= db::counted(Some(row), day, count).total,
        db::counted(None, day, count).today <= db::counted(None, day, count).total,
        row.day != day ==> db::counted(Some(row), day, count).today == count,
        row.day == day && row.total + count <= u64::MAX ==> db::counted(
            Some(row),
            day,
            count,
        ).today == row.today + count,
        row.total <= db::counted(Some(row), day, count).total,
{
}

/// Every character that is read is counted, in all and for its day, as far as a count can go: what is
/// counted in two goes on a day is counted as it would be in one. Another day starts at nothing and
/// leaves the total.
pub proof fn every_character_is_counted(
    before: Option<Spoken>,
    day: i64,
    first: u64,
    second: u64,
    other_day: i64,
)
    requires
        other_day != day,
        first + second <= u64::MAX,
        before is Some ==> before->0.total + first + second <= u64::MAX && before->0.today
            <= before->0.total,
    ensures
        ({
            let once = db::counted(before, day, first);
            let twice = db::counted(Some(once), day, second);
            let later = db::counted(Some(once), other_day, second);
            let total = if before is Some {
                before->0.total as int
            } else {
                0
            };
            let today = if before is Some && before->0.day == day {
                before->0.today as int
            } else {
                0
            };
            &&& once.day == day && once.today == today + first && once.total == total + first
            &&& twice == db::counted(before, day, (first + second) as u64)
            &&& later.day == other_day && later.today == second && later.total == total + first
                + second
        }),
{
}

/// A play is one more than before, one for what was never played, and a count that cannot go on stays.
pub proof fn a_play_is_one_more<K>(map: Map<K, u64>, key: K, plays: u64, other: K, other_plays: u64)
    requires
        other != key,
    ensures
        plays < u64::MAX ==> db::one_more(map.insert(key, plays), key) == plays + 1,
        db::one_more(map.insert(key, u64::MAX), key) == u64::MAX,
        db::one_more(map.remove(key), key) == 1,
        db::one_more(map.insert(other, other_plays), key) == db::one_more(map, key),
{
}

/// What is told of users as of a day is, for each of them in the order of the list, the total and what
/// was counted on that day, nothing if the last count was on another.
pub proof fn the_day_is_told_for_its_day(
    list: Seq<(u64, Spoken)>,
    i: int,
    before: Option<Spoken>,
    day: i64,
    count: u64,
    other_day: i64,
)
    requires
        0 <= i < list.len(),
        list[i].1 == db::counted(before, day, count),
        other_day != day,
    ensures
        db::readers(list, day).len() == list.len(),
        db::readers(list, day)[i].user_id == list[i].0,
        db::readers(list, day)[i].today == db::counted(before, day, count).today,
        db::readers(list, day)[i].total == db::counted(before, day, count).total,
        db::readers(list, other_day)[i].today == 0,
        db::readers(list, other_day)[i].total == db::counted(before, day, count).total,
{
}

/// A guild that has set nothing has messages of at most a hundred characters read, those of bots and
/// those that begin with a semicolon not; music may be played, and the time is not read until someone
/// asks for it, which is then every hour.
pub proof fn what_a_guild_starts_with(before: DbModel, guild_id: u64)
    requires
        !before.settings.contains_key((guild_id, ())),
    ensures
        ({
            let settings = before.settings_of(guild_id);
            &&& settings.max_length == 100
            &&& !settings.read_bots
            &&& settings.ignore_prefix == ";"@
            &&& settings.tts_enabled
            &&& settings.music_enabled
            &&& !settings.time_signal_enabled
            &&& settings.time_signal_interval == 60
            &&& settings.time_signal_style == 3
            &&& settings.music_volume.bits == DEFAULT_VOLUME
        }),
{
}

/// A length that is remembered is the one that was set, as long as that is at least one, which is what
/// everything else becomes; and a number that fits 32 bits comes back as it is, the nearest that does
/// for any other.
pub proof fn numbers_are_kept_in_range(length: usize, value: int)
    ensures
        1 <= length <= i64::MAX ==> db::kept_length(length) == length,
        length == 0 ==> db::kept_length(length) == 1,
        0 <= value <= u32::MAX ==> db::squeezed(value) == value,
        value < 0 ==> db::squeezed(value) == 0,
        value > u32::MAX ==> db::squeezed(value) == u32::MAX,
{
}

} // verus!
