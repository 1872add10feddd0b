use yomiage_bot::db::{
    from_column, from_id, id, length_from_column, Db, GuildSettings, Reader, Spoken,
};
use yomiage_bot::scale::Scale;
use yomiage_bot::voicevox::{StyleId, Voice};

/// A number by its bit pattern.
fn scale(value: f32) -> Scale {
    Scale {
        bits: value.to_bits(),
    }
}

/// The volume as a share of the loudest.
fn volume(db: &Db, guild: u64) -> f32 {
    f32::from_bits(db.guild_settings(guild).music_volume.bits)
}

fn memory_db() -> Db {
    Db::new()
}

#[test]
fn defaults_are_returned_when_no_row_exists() {
    let db = memory_db();

    let voice = db.voice(1);
    assert_eq!(voice, Voice::default());

    let settings = db.guild_settings(1);
    assert_eq!(settings.max_length, 100);
    assert!(!settings.read_bots);
    assert_eq!(settings.ignore_prefix, ";");
}

#[test]
fn voice_settings_are_updated_per_column() {
    let mut db = memory_db();
    let user = 42;

    db.set_style(user, StyleId(8));
    db.set_speed(user, scale(1.5));

    let voice = db.voice(user);
    assert_eq!(voice.style, StyleId(8));
    assert_eq!(voice.speed, scale(1.5));
    assert_eq!(voice.pitch, scale(0.0));
    assert_eq!(voice.intonation, scale(1.0));
}

#[test]
fn read_channels_are_added_and_cleared() {
    let mut db = memory_db();
    let guild = 7;
    let a = 100;
    let b = 200;

    db.add_read_channel(guild, a);
    db.add_read_channel(guild, b);
    db.add_read_channel(guild, a);

    assert!(db.is_read_channel(guild, a));
    assert!(!db.is_read_channel(guild, 999));
    assert_eq!(db.read_channels(guild).len(), 2);

    db.clear_read_channels(guild);
    assert!(db.read_channels(guild).is_empty());
    assert!(!db.is_read_channel(guild, a));
}

#[test]
fn dictionary_entries_round_trip() {
    let mut db = memory_db();
    let guild = 1;

    db.add_dictionary_entry(guild, "VOICEVOX", "ボイスボックス");
    assert_eq!(
        db.dictionary(guild),
        vec![("VOICEVOX".to_owned(), "ボイスボックス".to_owned())]
    );
    db.add_dictionary_entry(guild, "VOICEVOX", "ボイボ");
    assert_eq!(
        db.dictionary(guild),
        vec![("VOICEVOX".to_owned(), "ボイボ".to_owned())]
    );

    assert!(db.remove_dictionary_entry(guild, "VOICEVOX"));
    assert!(!db.remove_dictionary_entry(guild, "VOICEVOX"));
    assert!(db.dictionary(guild).is_empty());
}

#[test]
fn max_length_is_updated_without_touching_other_settings() {
    let mut db = memory_db();
    let guild = 1;

    db.set_max_length(guild, 300);
    let settings = db.guild_settings(guild);
    assert_eq!(settings.max_length, 300);
    assert!(!settings.read_bots);
    assert_eq!(settings.ignore_prefix, ";");
    db.set_max_length(guild, 50);
    assert_eq!(db.guild_settings(guild).max_length, 50);
}

#[test]
fn feature_switches_default_to_on_and_are_independent() {
    let mut db = memory_db();
    let guild = 1;

    let settings = db.guild_settings(guild);
    assert!(settings.tts_enabled);
    assert!(settings.music_enabled);

    db.set_tts_enabled(guild, false);
    let settings = db.guild_settings(guild);
    assert!(!settings.tts_enabled);
    assert!(settings.music_enabled);

    db.set_music_enabled(guild, false);
    db.set_tts_enabled(guild, true);
    let settings = db.guild_settings(guild);
    assert!(settings.tts_enabled);
    assert!(!settings.music_enabled);
}

#[test]
fn music_volume_round_trips() {
    let mut db = memory_db();
    let guild = 1;

    assert_eq!(volume(&db, guild), 0.3);

    db.set_music_volume(guild, scale(0.75));
    assert_eq!(volume(&db, guild), 0.75);
    assert_eq!(db.guild_settings(guild).max_length, 100);
}

#[test]
fn a_volume_need_not_be_a_whole_percent() {
    let mut db = memory_db();
    db.set_music_volume(1, scale(0.755));
    assert_eq!(volume(&db, 1), 0.755);
    assert_eq!(volume(&db, 2), 0.3);
}

#[test]
fn max_length_is_per_guild() {
    let mut db = memory_db();
    db.set_max_length(1, 300);

    let other = db.guild_settings(2);
    assert_eq!(other.max_length, 100);
}

#[test]
fn bindings_round_trip() {
    let mut db = memory_db();
    let guild = 1;
    let listen_only = 10;
    let another_text = 11;
    let voice = 20;

    db.bind_channel(guild, listen_only, voice);
    db.bind_channel(guild, another_text, voice);

    assert_eq!(db.bound_voice_channel(guild, listen_only), Some(voice));
    let mut bound = db.bound_text_channels(guild, voice);
    bound.sort();
    assert_eq!(bound, vec![listen_only, another_text]);
    let other_voice = 21;
    db.bind_channel(guild, listen_only, other_voice);
    assert_eq!(db.bound_voice_channel(guild, listen_only), Some(other_voice));
    assert_eq!(db.bindings(guild).len(), 2);

    assert!(db.unbind_channel(guild, listen_only));
    assert!(!db.unbind_channel(guild, listen_only));
    assert_eq!(db.bound_voice_channel(guild, listen_only), None);
}

#[test]
fn bindings_survive_read_channel_reset() {
    let mut db = memory_db();
    let guild = 1;
    let text = 10;
    let voice = 20;

    db.bind_channel(guild, text, voice);
    db.add_read_channel(guild, text);

    db.clear_all_read_channels();

    assert!(db.read_channels(guild).is_empty());
    assert_eq!(db.bound_voice_channel(guild, text), Some(voice));
}

#[test]
fn dictionaries_are_per_guild() {
    let mut db = memory_db();
    db.add_dictionary_entry(1, "あ", "ア");

    assert!(db.dictionary(2).is_empty());
}

#[test]
fn other_guilds_are_not_affected() {
    let mut db = memory_db();
    let channel = 1;
    db.add_read_channel(1, channel);
    db.add_read_channel(2, channel);

    db.clear_read_channels(1);

    assert!(db.is_read_channel(2, channel));
}

#[test]
fn favourites_round_trip() {
    let mut db = memory_db();
    db.add_playlist_entry(1, "作業用", "https://youtu.be/a");
    db.add_playlist_entry(1, "作業用", "https://youtu.be/b");
    assert_eq!(
        db.playlist_url(1, "作業用"),
        Some("https://youtu.be/b".to_owned())
    );
    assert_eq!(db.playlist_url(2, "作業用"), None);
    assert_eq!(
        db.playlist(1),
        vec![("作業用".to_owned(), "https://youtu.be/b".to_owned())]
    );
    assert!(db.remove_playlist_entry(1, "作業用"));
    assert!(!db.remove_playlist_entry(1, "作業用"));
    assert!(db.playlist(1).is_empty());
}

#[test]
fn all_read_channels_are_counted_when_cleared() {
    let mut db = memory_db();
    db.add_read_channel(1, 10);
    db.add_read_channel(1, 11);
    db.add_read_channel(1, 10);
    db.add_read_channel(2, 10);
    assert_eq!(db.clear_all_read_channels(), 3);
    assert_eq!(db.clear_all_read_channels(), 0);
}

#[test]
fn one_read_channel_is_taken_out() {
    let mut db = memory_db();
    db.add_read_channel(1, 10);
    db.add_read_channel(1, 11);
    db.remove_read_channel(1, 10);
    assert_eq!(db.read_channels(1), vec![11]);
}

#[test]
fn a_length_is_at_least_one() {
    let mut db = memory_db();
    db.set_max_length(1, 0);
    assert_eq!(db.guild_settings(1).max_length, 1);
    assert_eq!(length_from_column(-5), 1);
    assert_eq!(length_from_column(0), 1);
    assert_eq!(length_from_column(300), 300);
}

#[test]
fn the_time_signal_is_off_until_it_is_wanted() {
    let mut db = memory_db();
    let settings = db.guild_settings(1);
    assert!(!settings.time_signal_enabled);
    assert_eq!(settings.time_signal_interval, 60);
    assert_eq!(settings.time_signal_style, 3);

    db.set_time_signal_enabled(1, true);
    db.set_time_signal_interval(1, 30);
    db.set_time_signal_style(1, StyleId(8));
    let settings = db.guild_settings(1);
    assert!(settings.time_signal_enabled);
    assert_eq!(settings.time_signal_interval, 30);
    assert_eq!(settings.time_signal_style, 8);
    assert_eq!(settings.max_length, 100);
}

#[test]
fn characters_are_counted_by_day_and_in_all() {
    let mut db = memory_db();
    db.record_speech_chars(1, 5, 100, 10);
    db.record_speech_chars(1, 5, 100, 7);
    assert_eq!(
        db.speech_stats(1, 100),
        vec![Reader {
            user_id: 5,
            today: 17,
            total: 17
        }]
    );
    assert_eq!(db.speech_stats(1, 101)[0].today, 0);
    db.record_speech_chars(1, 5, 101, 3);
    assert_eq!(
        db.speech_stats(1, 101),
        vec![Reader {
            user_id: 5,
            today: 3,
            total: 20
        }]
    );
    assert!(db.speech_stats(2, 101).is_empty());
    db.record_speech_chars(1, 5, 101, u64::MAX);
    assert_eq!(db.speech_stats(1, 101)[0].total, u64::MAX);
}

#[test]
fn plays_are_counted_and_ranked() {
    let mut db = memory_db();
    db.record_play(1, 7, "a");
    db.record_play(1, 8, "b");
    db.record_play(1, 8, "b");
    assert_eq!(
        db.music_stats_by_track(1),
        vec![("b".to_owned(), 2), ("a".to_owned(), 1)]
    );
    assert_eq!(db.music_stats_by_user(1), vec![(8, 2), (7, 1)]);
    assert!(db.music_stats_by_track(2).is_empty());
}

#[test]
fn what_was_kept_elsewhere_is_taken_up() {
    let mut db = memory_db();
    let mut settings = GuildSettings::default();
    settings.read_bots = true;
    db.restore_settings(1, settings);
    assert!(db.guild_settings(1).read_bots);
    let mut voice = Voice::default();
    voice.style = StyleId(8);
    db.restore_voice(9, voice);
    assert_eq!(db.voice(9).style, StyleId(8));
    db.restore_speech(
        1,
        9,
        Spoken {
            day: 4,
            today: 2,
            total: 6,
        },
    );
    assert_eq!(db.speech_stats(1, 4)[0].today, 2);
    db.restore_track(1, "t".to_owned(), 4);
    db.restore_listener(1, 9, 4);
    assert_eq!(db.music_stats_by_track(1), vec![("t".to_owned(), 4)]);
    assert_eq!(db.music_stats_by_user(1), vec![(9, 4)]);
}

#[test]
fn identifiers_survive_a_signed_column() {
    assert_eq!(id(5), 5);
    assert_eq!(id(u64::MAX), -1);
    assert_eq!(from_id(-1), u64::MAX);
    assert_eq!(from_id(id(1 << 63)), 1 << 63);
}

#[test]
fn styles_are_squeezed_into_their_range() {
    assert_eq!(from_column(-1), 0);
    assert_eq!(from_column(14), 14);
    assert_eq!(from_column(i64::MAX), u32::MAX);
}

#[test]
fn pitch_and_intonation_are_kept() {
    let mut db = memory_db();
    db.set_pitch(3, scale(-0.1));
    db.set_intonation(3, scale(0.5));
    let voice = db.voice(3);
    assert_eq!(voice.pitch, scale(-0.1));
    assert_eq!(voice.intonation, scale(0.5));
    assert_eq!(voice.style, StyleId(3));
    assert_eq!(db.voice(4), Voice::default());
}
