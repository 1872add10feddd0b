use std::path::PathBuf;

use yomiage_bot::db::Db;
use yomiage_bot::events::{
    command_guild, display_name, handle_message, handle_voice_state, music_leaves, resolve_names,
    should_leave, GuildNames, Member, Mention, Message, Presence, VoiceState,
};
use yomiage_bot::exvoice::{Library, Recording};
use yomiage_bot::speech::SpeechTask;
use yomiage_bot::text::Names;
use yomiage_bot::voicevox::StyleId;

const ME: u64 = 99;

fn message(content: &str) -> Message {
    Message {
        guild_id: Some(1),
        channel_id: 10,
        author_id: 5,
        author_bot: false,
        content: content.to_owned(),
        attachments: 0,
    }
}

fn reading_db() -> Db {
    let mut db = Db::new();
    db.add_read_channel(1, 10);
    db
}

fn read(db: &mut Db, message: &Message) -> Option<SpeechTask> {
    handle_message(db, &Library::default(), &Names::default(), message, ME, 3)
}

fn member(nick: Option<&str>, global: Option<&str>, name: &str) -> Option<Member> {
    Some(Member {
        nick: nick.map(str::to_owned),
        global_name: global.map(str::to_owned),
        name: name.to_owned(),
        bot: false,
    })
}

fn state(channel_id: Option<u64>, self_stream: bool) -> VoiceState {
    VoiceState {
        guild_id: Some(1),
        user_id: 5,
        channel_id,
        self_stream,
        member: member(None, None, "いわ"),
    }
}

fn person(user_id: u64, channel_id: Option<u64>, bot: bool) -> Presence {
    Presence {
        user_id,
        channel_id,
        bot,
    }
}

fn texts(tasks: &[SpeechTask]) -> Vec<&str> {
    tasks.iter().map(|task| task.text.as_str()).collect()
}

#[test]
fn messages_are_read_and_counted() {
    let mut db = reading_db();
    db.set_style(5, StyleId(8));
    let task = read(&mut db, &message("  こんにちは ")).unwrap();
    assert_eq!(task.text, "こんにちは");
    assert_eq!(task.voice.style, StyleId(8));
    assert_eq!(task.origin, Some(10));
    assert!(task.file.is_none());
    let stats = db.speech_stats(1, 3);
    assert_eq!(stats[0].user_id, 5);
    assert_eq!(stats[0].today, 5);
}

#[test]
fn some_messages_are_not_read() {
    let mut db = reading_db();
    let mut own = message("a");
    own.author_id = ME;
    assert!(read(&mut db, &own).is_none());
    let mut direct = message("a");
    direct.guild_id = None;
    assert!(read(&mut db, &direct).is_none());
    let mut elsewhere = message("a");
    elsewhere.channel_id = 11;
    assert!(read(&mut db, &elsewhere).is_none());
    let mut bot = message("a");
    bot.author_bot = true;
    assert!(read(&mut db, &bot).is_none());
    assert!(read(&mut db, &message(" ;ひみつ")).is_none());
    assert!(read(&mut db, &message("\n")).is_none());
    db.set_tts_enabled(1, false);
    assert!(read(&mut db, &message("a")).is_none());
    assert!(db.speech_stats(1, 3).is_empty());
}

#[test]
fn the_dictionary_of_the_guild_is_used() {
    let mut db = reading_db();
    db.add_dictionary_entry(1, "犬", "いぬ");
    db.add_dictionary_entry(2, "猫", "ねこ");
    let task = read(&mut db, &message("犬と猫")).unwrap();
    assert_eq!(task.text, "いぬと猫");
}

#[test]
fn the_length_of_the_guild_is_used() {
    let mut db = reading_db();
    db.set_max_length(1, 2);
    let task = read(&mut db, &message("あいう")).unwrap();
    assert_eq!(task.text, "あい以下略");
}

#[test]
fn attachments_are_told() {
    let mut db = reading_db();
    let mut file = message("");
    file.attachments = 1;
    assert_eq!(read(&mut db, &file).unwrap().text, "ファイル");
}

#[test]
fn recordings_are_played_for_their_style_only() {
    let library = Library::load(&vec![Recording {
        depth: 0,
        name: "001_ハロー.wav".to_owned(),
        path: PathBuf::from("/exvoice/001_ハロー.wav"),
    }]);
    let mut db = reading_db();
    let names = Names::default();
    let task = handle_message(&mut db, &library, &names, &message("ハロー"), ME, 3).unwrap();
    assert!(task.file.is_none());
    db.set_style(5, StyleId(14));
    let task = handle_message(&mut db, &library, &names, &message("ハロー"), ME, 3).unwrap();
    assert_eq!(task.file, Some(PathBuf::from("/exvoice/001_ハロー.wav")));
    let task = handle_message(&mut db, &library, &names, &message("バイ"), ME, 3).unwrap();
    assert!(task.file.is_none());
}

#[test]
fn names_have_an_order_of_preference() {
    assert_eq!(
        display_name(&member(Some("に"), Some("ぐ"), "な")).as_deref(),
        Some("に")
    );
    assert_eq!(
        display_name(&member(None, Some("ぐ"), "な")).as_deref(),
        Some("ぐ")
    );
    assert_eq!(
        display_name(&member(None, None, "な")).as_deref(),
        Some("な")
    );
    assert_eq!(display_name(&member(Some("\n"), Some("ぐ"), "な")), None);
    assert_eq!(display_name(&None), None);
}

#[test]
fn coming_and_going_is_announced() {
    let mut db = Db::new();
    db.set_style(5, StyleId(8));
    let here = state(Some(20), false);
    let away = state(None, false);
    let company = [person(6, Some(20), false)];

    let reaction =
        handle_voice_state(&mut db, None, &here, Some(20), Some(&company), ME);
    assert_eq!(texts(&reaction.tasks), vec!["いわが参加しました"]);
    assert_eq!(reaction.tasks[0].voice.style, StyleId(8));
    assert_eq!(reaction.tasks[0].origin, None);
    assert!(!reaction.leave);

    let reaction =
        handle_voice_state(&mut db, Some(&here), &away, Some(20), Some(&company), ME);
    assert_eq!(texts(&reaction.tasks), vec!["いわが退出しました"]);
    assert!(!reaction.leave);
    assert!(reaction.farewell_to.is_empty());
}

#[test]
fn streams_are_announced() {
    let mut db = Db::new();
    let quiet = state(Some(20), false);
    let live = state(Some(20), true);
    let reaction = handle_voice_state(&mut db, Some(&quiet), &live, Some(20), None, ME);
    assert_eq!(texts(&reaction.tasks), vec!["いわさんが配信を開始しました"]);
    let reaction = handle_voice_state(&mut db, Some(&live), &quiet, Some(20), None, ME);
    assert_eq!(texts(&reaction.tasks), vec!["いわさんが配信を終了しました"]);
    let reaction = handle_voice_state(&mut db, Some(&live), &live, Some(20), None, ME);
    assert!(reaction.tasks.is_empty());
}

#[test]
fn other_channels_are_not_announced() {
    let mut db = Db::new();
    let there = state(Some(21), false);
    let away = state(None, false);
    let moves = handle_voice_state(&mut db, Some(&there), &away, Some(20), Some(&[]), ME);
    assert!(moves.tasks.is_empty());
    assert!(!moves.leave);
    let moves = handle_voice_state(&mut db, None, &state(Some(20), false), None, None, ME);
    assert!(moves.tasks.is_empty());
    let moves = handle_voice_state(&mut db, None, &state(Some(20), false), Some(20), None, 5);
    assert!(moves.tasks.is_empty());
}

#[test]
fn the_bot_leaves_an_empty_channel() {
    let mut db = reading_db();
    db.bind_channel(1, 10, 20);
    let here = state(Some(20), false);
    let away = state(None, false);
    let bots = [person(ME, Some(20), true), person(7, Some(20), true), person(8, None, false)];
    assert!(music_leaves(Some(&here), &away, Some(20), Some(&bots), ME));
    assert!(!music_leaves(Some(&away), &here, Some(20), Some(&bots), ME));
    let reaction = handle_voice_state(&mut db, Some(&here), &away, Some(20), Some(&bots), ME);
    assert!(reaction.leave);
    assert_eq!(reaction.farewell_to, vec![10]);
    assert!(db.read_channels(1).is_empty());
    assert_eq!(db.bound_voice_channel(1, 10), Some(20));
}

#[test]
fn an_unknown_channel_is_not_left() {
    assert!(!should_leave(None, 20, ME));
    assert!(should_leave(Some(&[]), 20, ME));
    assert!(!should_leave(Some(&[person(6, Some(20), false)]), 20, ME));
    assert!(should_leave(Some(&[person(6, Some(21), false)]), 20, ME));
}

#[test]
fn mentions_are_named_as_the_guild_knows_them() {
    let mentions = vec![Mention {
        id: 1,
        name: "iwa".to_owned(),
        global_name: Some("いわ".to_owned()),
        nick: Some("いわさん".to_owned()),
    }];
    let names = resolve_names(&mentions, None);
    assert_eq!(names.users[&1], "iwa");
    assert!(names.roles.is_empty());
    let guild = GuildNames {
        roles: vec![(2, "運営".to_owned())],
        channels: vec![(3, "雑談".to_owned()), (4, "作業".to_owned())],
    };
    let names = resolve_names(&mentions, Some(&guild));
    assert_eq!(names.users[&1], "いわさん");
    assert_eq!(names.roles[&2], "運営");
    assert_eq!(names.channels[&4], "作業");
}

#[test]
fn commands_belong_to_one_guild_or_all() {
    assert_eq!(command_guild(Some(" 123 \n")), Some(123));
    assert_eq!(command_guild(Some("")), None);
    assert_eq!(command_guild(Some("-1")), None);
    assert_eq!(command_guild(Some("18446744073709551616")), None);
    assert_eq!(command_guild(None), None);
}
