//! What happens in Discord and what the bot does about it.

use std::collections::HashMap;

use vstd::prelude::*;

use crate::chars;
use crate::chars::Edge;
use crate::db::Db;
use crate::db::DbModel;
use crate::exvoice;
use crate::exvoice::Library;
use crate::nicovideo;
use crate::pattern;
use crate::smoothing_laws;
use crate::speech;
use crate::speech::SpeechTask;
use crate::table;
use crate::text;
use crate::text::Names;
use crate::text::Options;
use crate::voicevox::Voice;

verus! {

/// A message.
#[derive(Debug)]
pub struct Message {
    pub guild_id: Option<u64>,
    pub channel_id: u64,
    pub author_id: u64,
    /// Whether a bot wrote it.
    pub author_bot: bool,
    pub content: String,
    /// How many files are attached.
    pub attachments: usize,
}

/// What is read aloud of a message, before it is known which voice reads it: nothing of the bot's
/// own messages, of channels that are not read, of bots unless the guild wants it, and of messages
/// with the guild's prefix.
pub open spec fn words_of(db: Db, names: text::NamesModel, message: Message, me: u64) -> Option<
    Seq<char>,
> {
    match message.guild_id {
        None => None,
        Some(guild_id) => {
            let settings = db@.settings_of(guild_id);
            let content = chars::trimmed(Edge::Space, message.content@);
            if message.author_id == me || !db@.read_channels.contains_key(
                (guild_id, message.channel_id),
            ) || !settings.tts_enabled || (message.author_bot && !settings.read_bots)
                || chars::begins(content, settings.ignore_prefix) {
                None
            } else {
                text::normalized(
                    content,
                    settings.max_length as nat,
                    names,
                    db.dictionary_list(guild_id),
                    message.attachments as nat,
                )
            }
        },
    }
}

/// What is read aloud of a message: its words in the author's voice, or a recording of them where
/// the author's style has one.
pub open spec fn task_for(
    db: Db,
    library: Library,
    names: text::NamesModel,
    message: Message,
    me: u64,
) -> Option<speech::TaskModel> {
    match words_of(db, names, message, me) {
        None => None,
        Some(words) => {
            let voice = db@.voice_of(message.author_id);
            let key = chars::trimmed(Edge::Space, words);
            Some(
                speech::TaskModel {
                    text: words,
                    voice,
                    file: if voice.style.0 == exvoice::STYLE && library@.contains_key(key) {
                        Some(library@[key])
                    } else {
                        None
                    },
                    origin: Some(message.channel_id),
                },
            )
        },
    }
}

/// The words of a message that are read aloud.
fn readable_words(db: &Db, names: &Names, message: &Message, me: u64) -> (out: Option<String>)
    requires
        db.well_formed(),
    ensures
        out is Some <==> words_of(*db, names@, *message, me) is Some,
        out matches Some(words) ==> words_of(*db, names@, *message, me) == Some(words@),
{
    let guild_id: u64 = match message.guild_id {
        Some(guild_id) => guild_id,
        None => return None,
    };
    if message.author_id == me {
        return None;
    }
    if !db.is_read_channel(guild_id, message.channel_id) {
        return None;
    }
    let settings = db.guild_settings(guild_id);
    if !settings.tts_enabled {
        return None;
    }
    if message.author_bot && !settings.read_bots {
        return None;
    }
    let content = chars::trim_text(Edge::Space, message.content.as_str());
    if chars::starts_with(content.as_str(), settings.ignore_prefix.as_str()) {
        return None;
    }
    let dictionary = db.dictionary(guild_id);
    let options = Options {
        max_length: settings.max_length,
        names: Some(names),
        dictionary: dictionary.as_slice(),
        attachments: message.attachments,
    };
    assert(text::entries(dictionary@) =~= table::pairs(dictionary@));
    text::normalize(content.as_str(), &options)
}

/// Takes in a message. Says what is read aloud of it, and counts that for its author.
pub fn handle_message(
    db: &mut Db,
    library: &Library,
    names: &Names,
    message: &Message,
    me: u64,
    day: i64,
) -> (out: Option<SpeechTask>)
    requires
        old(db).well_formed(),
        library.well_formed(),
    ensures
        final(db).well_formed(),
        match out {
            Some(task) => {
                &&& task_for(*old(db), *library, names@, *message, me) == Some(task@)
                &&& final(db)@ == (DbModel {
                    speech: old(db)@.speech.insert(
                        (message.guild_id->0, message.author_id),
                        crate::db::counted(
                            old(db)@.spoken_by(message.guild_id->0, message.author_id),
                            day,
                            task.text@.len() as u64,
                        ),
                    ),
                    ..old(db)@
                })
            },
            None => {
                &&& task_for(*old(db), *library, names@, *message, me) is None
                &&& *final(db) == *old(db)
            },
        },
{
    let words = match readable_words(db, names, message, me) {
        Some(words) => words,
        None => return None,
    };
    let voice = db.voice(message.author_id);
    let file = if voice.style.0 == exvoice::STYLE {
        library.find(words.as_str())
    } else {
        None
    };
    let count: usize = words.as_str().unicode_len();
    if let Some(guild_id) = message.guild_id {
        db.record_speech_chars(guild_id, message.author_id, day, count as u64);
    }
    Some(SpeechTask { text: words, voice, file, origin: Some(message.channel_id) })
}

/// A member of a guild.
#[derive(Debug)]
pub struct Member {
    /// The name in the guild.
    pub nick: Option<String>,
    /// The name that is shown elsewhere.
    pub global_name: Option<String>,
    /// The name of the account.
    pub name: String,
    pub bot: bool,
}

/// The name that a member goes by.
pub open spec fn called(
    nick: Option<Seq<char>>,
    global_name: Option<Seq<char>>,
    name: Seq<char>,
) -> Seq<char> {
    match (nick, global_name) {
        (Some(nick), _) => nick,
        (None, Some(global_name)) => global_name,
        (None, None) => name,
    }
}

/// The name that a member goes by.
fn call(nick: &Option<String>, global_name: &Option<String>, name: &String) -> (out: String)
    ensures
        out@ == called(nicovideo::text_of(*nick), nicovideo::text_of(*global_name), name@),
{
    match (nick, global_name) {
        (Some(nick), _) => nick.clone(),
        (None, Some(global_name)) => global_name.clone(),
        (None, None) => name.clone(),
    }
}

/// What is read aloud of a member's name, if anything is.
pub open spec fn spoken_name(member: Option<Member>) -> Option<Seq<char>> {
    let raw = match member {
        Some(member) => called(
            nicovideo::text_of(member.nick),
            nicovideo::text_of(member.global_name),
            member.name@,
        ),
        None => Seq::empty(),
    };
    text::normalized(raw, text::DEFAULT_MAX_LENGTH as nat, text::no_names(), Seq::empty(), 0)
}

/// What is read aloud of a member's name: the name in the guild, else the one shown elsewhere, else
/// that of the account.
pub fn display_name(member: &Option<Member>) -> (out: Option<String>)
    ensures
        out is Some <==> spoken_name(*member) is Some,
        out matches Some(name) ==> spoken_name(*member) == Some(name@),
{
    let raw = match member {
        Some(member) => call(&member.nick, &member.global_name, &member.name),
        None => String::new(),
    };
    let options = Options::default();
    assert(text::entries(options.dictionary@) =~= Seq::empty());
    text::normalize(raw.as_str(), &options)
}

/// Where a user is.
#[derive(Debug)]
pub struct VoiceState {
    pub guild_id: Option<u64>,
    pub user_id: u64,
    pub channel_id: Option<u64>,
    /// Whether the user streams.
    pub self_stream: bool,
    pub member: Option<Member>,
}

/// Where someone is, as far as it matters for whether anyone is left.
#[derive(Debug, Clone, Copy, PartialEq, Eq, Structural)]
pub struct Presence {
    pub user_id: u64,
    pub channel_id: Option<u64>,
    /// Whether it is known to be a bot.
    pub bot: bool,
}

/// Whether someone keeps the bot in its channel. Other bots do not.
pub open spec fn keeps(presence: Presence, bot_channel: u64, me: u64) -> bool {
    presence.channel_id == Some(bot_channel) && presence.user_id != me && !presence.bot
}

/// Whether nobody is left in the bot's channel.
pub open spec fn is_empty(present: Seq<Presence>, bot_channel: u64, me: u64) -> bool {
    forall|i: int| 0 <= i < present.len() ==> !keeps(#[trigger] present[i], bot_channel, me)
}

/// Whether nobody is left in the bot's channel, as far as it is known who is where.
pub open spec fn deserted(present: Option<Seq<Presence>>, bot_channel: u64, me: u64) -> bool {
    match present {
        None => false,
        Some(present) => is_empty(present, bot_channel, me),
    }
}

/// Whether nobody is left in the bot's channel.
fn is_deserted(present: &[Presence], bot_channel: u64, me: u64) -> (out: bool)
    ensures
        out == is_empty(present@, bot_channel, me),
{
    let mut i: usize = 0;
    while i < present.len()
        invariant
            i <= present@.len(),
            forall|j: int| 0 <= j < i ==> !keeps(#[trigger] present@[j], bot_channel, me),
        decreases present@.len() - i,
    {
        let presence: Presence = present[i];
        let here = match presence.channel_id {
            Some(channel_id) => channel_id == bot_channel,
            None => false,
        };
        if here && presence.user_id != me && !presence.bot {
            assert(keeps(present@[i as int], bot_channel, me));
            return false;
        }
        i = i + 1;
    }
    true
}

/// Whether the bot leaves its channel, given who is where, if that is known.
pub fn should_leave(present: Option<&[Presence]>, bot_channel: u64, me: u64) -> (out: bool)
    ensures
        out == deserted(
            match present {
                Some(present) => Some(present@),
                None => None,
            },
            bot_channel,
            me,
        ),
{
    match present {
        Some(present) => is_deserted(present, bot_channel, me),
        None => false,
    }
}

/// What someone did who was in one channel and is in another, seen from the bot's channel.
pub struct Move {
    pub joined: bool,
    pub left: bool,
    pub started_streaming: bool,
    pub stopped_streaming: bool,
}

/// What someone did. A stream that starts or stops is no move, and neither is a switch of the
/// microphone or the camera.
pub open spec fn moved(
    before: Option<u64>,
    streamed: bool,
    after: Option<u64>,
    streams: bool,
    bot_channel: u64,
) -> Move {
    Move {
        joined: before != after && after == Some(bot_channel),
        left: before != after && before == Some(bot_channel),
        started_streaming: !streamed && streams && after == Some(bot_channel),
        stopped_streaming: streamed && !streams && before == Some(bot_channel) && after == Some(
            bot_channel,
        ),
    }
}

/// What someone did, if it concerns the bot: it is in a channel of the guild, and it was someone
/// else.
pub open spec fn concern(
    old_state: Option<VoiceState>,
    new_state: VoiceState,
    bot_channel: Option<u64>,
    me: u64,
) -> Option<Move> {
    match (new_state.guild_id, bot_channel) {
        (Some(_), Some(bot_channel)) if new_state.user_id != me => Some(
            moved(
                match old_state {
                    Some(state) => state.channel_id,
                    None => None,
                },
                match old_state {
                    Some(state) => state.self_stream,
                    None => false,
                },
                new_state.channel_id,
                new_state.self_stream,
                bot_channel,
            ),
        ),
        _ => None,
    }
}

/// What is read aloud of what someone did, with the name.
pub open spec fn announcements(name: Seq<char>, voice: Voice, step: Move) -> Seq<
    speech::TaskModel,
> {
    let say = |words: Seq<char>|
        speech::TaskModel { text: name + words, voice, file: None, origin: None };
    let stream = if step.started_streaming {
        seq![say("さんが配信を開始しました"@)]
    } else if step.stopped_streaming {
        seq![say("さんが配信を終了しました"@)]
    } else {
        Seq::empty()
    };
    if step.joined {
        stream.push(say("が参加しました"@))
    } else if step.left {
        stream.push(say("が退出しました"@))
    } else {
        stream
    }
}

/// What is read aloud when someone's voice state changes, in a voice.
pub open spec fn said_of(
    old_state: Option<VoiceState>,
    new_state: VoiceState,
    bot_channel: Option<u64>,
    me: u64,
    voice: Voice,
) -> Seq<speech::TaskModel> {
    match (concern(old_state, new_state, bot_channel, me), spoken_name(new_state.member)) {
        (Some(step), Some(name)) => announcements(name, voice, step),
        _ => Seq::empty(),
    }
}

/// Whether the bot leaves when someone's voice state changes, given who is where, if that is known.
pub open spec fn leaves(
    old_state: Option<VoiceState>,
    new_state: VoiceState,
    bot_channel: Option<u64>,
    present: Option<Seq<Presence>>,
    me: u64,
) -> bool {
    match concern(old_state, new_state, bot_channel, me) {
        Some(step) => step.left && deserted(present, bot_channel->0, me),
        None => false,
    }
}

/// What the bot does about a voice state.
#[derive(Debug)]
pub struct VoiceReaction {
    /// What is read aloud.
    pub tasks: Vec<SpeechTask>,
    /// Whether the bot leaves its channel.
    pub leave: bool,
    /// The channels in which it says that it left.
    pub farewell_to: Vec<u64>,
}

/// The mathematical counterparts of tasks.
pub open spec fn task_views(tasks: Seq<SpeechTask>) -> Seq<speech::TaskModel> {
    tasks.map_values(|task: SpeechTask| task@)
}

/// What someone did, if it concerns the bot.
fn look(
    old_state: Option<&VoiceState>,
    new_state: &VoiceState,
    bot_channel: Option<u64>,
    me: u64,
) -> (out: Option<(u64, u64, Move)>)
    ensures
        ({
            let seen = concern(
                match old_state {
                    Some(state) => Some(*state),
                    None => None,
                },
                *new_state,
                bot_channel,
                me,
            );
            match out {
                Some((guild_id, channel_id, step)) => seen == Some(step) && new_state.guild_id
                    == Some(guild_id) && bot_channel == Some(channel_id),
                None => seen is None,
            }
        }),
{
    let guild_id: u64 = match new_state.guild_id {
        Some(guild_id) => guild_id,
        None => return None,
    };
    if new_state.user_id == me {
        return None;
    }
    let channel_id: u64 = match bot_channel {
        Some(channel_id) => channel_id,
        None => return None,
    };
    let (before, streamed) = match old_state {
        Some(state) => (state.channel_id, state.self_stream),
        None => (None, false),
    };
    let here = match new_state.channel_id {
        Some(after) => after == channel_id,
        None => false,
    };
    let was_here = match before {
        Some(before) => before == channel_id,
        None => false,
    };
    let step = Move {
        joined: here && !was_here,
        left: was_here && !here,
        started_streaming: !streamed && new_state.self_stream && here,
        stopped_streaming: streamed && !new_state.self_stream && was_here && here,
    };
    Some((guild_id, channel_id, step))
}

/// A task that reads a name and some words in a voice.
fn announce(name: &String, words: &str, voice: Voice) -> (out: SpeechTask)
    ensures
        out@ == (speech::TaskModel { text: name@ + words@, voice, file: None, origin: None }),
{
    SpeechTask { text: name.clone().concat(words), voice, file: None, origin: None }
}

/// Takes in that someone's voice state changed, given the channel that the bot is in and who is
/// where. Says what is read aloud, in the voice of whom it is about, and whether the bot leaves
/// because nobody is left. When it leaves, no channel of the guild is read any more.
pub fn handle_voice_state(
    db: &mut Db,
    old_state: Option<&VoiceState>,
    new_state: &VoiceState,
    bot_channel: Option<u64>,
    present: Option<&[Presence]>,
    me: u64,
) -> (out: VoiceReaction)
    requires
        old(db).well_formed(),
    ensures
        final(db).well_formed(),
        task_views(out.tasks@) == said_of(
            match old_state {
                Some(state) => Some(*state),
                None => None,
            },
            *new_state,
            bot_channel,
            me,
            old(db)@.voice_of(new_state.user_id),
        ),
        out.leave == leaves(
            match old_state {
                Some(state) => Some(*state),
                None => None,
            },
            *new_state,
            bot_channel,
            match present {
                Some(present) => Some(present@),
                None => None,
            },
            me,
        ),
        ({
            let seen = concern(
                match old_state {
                    Some(state) => Some(*state),
                    None => None,
                },
                *new_state,
                bot_channel,
                me,
            );
            let here = match present {
                Some(present) => Some(present@),
                None => None,
            };
            match seen {
                None => {
                    &&& out.tasks@.len() == 0
                    &&& !out.leave
                    &&& out.farewell_to@.len() == 0
                    &&& *final(db) == *old(db)
                },
                Some(step) => {
                    &&& task_views(out.tasks@) == match spoken_name(new_state.member) {
                        Some(name) => announcements(
                            name,
                            old(db)@.voice_of(new_state.user_id),
                            step,
                        ),
                        None => Seq::empty(),
                    }
                    &&& out.leave == (step.left && deserted(here, bot_channel->0, me))
                    &&& if out.leave {
                        &&& out.farewell_to@ == old(db).channel_list(new_state.guild_id->0)
                        &&& final(db)@ == (DbModel {
                            read_channels: table::without(
                                old(db)@.read_channels,
                                new_state.guild_id->0,
                            ),
                            ..old(db)@
                        })
                    } else {
                        &&& out.farewell_to@.len() == 0
                        &&& *final(db) == *old(db)
                    }
                },
            }
        }),
{
    let (guild_id, channel_id, step) = match look(old_state, new_state, bot_channel, me) {
        Some(seen) => seen,
        None => {
            let tasks: Vec<SpeechTask> = Vec::new();
            assert(task_views(tasks@) =~= Seq::empty());
            return VoiceReaction { tasks, leave: false, farewell_to: Vec::new() };
        },
    };
    let mut tasks: Vec<SpeechTask> = Vec::new();
    let voice = db.voice(new_state.user_id);
    if let Some(name) = display_name(&new_state.member) {
        if step.started_streaming {
            tasks.push(announce(&name, "さんが配信を開始しました", voice));
        } else if step.stopped_streaming {
            tasks.push(announce(&name, "さんが配信を終了しました", voice));
        }
        if step.joined {
            tasks.push(announce(&name, "が参加しました", voice));
        } else if step.left {
            tasks.push(announce(&name, "が退出しました", voice));
        }
        assert(task_views(tasks@) =~= announcements(name@, voice, step));
    } else {
        assert(task_views(tasks@) =~= Seq::empty());
    }
    if step.left && should_leave(present, channel_id, me) {
        let farewell_to = db.read_channels(guild_id);
        db.clear_read_channels(guild_id);
        return VoiceReaction { tasks, leave: true, farewell_to };
    }
    VoiceReaction { tasks, leave: false, farewell_to: Vec::new() }
}

/// The music bot, which does not speak: whether it leaves because nobody is left.
pub fn music_leaves(
    old_state: Option<&VoiceState>,
    new_state: &VoiceState,
    bot_channel: Option<u64>,
    present: Option<&[Presence]>,
    me: u64,
) -> (out: bool)
    ensures
        out == leaves(
            match old_state {
                Some(state) => Some(*state),
                None => None,
            },
            *new_state,
            bot_channel,
            match present {
                Some(present) => Some(present@),
                None => None,
            },
            me,
        ),
        ({
            let seen = concern(
                match old_state {
                    Some(state) => Some(*state),
                    None => None,
                },
                *new_state,
                bot_channel,
                me,
            );
            let here = match present {
                Some(present) => Some(present@),
                None => None,
            };
            out == match seen {
                Some(step) => step.left && deserted(here, bot_channel->0, me),
                None => false,
            }
        }),
{
    match look(old_state, new_state, bot_channel, me) {
        Some((_, channel_id, step)) => step.left && should_leave(present, channel_id, me),
        None => false,
    }
}

/// The bot does not read its own messages, whatever a guild has set.
pub proof fn the_bot_does_not_read_itself(
    db: Db,
    library: Library,
    names: text::NamesModel,
    message: Message,
)
    ensures
        task_for(db, library, names, message, message.author_id) is None,
{
}

/// What happens in other channels is neither read aloud nor a reason to leave.
pub proof fn other_channels_do_not_matter(
    before: Option<u64>,
    streamed: bool,
    after: Option<u64>,
    streams: bool,
    bot_channel: u64,
    name: Seq<char>,
    voice: Voice,
)
    requires
        before != Some(bot_channel),
        after != Some(bot_channel),
    ensures
        announcements(name, voice, moved(before, streamed, after, streams, bot_channel)).len() == 0,
        !moved(before, streamed, after, streams, bot_channel).left,
{
}

/// The bot stays as long as anyone but itself and other bots is in its channel.
pub proof fn company_keeps_the_bot(present: Seq<Presence>, bot_channel: u64, me: u64, i: int)
    requires
        0 <= i < present.len(),
        present[i].channel_id == Some(bot_channel),
        present[i].user_id != me,
        !present[i].bot,
    ensures
        !deserted(Some(present), bot_channel, me),
{
    assert(keeps(present[i], bot_channel, me));
}

/// Someone who is mentioned.
#[derive(Debug)]
pub struct Mention {
    pub id: u64,
    pub name: String,
    pub global_name: Option<String>,
    /// The name in the guild.
    pub nick: Option<String>,
}

/// What is known of a guild: the roles that a message mentions, and the channels.
#[derive(Debug)]
pub struct GuildNames {
    pub roles: Vec<(u64, String)>,
    pub channels: Vec<(u64, String)>,
}

/// The names of those who are mentioned. Outside of a guild it is that of the account.
pub open spec fn user_names(mentions: Seq<Mention>, in_guild: bool) -> Map<u64, Seq<char>>
    decreases mentions.len(),
{
    if mentions.len() == 0 {
        Map::empty()
    } else {
        let last = mentions.last();
        user_names(mentions.drop_last(), in_guild).insert(
            last.id,
            if in_guild {
                called(
                    nicovideo::text_of(last.nick),
                    nicovideo::text_of(last.global_name),
                    last.name@,
                )
            } else {
                last.name@
            },
        )
    }
}

/// The names of a list.
pub open spec fn listed_names(list: Seq<(u64, String)>) -> Map<u64, Seq<char>>
    decreases list.len(),
{
    if list.len() == 0 {
        Map::empty()
    } else {
        listed_names(list.drop_last()).insert(list.last().0, list.last().1@)
    }
}

/// The names of a list.
fn collect_names(list: &Vec<(u64, String)>) -> (out: HashMap<u64, String>)
    ensures
        pattern::texts(out@) == listed_names(list@),
{
    broadcast use vstd::std_specs::hash::group_hash_axioms;

    let mut out: HashMap<u64, String> = HashMap::new();
    assert(pattern::texts(out@) =~= Map::empty());
    let mut i: usize = 0;
    while i < list.len()
        invariant
            i <= list@.len(),
            pattern::texts(out@) == listed_names(list@.take(i as int)),
        decreases list@.len() - i,
    {
        broadcast use vstd::std_specs::hash::group_hash_axioms;

        let ghost before = out@;
        let name = list[i].1.clone();
        let ghost said = name@;
        out.insert(list[i].0, name);
        proof {
            assert(list@.take(i + 1).drop_last() == list@.take(i as int));
            assert(list@.take(i + 1).last() == list@[i as int]);
            assert(pattern::texts(out@) =~= pattern::texts(before).insert(list@[i as int].0, said));
        }
        i = i + 1;
    }
    assert(list@.take(i as int) == list@);
    out
}

/// The names of those who are mentioned.
fn collect_users(mentions: &Vec<Mention>, in_guild: bool) -> (out: HashMap<u64, String>)
    ensures
        pattern::texts(out@) == user_names(mentions@, in_guild),
{
    broadcast use vstd::std_specs::hash::group_hash_axioms;

    let mut out: HashMap<u64, String> = HashMap::new();
    assert(pattern::texts(out@) =~= Map::empty());
    let mut i: usize = 0;
    while i < mentions.len()
        invariant
            i <= mentions@.len(),
            pattern::texts(out@) == user_names(mentions@.take(i as int), in_guild),
        decreases mentions@.len() - i,
    {
        broadcast use vstd::std_specs::hash::group_hash_axioms;

        let ghost before = out@;
        let mention = &mentions[i];
        let name = if in_guild {
            call(&mention.nick, &mention.global_name, &mention.name)
        } else {
            mention.name.clone()
        };
        let ghost said = name@;
        out.insert(mention.id, name);
        proof {
            assert(mentions@.take(i + 1).drop_last() == mentions@.take(i as int));
            assert(mentions@.take(i + 1).last() == mentions@[i as int]);
            assert(pattern::texts(out@) =~= pattern::texts(before).insert(
                mentions@[i as int].id,
                said,
            ));
        }
        i = i + 1;
    }
    assert(mentions@.take(i as int) == mentions@);
    out
}

/// The names that a message needs, given whom it mentions and what is known of the guild.
pub fn resolve_names(mentions: &Vec<Mention>, guild: Option<&GuildNames>) -> (out: Names)
    ensures
        out@.users == user_names(mentions@, guild is Some),
        out@.roles == match guild {
            Some(guild) => listed_names(guild.roles@),
            None => Map::empty(),
        },
        out@.channels == match guild {
            Some(guild) => listed_names(guild.channels@),
            None => Map::empty(),
        },
{
    match guild {
        Some(guild) => Names {
            users: collect_users(mentions, true),
            roles: collect_names(&guild.roles),
            channels: collect_names(&guild.channels),
        },
        None => {
            let mut names = Names::default();
            names.users = collect_users(mentions, false);
            names
        },
    }
}

/// The guild that the commands are registered in, given what the environment says. Without a number
/// they are registered everywhere.
pub fn command_guild(raw: Option<&str>) -> (out: Option<u64>)
    ensures
        ({
            let parsed = match raw {
                Some(raw) => chars::parsed_u64(chars::trimmed(Edge::Space, raw@)),
                None => None,
            };
            match out {
                Some(guild_id) => parsed == Some(guild_id as nat),
                None => parsed is None,
            }
        }),
{
    match raw {
        Some(raw) => {
            let digits = chars::trim_text(Edge::Space, raw);
            chars::parse_u64(digits.as_str())
        },
        None => None,
    }
}

/// Whoever goes from the bot's channel to any other place, another voice channel or none, is said to
/// have left; whoever comes to it from any other place is said to have joined; who starts or stops to
/// stream in it is said to do so, before the coming; and nothing else is said. The bot leaves exactly
/// when someone left and, as far as it is known who is where, nobody but itself and other bots is in
/// its channel.
pub proof fn coming_and_going_is_told(
    old_state: Option<VoiceState>,
    new_state: VoiceState,
    bot_channel: u64,
    present: Option<Seq<Presence>>,
    me: u64,
    voice: Voice,
    name: Seq<char>,
)
    requires
        new_state.guild_id is Some,
        new_state.user_id != me,
        spoken_name(new_state.member) == Some(name),
    ensures
        ({
            let was_here = old_state is Some && old_state->0.channel_id == Some(bot_channel);
            let is_here = new_state.channel_id == Some(bot_channel);
            let streamed = old_state is Some && old_state->0.self_stream;
            let streams = new_state.self_stream;
            let tasks = said_of(old_state, new_state, Some(bot_channel), me, voice);
            let say = |words: Seq<char>|
                speech::TaskModel { text: name + words, voice, file: None, origin: None };
            &&& was_here && !is_here ==> tasks == seq![say("が退出しました"@)]
            &&& !was_here && is_here && (streamed || !streams) ==> tasks == seq![
                say("が参加しました"@),
            ]
            &&& !was_here && is_here && !streamed && streams ==> tasks == seq![
                say("さんが配信を開始しました"@),
                say("が参加しました"@),
            ]
            &&& was_here && is_here && !streamed && streams ==> tasks == seq![
                say("さんが配信を開始しました"@),
            ]
            &&& was_here && is_here && streamed && !streams ==> tasks == seq![
                say("さんが配信を終了しました"@),
            ]
            &&& was_here && is_here && streamed == streams ==> tasks.len() == 0
            &&& !was_here && !is_here ==> tasks.len() == 0
            &&& leaves(old_state, new_state, Some(bot_channel), present, me) <==> was_here
                && !is_here && present is Some && forall|i: int|
                0 <= i < present->0.len() ==> {
                    ||| (#[trigger] present->0[i]).channel_id != Some(bot_channel)
                    ||| present->0[i].user_id == me
                    ||| present->0[i].bot
                }
        }),
{
    let tasks = said_of(old_state, new_state, Some(bot_channel), me, voice);
    let say = |words: Seq<char>|
        speech::TaskModel { text: name + words, voice, file: None, origin: None };
    assert(Seq::empty().push(say("が退出しました"@)) =~= seq![say("が退出しました"@)]);
    assert(Seq::empty().push(say("が参加しました"@)) =~= seq![say("が参加しました"@)]);
    assert(seq![say("さんが配信を開始しました"@)].push(say("が参加しました"@)) =~= seq![
        say("さんが配信を開始しました"@),
        say("が参加しました"@),
    ]);
    if let Some(present) = present {
        if is_empty(present, bot_channel, me) {
            assert forall|i: int| 0 <= i < present.len() implies {
                ||| (#[trigger] present[i]).channel_id != Some(bot_channel)
                ||| present[i].user_id == me
                ||| present[i].bot
            } by {
                assert(!keeps(present[i], bot_channel, me));
            }
        }
    }
}

/// What the bot itself does, what happens outside of guilds, and what happens while the bot is in no
/// channel is neither read aloud nor a reason to leave. Someone without a readable name is not read
/// aloud, but leaves as anyone does.
pub proof fn what_does_not_concern_the_bot(
    old_state: Option<VoiceState>,
    new_state: VoiceState,
    bot_channel: Option<u64>,
    present: Option<Seq<Presence>>,
    me: u64,
    voice: Voice,
)
    ensures
        new_state.guild_id is None || new_state.user_id == me || bot_channel is None ==> {
            &&& said_of(old_state, new_state, bot_channel, me, voice).len() == 0
            &&& !leaves(old_state, new_state, bot_channel, present, me)
        },
        spoken_name(new_state.member) is None ==> said_of(
            old_state,
            new_state,
            bot_channel,
            me,
            voice,
        ).len() == 0,
{
}

/// Nothing is read of a message outside of guilds, of the bot's own messages, of channels that are not
/// read, where the reading is switched off, of bots where the guild does not want them read, and of
/// messages with the guild's prefix, blanks before it aside. Of every other message what
/// normalization leaves is read, within the guild's limit and by the guild's dictionary, in the
/// author's voice; and the engine's failure is told in its channel.
pub proof fn what_is_read_of_a_message(
    db: Db,
    library: Library,
    names: text::NamesModel,
    message: Message,
    me: u64,
)
    ensures
        ({
            let task = task_for(db, library, names, message, me);
            let guild_id = message.guild_id->0;
            let settings = db@.settings_of(guild_id);
            let content = chars::trimmed(Edge::Space, message.content@);
            let left = text::normalized(
                content,
                settings.max_length as nat,
                names,
                db.dictionary_list(guild_id),
                message.attachments as nat,
            );
            &&& message.guild_id is None ==> task is None
            &&& message.author_id == me ==> task is None
            &&& message.guild_id is Some && !db@.read_channels.contains_key(
                (guild_id, message.channel_id),
            ) ==> task is None
            &&& message.guild_id is Some && !settings.tts_enabled ==> task is None
            &&& message.guild_id is Some && message.author_bot && !settings.read_bots ==> task is None
            &&& message.guild_id is Some && chars::begins(content, settings.ignore_prefix)
                ==> task is None
            &&& message.guild_id is Some && message.author_id != me
                && db@.read_channels.contains_key((guild_id, message.channel_id))
                && settings.tts_enabled && (!message.author_bot || settings.read_bots)
                && !chars::begins(content, settings.ignore_prefix) ==> match left {
                None => task is None,
                Some(words) => {
                    &&& task is Some
                    &&& task->0.text == words
                    &&& task->0.voice == db@.voice_of(message.author_id)
                    &&& task->0.origin == Some(message.channel_id)
                },
            }
        }),
{
}

/// A recording is played instead of the engine exactly where the author has the style with the
/// recordings and there is one of the words, blanks at their ends aside; then it is that one.
pub proof fn recordings_are_for_their_style(
    db: Db,
    library: Library,
    names: text::NamesModel,
    message: Message,
    me: u64,
)
    ensures
        task_for(db, library, names, message, me) matches Some(task) ==> {
            let key = chars::trimmed(Edge::Space, task.text);
            &&& task.voice.style.0 != 14 ==> task.file is None
            &&& !library@.contains_key(key) ==> task.file is None
            &&& task.voice.style.0 == 14 && library@.contains_key(key) ==> task.file == Some(
                library@[key],
            )
        },
{
}

/// Whoever has a name in the guild goes by it, else by the one that is shown elsewhere, else by that
/// of the account.
pub proof fn the_guilds_name_comes_first(nick: Seq<char>, global_name: Seq<char>, name: Seq<char>)
    ensures
        called(Some(nick), Some(global_name), name) == nick,
        called(Some(nick), None, name) == nick,
        called(None, Some(global_name), name) == global_name,
        called(None, None, name) == name,
{
}

/// Whoever is mentioned is known by the name of the last mention, in a guild by the name there and
/// elsewhere by that of the account. Others are not affected.
pub proof fn mentions_bring_names(mentions: Seq<Mention>, mention: Mention, other: u64)
    requires
        other != mention.id,
    ensures
        ({
            let inside = user_names(mentions.push(mention), true);
            let outside = user_names(mentions.push(mention), false);
            let before = user_names(mentions, true);
            &&& inside.contains_pair(
                mention.id,
                called(
                    nicovideo::text_of(mention.nick),
                    nicovideo::text_of(mention.global_name),
                    mention.name@,
                ),
            )
            &&& outside.contains_pair(mention.id, mention.name@)
            &&& inside.contains_key(other) == before.contains_key(other)
            &&& before.contains_key(other) ==> inside[other] == before[other]
            &&& !user_names(Seq::empty(), true).contains_key(other)
            &&& !user_names(Seq::empty(), false).contains_key(other)
        }),
{
    assert(mentions.push(mention).drop_last() == mentions);
}

/// A role or a channel is known by the name that stands last in the list, and by none if the list does
/// not hold it.
pub proof fn lists_bring_names(list: Seq<(u64, String)>, entry: (u64, String), other: u64)
    requires
        other != entry.0,
    ensures
        listed_names(list.push(entry)).contains_pair(entry.0, entry.1@),
        listed_names(list.push(entry)).contains_key(other) == listed_names(list).contains_key(
            other,
        ),
        listed_names(list).contains_key(other) ==> listed_names(list.push(entry))[other]
            == listed_names(list)[other],
        !listed_names(Seq::empty()).contains_key(other),
{
    assert(list.push(entry).drop_last() == list);
}

/// A name is read as a message that says nothing else would be, of at most a hundred characters and
/// without a dictionary. Of whom no name is known, nothing is read.
pub proof fn a_name_is_read_as_a_message(member: Member)
    ensures
        member.nick is Some ==> spoken_name(Some(member)) == text::normalized(
            member.nick->0@,
            100,
            text::no_names(),
            Seq::empty(),
            0,
        ),
        member.nick is None && member.global_name is Some ==> spoken_name(Some(member))
            == text::normalized(member.global_name->0@, 100, text::no_names(), Seq::empty(), 0),
        member.nick is None && member.global_name is None ==> spoken_name(Some(member))
            == text::normalized(member.name@, 100, text::no_names(), Seq::empty(), 0),
        spoken_name(None) is None,
{
    smoothing_laws::blanks_are_silent(Seq::empty(), 100, text::no_names());
}

} // verus!
