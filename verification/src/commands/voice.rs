//! Going to voice channels and leaving them, and which channels are read there.

use vstd::prelude::*;

use crate::commands::reply;
use crate::commands::reply::Reply;
use crate::commands::reply::ReplyModel;
use crate::commands::settings;
use crate::db;
use crate::db::Db;
use crate::db::DbModel;
use crate::table;

verus! {

/// What is said when the bot has nowhere to go.
pub const NOWHERE: &'static str =
    "先にボイスチャンネルに参加するか、`/bind` でこのチャンネルにボイスチャンネルを紐づけてください。";

/// What is said when it is not known who is where.
pub const GUILD_UNKNOWN: &'static str = "サーバー情報を取得できませんでした。";

/// What is known of where the one who calls the bot is.
#[derive(Debug, Clone, Copy, PartialEq, Eq, Structural)]
pub enum Caller {
    /// Nothing is known of the guild.
    Unknown,
    /// In no voice channel.
    Nowhere,
    /// In a voice channel.
    In(u64),
}

/// Where the bot goes: to the voice channel that the text channel is bound to, else to the caller.
pub open spec fn destination(
    bindings: Map<(u64, u64), u64>,
    guild_id: u64,
    here: u64,
    caller: Caller,
) -> Option<u64> {
    if bindings.contains_key((guild_id, here)) {
        Some(bindings[(guild_id, here)])
    } else {
        match caller {
            Caller::In(channel_id) => Some(channel_id),
            _ => None,
        }
    }
}

/// Called from a text channel that is bound, the bot goes where it is bound to, wherever the caller
/// is. Once nothing binds the channel, the caller decides. Other channels are not affected.
pub proof fn a_binding_decides(
    bindings: Map<(u64, u64), u64>,
    guild_id: u64,
    here: u64,
    voice_channel: u64,
    caller: Caller,
    other: (u64, u64),
)
    requires
        other != (guild_id, here),
    ensures
        destination(bindings.insert((guild_id, here), voice_channel), guild_id, here, caller)
            == Some(voice_channel),
        destination(bindings.remove((guild_id, here)), guild_id, here, caller) == match caller {
            Caller::In(channel_id) => Some(channel_id),
            _ => None,
        },
        destination(
            bindings.insert((guild_id, here), voice_channel),
            other.0,
            other.1,
            caller,
        ) == destination(bindings, other.0, other.1, caller),
{
}

/// Decides where the bot goes when it is called from a text channel.
pub fn join(db: &Db, guild_id: u64, here: u64, caller: Caller) -> (out: Result<u64, Reply>)
    requires
        db.well_formed(),
    ensures
        match out {
            Ok(channel_id) => destination(db@.bindings, guild_id, here, caller) == Some(channel_id),
            Err(refusal) => {
                &&& destination(db@.bindings, guild_id, here, caller) is None
                &&& refusal@ == ReplyModel::Text(
                    if caller == Caller::Unknown {
                        GUILD_UNKNOWN@
                    } else {
                        NOWHERE@
                    },
                )
            },
        },
{
    match db.bound_voice_channel(guild_id, here) {
        Some(channel_id) => Ok(channel_id),
        None => match caller {
            Caller::In(channel_id) => Ok(channel_id),
            Caller::Nowhere => Err(reply::say(NOWHERE)),
            Caller::Unknown => Err(reply::say(GUILD_UNKNOWN)),
        },
    }
}

/// The text channels that are read in a voice channel: those bound to it, or the one that the bot
/// was called from.
pub open spec fn targets(db: Db, guild_id: u64, voice_channel: u64, here: u64) -> Seq<u64> {
    let bound = db::bound_to(db.binding_list(guild_id), voice_channel);
    if bound.len() == 0 {
        seq![here]
    } else {
        bound
    }
}

/// The channels that are read once more of them are.
pub open spec fn with_channels(
    channels: Map<(u64, u64), ()>,
    guild_id: u64,
    more: Seq<u64>,
) -> Map<(u64, u64), ()>
    decreases more.len(),
{
    if more.len() == 0 {
        channels
    } else {
        with_channels(channels, guild_id, more.drop_last()).insert((guild_id, more.last()), ())
    }
}

/// Every channel that is added is read, and none is read less.
pub proof fn added_channels_are_read(
    channels: Map<(u64, u64), ()>,
    guild_id: u64,
    more: Seq<u64>,
    place: (u64, u64),
)
    ensures
        with_channels(channels, guild_id, more).contains_key(place) <==> channels.contains_key(
            place,
        ) || (place.0 == guild_id && more.contains(place.1)),
    decreases more.len(),
{
    if more.len() > 0 {
        let rest = more.drop_last();
        added_channels_are_read(channels, guild_id, rest, place);
        if rest.contains(place.1) {
            let i = choose|i: int| 0 <= i < rest.len() && rest[i] == place.1;
            assert(more[i] == place.1);
        }
        if more.contains(place.1) {
            let i = choose|i: int| 0 <= i < more.len() && more[i] == place.1;
            if i < rest.len() {
                assert(rest[i] == place.1);
            }
        }
        if place.1 == more.last() {
            assert(more[more.len() - 1] == place.1);
        }
    }
}

/// Takes in whether the bot reached a voice channel. There it reads the channels that belong to it.
pub fn joined(db: &mut Db, guild_id: u64, voice_channel: u64, here: u64, reached: bool) -> (out:
    Reply)
    requires
        old(db).well_formed(),
    ensures
        final(db).well_formed(),
        if reached {
            &&& final(db)@ == (DbModel {
                read_channels: with_channels(
                    old(db)@.read_channels,
                    guild_id,
                    targets(*old(db), guild_id, voice_channel, here),
                ),
                ..old(db)@
            })
            &&& out@ == ReplyModel::Text(
                settings::mention(voice_channel) + " に参加しました。"@ + settings::mentions(
                    targets(*old(db), guild_id, voice_channel, here),
                ) + " の発言を読み上げます。"@,
            )
        } else {
            &&& *final(db) == *old(db)
            &&& out@ == ReplyModel::Text("ボイスチャンネルへの接続に失敗しました。"@)
        },
{
    if !reached {
        return reply::say("ボイスチャンネルへの接続に失敗しました。");
    }
    let mut channels = db.bound_text_channels(guild_id, voice_channel);
    if channels.len() == 0 {
        channels.push(here);
        assert(channels@ =~= seq![here]);
    }
    let ghost before = db@;
    let mut i: usize = 0;
    while i < channels.len()
        invariant
            i <= channels@.len(),
            db.well_formed(),
            db@ == (DbModel {
                read_channels: with_channels(
                    before.read_channels,
                    guild_id,
                    channels@.take(i as int),
                ),
                ..before
            }),
        decreases channels@.len() - i,
    {
        proof {
            assert(channels@.take(i + 1).drop_last() == channels@.take(i as int));
        }
        db.add_read_channel(guild_id, channels[i]);
        i = i + 1;
    }
    assert(channels@.take(i as int) == channels@);
    let place = settings::mention_text(voice_channel);
    let list = settings::mention_list(&channels);
    Reply::Text(
        place.concat(" に参加しました。").concat(list.as_str()).concat(" の発言を読み上げます。"),
    )
}

/// What is said when the music bot has nowhere to go.
pub const NO_CALLER: &'static str = "先にボイスチャンネルに参加してください。";

/// Decides where the music bot goes when it is called: to the caller. It reads no channel, so none
/// decides.
pub fn music_join(caller: Caller) -> (out: Result<u64, Reply>)
    ensures
        match (out, caller) {
            (Ok(channel_id), Caller::In(place)) => channel_id == place,
            (Err(refusal), Caller::Nowhere) => refusal@ == ReplyModel::Text(NO_CALLER@),
            (Err(refusal), Caller::Unknown) => refusal@ == ReplyModel::Text(GUILD_UNKNOWN@),
            _ => false,
        },
{
    match caller {
        Caller::In(channel_id) => Ok(channel_id),
        Caller::Nowhere => Err(reply::say(NO_CALLER)),
        Caller::Unknown => Err(reply::say(GUILD_UNKNOWN)),
    }
}

/// Takes in whether the music bot reached a voice channel.
pub fn music_joined(voice_channel: u64, reached: bool) -> (out: Reply)
    ensures
        out@ == ReplyModel::Text(
            if reached {
                settings::mention(voice_channel) + " に参加しました。"@
            } else {
                "ボイスチャンネルへの接続に失敗しました。"@
            },
        ),
{
    if reached {
        Reply::Text(settings::mention_text(voice_channel).concat(" に参加しました。"))
    } else {
        reply::say("ボイスチャンネルへの接続に失敗しました。")
    }
}

/// What came of leaving.
#[derive(Debug, Clone, Copy, PartialEq, Eq, Structural)]
pub enum Leaving {
    /// The bot was in no voice channel.
    NotConnected,
    Left,
    Failed,
}

/// Takes in what came of leaving. Once the bot has left, no channel of the guild is read any more;
/// what is bound stays bound.
pub fn leave(db: &mut Db, guild_id: u64, outcome: Leaving) -> (out: Reply)
    requires
        old(db).well_formed(),
    ensures
        final(db).well_formed(),
        match outcome {
            Leaving::NotConnected => *final(db) == *old(db) && out@ == ReplyModel::Text(
                "ボイスチャンネルに参加していません。"@,
            ),
            Leaving::Left => {
                &&& final(db)@ == (DbModel {
                    read_channels: table::without(old(db)@.read_channels, guild_id),
                    ..old(db)@
                })
                &&& out@ == ReplyModel::Text("ボイスチャンネルから切断しました。"@)
            },
            Leaving::Failed => *final(db) == *old(db) && out@ == ReplyModel::Text(
                "切断に失敗しました。"@,
            ),
        },
{
    match outcome {
        Leaving::NotConnected => reply::say("ボイスチャンネルに参加していません。"),
        Leaving::Left => {
            db.clear_read_channels(guild_id);
            reply::say("ボイスチャンネルから切断しました。")
        },
        Leaving::Failed => reply::say("切断に失敗しました。"),
    }
}

/// Takes in whether something that was being read was cut short.
pub fn skip(skipped: bool) -> (out: Reply)
    ensures
        out@ == ReplyModel::Text(
            if skipped {
                "スキップしました。"@
            } else {
                "いま読み上げているものはありません。"@
            },
        ),
{
    if skipped {
        reply::say("スキップしました。")
    } else {
        reply::say("いま読み上げているものはありません。")
    }
}

/// Binds a text channel to a voice channel.
pub fn bind(db: &mut Db, guild_id: u64, text: u64, voice: u64) -> (out: Reply)
    requires
        old(db).well_formed(),
    ensures
        final(db).well_formed(),
        final(db)@ == (DbModel {
            bindings: old(db)@.bindings.insert((guild_id, text), voice),
            ..old(db)@
        }),
        out@ == ReplyModel::Text(
            settings::mention(text) + " を "@ + settings::mention(voice)
                + " に紐づけました。`/join` で接続すると読み上げます。"@,
        ),
{
    db.bind_channel(guild_id, text, voice);
    let from = settings::mention_text(text);
    let to = settings::mention_text(voice);
    Reply::Text(
        from.concat(" を ").concat(to.as_str()).concat(
            " に紐づけました。`/join` で接続すると読み上げます。",
        ),
    )
}

/// Undoes what binds a text channel. It is not read any more then.
pub fn unbind(db: &mut Db, guild_id: u64, text: u64) -> (out: Reply)
    requires
        old(db).well_formed(),
    ensures
        final(db).well_formed(),
        if old(db)@.bindings.contains_key((guild_id, text)) {
            &&& final(db)@ == (DbModel {
                bindings: old(db)@.bindings.remove((guild_id, text)),
                read_channels: old(db)@.read_channels.remove((guild_id, text)),
                ..old(db)@
            })
            &&& out@ == ReplyModel::Text(settings::mention(text) + " の紐づけを解除しました。"@)
        } else {
            &&& final(db)@ == old(db)@
            &&& out@ == ReplyModel::Text(settings::mention(text) + " は紐づけられていません。"@)
        },
{
    let place = settings::mention_text(text);
    if db.unbind_channel(guild_id, text) {
        db.remove_read_channel(guild_id, text);
        Reply::Text(place.concat(" の紐づけを解除しました。"))
    } else {
        assert(old(db)@.bindings.remove((guild_id, text)) =~= old(db)@.bindings);
        Reply::Text(place.concat(" は紐づけられていません。"))
    }
}

/// The channels that are read in a voice channel are exactly those that are bound to it, wherever the
/// bot was called from; only where none is bound it is the one that it was called from.
pub proof fn the_bound_channels_are_read(
    db: Db,
    guild_id: u64,
    voice_channel: u64,
    here: u64,
    bound: u64,
    other: u64,
)
    requires
        db.well_formed(),
    ensures
        db@.bindings.contains_pair((guild_id, bound), voice_channel) ==> (targets(
            db,
            guild_id,
            voice_channel,
            here,
        ).contains(other) <==> db@.bindings.contains_pair((guild_id, other), voice_channel)),
        (forall|text: u64|
            !#[trigger] db@.bindings.contains_pair((guild_id, text), voice_channel)) ==> targets(
            db,
            guild_id,
            voice_channel,
            here,
        ) == seq![here],
{
    db::the_bound_channels_are_told(db, guild_id, voice_channel);
    let list = db::bound_to(db.binding_list(guild_id), voice_channel);
    if list.len() > 0 {
        assert(list.contains(list[0]));
    }
    if db@.bindings.contains_pair((guild_id, bound), voice_channel) {
        assert(list.contains(bound));
        let i = choose|i: int| 0 <= i < list.len() && list[i] == bound;
        assert(list.len() > 0);
    }
}

} // verus!
