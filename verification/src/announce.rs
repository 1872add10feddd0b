//! Announcing that the queue went on by itself.

use std::collections::HashMap;

use vstd::prelude::*;

use crate::chars;
use crate::music;
use crate::music::TrackChanged;

verus! {

/// Where announcements go, by guild: to the channel that the bot was last called from.
#[derive(Debug)]
pub struct AnnounceChannels {
    channels: HashMap<u64, u64>,
}

impl View for AnnounceChannels {
    type V = Map<u64, u64>;

    closed spec fn view(&self) -> Map<u64, u64> {
        self.channels@
    }
}

impl Default for AnnounceChannels {
    fn default() -> (out: AnnounceChannels)
        ensures
            out@ == Map::<u64, u64>::empty(),
    {
        broadcast use vstd::std_specs::hash::group_hash_axioms;

        AnnounceChannels { channels: HashMap::new() }
    }
}

/// What is said when a track ended: what plays now, or that the queue has run out.
pub open spec fn wording(change: music::ChangeModel) -> Seq<char> {
    match change.next {
        Some(next) => "⏹ "@ + music::linked(change.finished) + " の再生が終わりました。\n▶ "@
            + music::linked(next) + " を再生開始します。"@,
        None => "⏹ "@ + music::linked(change.finished) + " の再生が終わりました。キューは空です。"@,
    }
}

/// What is said when a track ended.
pub fn wording_text(change: &TrackChanged) -> (out: String)
    ensures
        out@ == wording(change@),
{
    let finished = change.finished.link();
    match &change.next {
        Some(next) => {
            let next = next.link();
            "⏹ ".to_owned().concat(finished.as_str()).concat(" の再生が終わりました。\n▶ ").concat(
                next.as_str(),
            ).concat(" を再生開始します。")
        },
        None => "⏹ ".to_owned().concat(finished.as_str()).concat(
            " の再生が終わりました。キューは空です。",
        ),
    }
}

impl AnnounceChannels {
    /// Takes note of the channel that the bot was called from.
    pub fn set(&mut self, guild_id: u64, channel_id: u64)
        ensures
            final(self)@ == old(self)@.insert(guild_id, channel_id),
    {
        broadcast use vstd::std_specs::hash::group_hash_axioms;

        self.channels.insert(guild_id, channel_id);
    }

    /// The channel for the announcements of a guild.
    pub fn get(&self, guild_id: u64) -> (out: Option<u64>)
        ensures
            out == (if self@.contains_key(guild_id) {
                Some(self@[guild_id])
            } else {
                None
            }),
    {
        broadcast use vstd::std_specs::hash::group_hash_axioms;

        match self.channels.get(&guild_id) {
            Some(channel_id) => Some(*channel_id),
            None => None,
        }
    }

    /// What is said where when a track ended. Nothing, if it is not known where.
    pub fn announce(&self, change: &TrackChanged) -> (out: Option<(u64, String)>)
        ensures
            out is Some <==> self@.contains_key(change@.guild_id),
            match out {
                Some((channel_id, words)) => channel_id == self@[change@.guild_id] && words@
                    == wording(change@),
                None => true,
            },
    {
        match self.get(change.guild_id) {
            Some(channel_id) => Some((channel_id, wording_text(change))),
            None => None,
        }
    }
}

/// The announcement names the track that ended, and then the one that plays now. Only where none does,
/// it says that the queue has run out.
pub proof fn the_announcement_names_the_tracks(change: music::ChangeModel)
    ensures
        chars::begins(
            wording(change),
            "⏹ "@ + music::linked(change.finished) + " の再生が終わりました。"@,
        ),
        change.next is Some ==> chars::ends(
            wording(change),
            "\n▶ "@ + music::linked(change.next->0) + " を再生開始します。"@,
        ),
        change.next is None ==> chars::ends(wording(change), "キューは空です。"@),
{
    reveal_strlit(" の再生が終わりました。");
    reveal_strlit(" の再生が終わりました。\n▶ ");
    reveal_strlit(" の再生が終わりました。キューは空です。");
    reveal_strlit("キューは空です。");
    reveal_strlit("\n▶ ");
    let said = "⏹ "@ + music::linked(change.finished) + " の再生が終わりました。"@;
    let rest = match change.next {
        Some(next) => "\n▶ "@ + music::linked(next) + " を再生開始します。"@,
        None => "キューは空です。"@,
    };
    assert(wording(change) =~= said + rest);
    chars::a_part_stands_where_it_was_put(said, rest, rest);
    chars::a_part_stands_where_it_was_put(said, said, rest);
}

} // verus!
