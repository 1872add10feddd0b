//! What the bot remembers: settings, voices, dictionaries, favourites and statistics.

use vstd::prelude::*;

use crate::rank;
use crate::scale::Scale;
use crate::table;
use crate::table::Field;
use crate::table::Table;
use crate::text;
use crate::voicevox;
use crate::voicevox::StyleId;
use crate::voicevox::Voice;
use crate::volume::DEFAULT_VOLUME;

verus! {

/// What a message that is not read begins with unless a guild says otherwise.
pub const DEFAULT_IGNORE_PREFIX: &'static str = ";";

/// How often the time is read, in minutes, unless a guild says otherwise.
pub const DEFAULT_INTERVAL: u32 = 60;

/// The settings of a guild.
#[derive(Debug)]
pub struct GuildSettings {
    /// How many characters of a message are read.
    pub max_length: usize,
    /// Whether the messages of bots are read.
    pub read_bots: bool,
    /// What a message that is not read begins with.
    pub ignore_prefix: String,
    /// The volume of music as a share of the loudest.
    pub music_volume: Scale,
    pub tts_enabled: bool,
    pub music_enabled: bool,
    pub time_signal_enabled: bool,
    /// How often the time is read, in minutes.
    pub time_signal_interval: u32,
    pub time_signal_style: u32,
}

/// The mathematical counterpart of [`GuildSettings`].
pub struct SettingsModel {
    pub max_length: usize,
    pub read_bots: bool,
    pub ignore_prefix: Seq<char>,
    pub music_volume: Scale,
    pub tts_enabled: bool,
    pub music_enabled: bool,
    pub time_signal_enabled: bool,
    pub time_signal_interval: u32,
    pub time_signal_style: u32,
}

impl View for GuildSettings {
    type V = SettingsModel;

    open spec fn view(&self) -> SettingsModel {
        SettingsModel {
            max_length: self.max_length,
            read_bots: self.read_bots,
            ignore_prefix: self.ignore_prefix@,
            music_volume: self.music_volume,
            tts_enabled: self.tts_enabled,
            music_enabled: self.music_enabled,
            time_signal_enabled: self.time_signal_enabled,
            time_signal_interval: self.time_signal_interval,
            time_signal_style: self.time_signal_style,
        }
    }
}

/// The settings of a guild that has set nothing. The time is not read, so that no guild hears it
/// unasked.
pub open spec fn default_settings() -> SettingsModel {
    SettingsModel {
        max_length: text::DEFAULT_MAX_LENGTH,
        read_bots: false,
        ignore_prefix: DEFAULT_IGNORE_PREFIX@,
        music_volume: Scale { bits: DEFAULT_VOLUME },
        tts_enabled: true,
        music_enabled: true,
        time_signal_enabled: false,
        time_signal_interval: DEFAULT_INTERVAL,
        time_signal_style: voicevox::DEFAULT_STYLE,
    }
}

impl Default for GuildSettings {
    fn default() -> (out: GuildSettings)
        ensures
            out@ == default_settings(),
    {
        GuildSettings {
            max_length: text::DEFAULT_MAX_LENGTH,
            read_bots: false,
            ignore_prefix: DEFAULT_IGNORE_PREFIX.to_owned(),
            music_volume: Scale { bits: DEFAULT_VOLUME },
            tts_enabled: true,
            music_enabled: true,
            time_signal_enabled: false,
            time_signal_interval: DEFAULT_INTERVAL,
            time_signal_style: voicevox::DEFAULT_STYLE,
        }
    }
}

impl Field for GuildSettings {
    fn copy(&self) -> (out: GuildSettings) {
        GuildSettings {
            max_length: self.max_length,
            read_bots: self.read_bots,
            ignore_prefix: self.ignore_prefix.clone(),
            music_volume: self.music_volume,
            tts_enabled: self.tts_enabled,
            music_enabled: self.music_enabled,
            time_signal_enabled: self.time_signal_enabled,
            time_signal_interval: self.time_signal_interval,
            time_signal_style: self.time_signal_style,
        }
    }
}

impl View for Voice {
    type V = Voice;

    open spec fn view(&self) -> Voice {
        *self
    }
}

impl Field for Voice {
    fn copy(&self) -> (out: Voice) {
        *self
    }
}

/// How much of a user's texts was read in a guild.
#[derive(Debug, Clone, Copy, PartialEq, Eq, Structural)]
pub struct Spoken {
    /// The day that `today` is about.
    pub day: i64,
    /// The characters of that day.
    pub today: u64,
    /// The characters of all days.
    pub total: u64,
}

impl View for Spoken {
    type V = Spoken;

    open spec fn view(&self) -> Spoken {
        *self
    }
}

impl Field for Spoken {
    fn copy(&self) -> (out: Spoken) {
        *self
    }
}

/// How much of a user's texts was read, on a day and in all.
#[derive(Debug, Clone, Copy, PartialEq, Eq, Structural)]
pub struct Reader {
    pub user_id: u64,
    pub today: u64,
    pub total: u64,
}

/// What was counted of users, as of a day. What was counted on another day is not of that day.
pub open spec fn readers(list: Seq<(u64, Spoken)>, day: i64) -> Seq<Reader> {
    Seq::new(
        list.len(),
        |i: int|
            Reader {
                user_id: list[i].0,
                today: if list[i].1.day == day {
                    list[i].1.today
                } else {
                    0
                },
                total: list[i].1.total,
            },
    )
}

/// The sum of two counts, as far as a count can go.
pub open spec fn together(a: u64, b: u64) -> u64 {
    if a + b > u64::MAX {
        u64::MAX
    } else {
        (a + b) as u64
    }
}

/// What is counted of a user after more characters on a day.
pub open spec fn counted(before: Option<Spoken>, day: i64, count: u64) -> Spoken {
    match before {
        Some(row) => Spoken {
            day,
            today: together(
                if row.day == day {
                    row.today
                } else {
                    0
                },
                count,
            ),
            total: together(row.total, count),
        },
        None => Spoken { day, today: count, total: count },
    }
}

/// One more than a map says.
pub open spec fn one_more<K>(map: Map<K, u64>, key: K) -> u64 {
    together(
        if map.contains_key(key) {
            map[key]
        } else {
            0
        },
        1,
    )
}

/// Where something goes in a ranking does not depend on what it is called.
proof fn lemma_rank_of_pairs(list: Seq<(String, u64)>, count: u64)
    ensures
        rank::rank_of(table::pairs(list), count) == rank::rank_of(list, count),
    decreases list.len(),
{
    if list.len() > 0 && list[0].1 >= count {
        lemma_rank_of_pairs(list.skip(1), count);
        assert(table::pairs(list).skip(1) =~= table::pairs(list.skip(1)));
    }
}

/// Ranking titles is ranking what they say.
proof fn lemma_ranked_pairs(list: Seq<(String, u64)>)
    ensures
        table::pairs(rank::ranked(list)) == rank::ranked(table::pairs(list)),
    decreases list.len(),
{
    if list.len() > 0 {
        let rest = list.drop_last();
        lemma_ranked_pairs(rest);
        let before = rank::ranked(rest);
        lemma_rank_of_pairs(before, list.last().1);
        rank::a_ranking_is_ordered(rest);
        rank::lemma_rank_of(before, list.last().1);
        let at = rank::rank_of(before, list.last().1);
        assert(table::pairs(list).drop_last() =~= table::pairs(rest));
        assert(table::pairs(before.insert(at, list.last())) =~= table::pairs(before).insert(
            at,
            (list.last().0@, list.last().1),
        ));
    }
}

/// What the bot remembers.
#[derive(Debug)]
pub struct Db {
    read_channels: Table<u64, ()>,
    bindings: Table<u64, u64>,
    settings: Table<(), GuildSettings>,
    voices: Table<(), Voice>,
    dictionary: Table<String, String>,
    playlist: Table<String, String>,
    speech: Table<u64, Spoken>,
    tracks: Table<String, u64>,
    listeners: Table<u64, u64>,
}

/// The mathematical counterpart of [`Db`].
#[verifier::ext_equal]
pub struct DbModel {
    /// The channels whose messages are read, by guild and channel.
    pub read_channels: Map<(u64, u64), ()>,
    /// The voice channels that text channels are bound to, by guild and text channel.
    pub bindings: Map<(u64, u64), u64>,
    /// The settings by guild.
    pub settings: Map<(u64, ()), SettingsModel>,
    /// The voices by user, the same in all guilds.
    pub voices: Map<(u64, ()), Voice>,
    /// The readings by guild and spelling.
    pub dictionary: Map<(u64, Seq<char>), Seq<char>>,
    /// The addresses by guild and name.
    pub playlist: Map<(u64, Seq<char>), Seq<char>>,
    /// What was read, by guild and user.
    pub speech: Map<(u64, u64), Spoken>,
    /// How often a track was played, by guild and title.
    pub tracks: Map<(u64, Seq<char>), u64>,
    /// How often a user had something played, by guild and user.
    pub listeners: Map<(u64, u64), u64>,
}

impl View for Db {
    type V = DbModel;

    closed spec fn view(&self) -> DbModel {
        DbModel {
            read_channels: self.read_channels@,
            bindings: self.bindings@,
            settings: self.settings@,
            voices: self.voices@,
            dictionary: self.dictionary@,
            playlist: self.playlist@,
            speech: self.speech@,
            tracks: self.tracks@,
            listeners: self.listeners@,
        }
    }
}

impl DbModel {
    /// The settings of a guild: the stock ones unless it has set something.
    pub open spec fn settings_of(self, guild_id: u64) -> SettingsModel {
        if self.settings.contains_key((guild_id, ())) {
            self.settings[(guild_id, ())]
        } else {
            default_settings()
        }
    }

    /// The voice of a user: the stock one unless the user has chosen something.
    pub open spec fn voice_of(self, user_id: u64) -> Voice {
        if self.voices.contains_key((user_id, ())) {
            self.voices[(user_id, ())]
        } else {
            voicevox::default_voice()
        }
    }

    /// What was counted of a user in a guild.
    pub open spec fn spoken_by(self, guild_id: u64, user_id: u64) -> Option<Spoken> {
        if self.speech.contains_key((guild_id, user_id)) {
            Some(self.speech[(guild_id, user_id)])
        } else {
            None
        }
    }

    /// The same with other settings of a guild.
    pub open spec fn with_settings(self, guild_id: u64, settings: SettingsModel) -> DbModel {
        DbModel { settings: self.settings.insert((guild_id, ()), settings), ..self }
    }

    /// The same with another voice of a user.
    pub open spec fn with_voice(self, user_id: u64, voice: Voice) -> DbModel {
        DbModel { voices: self.voices.insert((user_id, ()), voice), ..self }
    }
}

/// Nothing at all.
pub open spec fn nothing() -> DbModel {
    DbModel {
        read_channels: Map::empty(),
        bindings: Map::empty(),
        settings: Map::empty(),
        voices: Map::empty(),
        dictionary: Map::empty(),
        playlist: Map::empty(),
        speech: Map::empty(),
        tracks: Map::empty(),
        listeners: Map::empty(),
    }
}

/// An identifier of Discord as a signed number, which is what a database holds.
pub fn id(value: u64) -> (out: i64)
    ensures
        out as u64 == value,
        value <= i64::MAX ==> out == value,
{
    assert((value as i64) as u64 == value) by (bit_vector);
    assert(value <= 0x7fff_ffff_ffff_ffff ==> (value as i64) >= 0) by (bit_vector);
    assert(value <= 0x7fff_ffff_ffff_ffff ==> (value as i64) as u64 == value) by (bit_vector);
    value as i64
}

/// The identifier of Discord that a signed number stands for.
pub fn from_id(value: i64) -> (out: u64)
    ensures
        out as i64 == value,
        value >= 0 ==> out == value,
{
    assert((value as u64) as i64 == value) by (bit_vector);
    value as u64
}

/// A number that fits 32 bits, the nearest if it does not.
pub open spec fn squeezed(value: int) -> u32 {
    if value < 0 {
        0
    } else if value > u32::MAX {
        u32::MAX
    } else {
        value as u32
    }
}

/// A style, or another number of 32 bits, that a database held as a signed number.
pub fn from_column(value: i64) -> (out: u32)
    ensures
        out == squeezed(value as int),
{
    if value < 0 {
        0
    } else if value > 0xffff_ffff {
        0xffff_ffff
    } else {
        value as u32
    }
}

/// A number of characters that a database held as a signed number. It is at least one.
pub fn length_from_column(value: i64) -> (out: usize)
    ensures
        out == (if value < 1 {
            1
        } else {
            value as usize
        }),
{
    if value < 1 {
        1
    } else {
        value as usize
    }
}

/// A number of characters as it is remembered: at least one, and no more than a signed 64-bit
/// number can say.
pub open spec fn kept_length(max_length: usize) -> usize {
    if 1 <= max_length && max_length <= i64::MAX {
        max_length
    } else {
        1
    }
}

/// The text channels of a list that are bound to a voice channel.
pub open spec fn bound_to(list: Seq<(u64, u64)>, voice_channel_id: u64) -> Seq<u64>
    decreases list.len(),
{
    if list.len() == 0 {
        Seq::empty()
    } else {
        let before = bound_to(list.drop_last(), voice_channel_id);
        if list.last().1 == voice_channel_id {
            before.push(list.last().0)
        } else {
            before
        }
    }
}

/// What is bound to a voice channel stands in the list with it.
proof fn lemma_bound_to(list: Seq<(u64, u64)>, voice_channel_id: u64, text_channel_id: u64)
    ensures
        bound_to(list, voice_channel_id).contains(text_channel_id) <==> exists|j: int|
            0 <= j < list.len() && #[trigger] list[j] == (text_channel_id, voice_channel_id),
    decreases list.len(),
{
    if list.len() > 0 {
        let rest = list.drop_last();
        lemma_bound_to(rest, voice_channel_id, text_channel_id);
        let before = bound_to(rest, voice_channel_id);
        let all = bound_to(list, voice_channel_id);
        let wanted = (text_channel_id, voice_channel_id);
        if all.contains(text_channel_id) {
            let k = choose|k: int| 0 <= k < all.len() && all[k] == text_channel_id;
            if k < before.len() {
                assert(before[k] == text_channel_id);
                let j = choose|j: int| 0 <= j < rest.len() && #[trigger] rest[j] == wanted;
                assert(list[j] == wanted);
            } else {
                assert(list[list.len() - 1] == wanted);
            }
        }
        if exists|j: int| 0 <= j < list.len() && #[trigger] list[j] == wanted {
            let j = choose|j: int| 0 <= j < list.len() && #[trigger] list[j] == wanted;
            if j < rest.len() {
                assert(rest[j] == wanted);
                let k = choose|k: int| 0 <= k < before.len() && before[k] == text_channel_id;
                assert(all[k] == text_channel_id);
            } else {
                assert(all[before.len() as int] == text_channel_id);
            }
        }
    }
}

impl Db {
    /// No table says two things of the same.
    pub closed spec fn well_formed(self) -> bool {
        &&& self.read_channels.well_formed()
        &&& self.bindings.well_formed()
        &&& self.settings.well_formed()
        &&& self.voices.well_formed()
        &&& self.dictionary.well_formed()
        &&& self.playlist.well_formed()
        &&& self.speech.well_formed()
        &&& self.tracks.well_formed()
        &&& self.listeners.well_formed()
    }

    /// A bot that remembers nothing.
    pub fn new() -> (out: Db)
        ensures
            out.well_formed(),
            out@ == nothing(),
    {
        Db {
            read_channels: Table::new(),
            bindings: Table::new(),
            settings: Table::new(),
            voices: Table::new(),
            dictionary: Table::new(),
            playlist: Table::new(),
            speech: Table::new(),
            tracks: Table::new(),
            listeners: Table::new(),
        }
    }

    /// Has the messages of a channel read.
    pub fn add_read_channel(&mut self, guild_id: u64, channel_id: u64)
        requires
            old(self).well_formed(),
        ensures
            final(self).well_formed(),
            final(self)@ == (DbModel {
                read_channels: old(self)@.read_channels.insert((guild_id, channel_id), ()),
                ..old(self)@
            }),
    {
        self.read_channels.put(guild_id, channel_id, ());
    }

    /// Has no messages read in any guild. Says of how many channels they were read.
    pub fn clear_all_read_channels(&mut self) -> (out: u64)
        requires
            old(self).well_formed(),
        ensures
            final(self).well_formed(),
            final(self)@ == (DbModel { read_channels: Map::empty(), ..old(self)@ }),
            old(self)@.read_channels.dom().finite(),
            out == old(self)@.read_channels.dom().len(),
    {
        self.read_channels.clear_all() as u64
    }

    /// Has no messages of a guild read.
    pub fn clear_read_channels(&mut self, guild_id: u64)
        requires
            old(self).well_formed(),
        ensures
            final(self).well_formed(),
            final(self)@ == (DbModel {
                read_channels: table::without(old(self)@.read_channels, guild_id),
                ..old(self)@
            }),
    {
        self.read_channels.clear(guild_id);
    }

    /// Has the messages of a channel not read any more.
    pub fn remove_read_channel(&mut self, guild_id: u64, channel_id: u64)
        requires
            old(self).well_formed(),
        ensures
            final(self).well_formed(),
            final(self)@ == (DbModel {
                read_channels: old(self)@.read_channels.remove((guild_id, channel_id)),
                ..old(self)@
            }),
    {
        self.read_channels.remove(guild_id, &channel_id);
    }

    /// Whether the messages of a channel are read.
    pub fn is_read_channel(&self, guild_id: u64, channel_id: u64) -> (out: bool)
        requires
            self.well_formed(),
        ensures
            out == self@.read_channels.contains_key((guild_id, channel_id)),
    {
        self.read_channels.get(guild_id, &channel_id).is_some()
    }

    /// The channels of a guild whose messages are read, in the order in which they are listed.
    pub closed spec fn channel_list(self, guild_id: u64) -> Seq<u64> {
        self.read_channels.listing(guild_id).map_values(|entry: (u64, ())| entry.0)
    }

    /// The channels of a guild whose messages are read.
    pub fn read_channels(&self, guild_id: u64) -> (out: Vec<u64>)
        requires
            self.well_formed(),
        ensures
            out@ == self.channel_list(guild_id),
            out@.no_duplicates(),
            forall|channel_id: u64| #[trigger]
                out@.contains(channel_id) <==> self@.read_channels.contains_key(
                    (guild_id, channel_id),
                ),
    {
        let rows = self.read_channels.list(guild_id);
        let mut out: Vec<u64> = Vec::new();
        let mut i: usize = 0;
        while i < rows.len()
            invariant
                i <= rows@.len(),
                out@.len() == i,
                forall|j: int| 0 <= j < i ==> #[trigger] out@[j] == rows@[j].0,
            decreases rows@.len() - i,
        {
            out.push(rows[i].0);
            i = i + 1;
        }
        proof {
            assert forall|j: int| 0 <= j < out@.len() implies #[trigger] out@[j]
                == self.channel_list(guild_id)[j] by {
                assert(table::pairs(rows@)[j].0 == rows@[j].0);
            }
            assert(out@ =~= self.channel_list(guild_id));
            the_lists_tell_all(*self, guild_id);
        }
        out
    }

    /// Binds a text channel to a voice channel, in place of one that it was bound to.
    pub fn bind_channel(&mut self, guild_id: u64, text_channel_id: u64, voice_channel_id: u64)
        requires
            old(self).well_formed(),
        ensures
            final(self).well_formed(),
            final(self)@ == (DbModel {
                bindings: old(self)@.bindings.insert(
                    (guild_id, text_channel_id),
                    voice_channel_id,
                ),
                ..old(self)@
            }),
    {
        self.bindings.put(guild_id, text_channel_id, voice_channel_id);
    }

    /// Undoes what binds a text channel. Says whether it was bound.
    pub fn unbind_channel(&mut self, guild_id: u64, text_channel_id: u64) -> (out: bool)
        requires
            old(self).well_formed(),
        ensures
            final(self).well_formed(),
            out == old(self)@.bindings.contains_key((guild_id, text_channel_id)),
            final(self)@ == (DbModel {
                bindings: old(self)@.bindings.remove((guild_id, text_channel_id)),
                ..old(self)@
            }),
    {
        self.bindings.remove(guild_id, &text_channel_id)
    }

    /// The text channels of a guild with the voice channels that they are bound to, in the order
    /// in which they are listed.
    pub closed spec fn binding_list(self, guild_id: u64) -> Seq<(u64, u64)> {
        self.bindings.listing(guild_id)
    }

    /// The text channels of a guild with the voice channels that they are bound to.
    pub fn bindings(&self, guild_id: u64) -> (out: Vec<(u64, u64)>)
        requires
            self.well_formed(),
        ensures
            out@ == self.binding_list(guild_id),
            table::lists(out@, table::of(self@.bindings, guild_id)),
    {
        let out = self.bindings.list(guild_id);
        assert(table::pairs(out@) =~= out@);
        out
    }

    /// The text channels that are bound to a voice channel.
    pub fn bound_text_channels(&self, guild_id: u64, voice_channel_id: u64) -> (out: Vec<u64>)
        requires
            self.well_formed(),
        ensures
            out@ == bound_to(self.binding_list(guild_id), voice_channel_id),
            forall|text_channel_id: u64| #[trigger]
                out@.contains(text_channel_id) <==> self@.bindings.contains_pair(
                    (guild_id, text_channel_id),
                    voice_channel_id,
                ),
    {
        let rows = self.bindings(guild_id);
        let mut out: Vec<u64> = Vec::new();
        let mut i: usize = 0;
        while i < rows.len()
            invariant
                i <= rows@.len(),
                out@ == bound_to(rows@.take(i as int), voice_channel_id),
            decreases rows@.len() - i,
        {
            let row: (u64, u64) = rows[i];
            proof {
                assert(rows@.take(i + 1).drop_last() == rows@.take(i as int));
                assert(rows@.take(i + 1).last() == rows@[i as int]);
            }
            if row.1 == voice_channel_id {
                out.push(row.0);
            }
            i = i + 1;
        }
        proof {
            assert(rows@.take(i as int) == rows@);
            the_bound_channels_are_told(*self, guild_id, voice_channel_id);
        }
        out
    }

    /// The voice channel that a text channel is bound to.
    pub fn bound_voice_channel(&self, guild_id: u64, text_channel_id: u64) -> (out: Option<u64>)
        requires
            self.well_formed(),
        ensures
            out == (if self@.bindings.contains_key((guild_id, text_channel_id)) {
                Some(self@.bindings[(guild_id, text_channel_id)])
            } else {
                None
            }),
    {
        self.bindings.get(guild_id, &text_channel_id)
    }

    /// The settings of a guild.
    pub fn guild_settings(&self, guild_id: u64) -> (out: GuildSettings)
        requires
            self.well_formed(),
        ensures
            out@ == self@.settings_of(guild_id),
    {
        match self.settings.get(guild_id, &()) {
            Some(settings) => settings,
            None => GuildSettings::default(),
        }
    }

    /// Takes up settings that were kept elsewhere.
    pub fn restore_settings(&mut self, guild_id: u64, settings: GuildSettings)
        requires
            old(self).well_formed(),
        ensures
            final(self).well_formed(),
            final(self)@ == old(self)@.with_settings(guild_id, settings@),
    {
        self.settings.put(guild_id, (), settings);
    }

    /// Sets how many characters of a message are read.
    pub fn set_max_length(&mut self, guild_id: u64, max_length: usize)
        requires
            old(self).well_formed(),
        ensures
            final(self).well_formed(),
            final(self)@ == old(self)@.with_settings(
                guild_id,
                SettingsModel { max_length: kept_length(max_length), ..old(self)@.settings_of(guild_id) },
            ),
    {
        let mut settings = self.guild_settings(guild_id);
        settings.max_length = if 1 <= max_length && max_length as u64 <= 0x7fff_ffff_ffff_ffff {
            max_length
        } else {
            1
        };
        self.settings.put(guild_id, (), settings);
    }

    /// Switches the reading of messages on or off.
    pub fn set_tts_enabled(&mut self, guild_id: u64, on: bool)
        requires
            old(self).well_formed(),
        ensures
            final(self).well_formed(),
            final(self)@ == old(self)@.with_settings(
                guild_id,
                SettingsModel { tts_enabled: on, ..old(self)@.settings_of(guild_id) },
            ),
    {
        let mut settings = self.guild_settings(guild_id);
        settings.tts_enabled = on;
        self.settings.put(guild_id, (), settings);
    }

    /// Switches music on or off.
    pub fn set_music_enabled(&mut self, guild_id: u64, on: bool)
        requires
            old(self).well_formed(),
        ensures
            final(self).well_formed(),
            final(self)@ == old(self)@.with_settings(
                guild_id,
                SettingsModel { music_enabled: on, ..old(self)@.settings_of(guild_id) },
            ),
    {
        let mut settings = self.guild_settings(guild_id);
        settings.music_enabled = on;
        self.settings.put(guild_id, (), settings);
    }

    /// Switches the time signal on or off.
    pub fn set_time_signal_enabled(&mut self, guild_id: u64, on: bool)
        requires
            old(self).well_formed(),
        ensures
            final(self).well_formed(),
            final(self)@ == old(self)@.with_settings(
                guild_id,
                SettingsModel { time_signal_enabled: on, ..old(self)@.settings_of(guild_id) },
            ),
    {
        let mut settings = self.guild_settings(guild_id);
        settings.time_signal_enabled = on;
        self.settings.put(guild_id, (), settings);
    }

    /// Sets how often the time is read, in minutes.
    pub fn set_time_signal_interval(&mut self, guild_id: u64, minutes: u32)
        requires
            old(self).well_formed(),
        ensures
            final(self).well_formed(),
            final(self)@ == old(self)@.with_settings(
                guild_id,
                SettingsModel { time_signal_interval: minutes, ..old(self)@.settings_of(guild_id) },
            ),
    {
        let mut settings = self.guild_settings(guild_id);
        settings.time_signal_interval = minutes;
        self.settings.put(guild_id, (), settings);
    }

    /// Sets the style in which the time is read.
    pub fn set_time_signal_style(&mut self, guild_id: u64, style: StyleId)
        requires
            old(self).well_formed(),
        ensures
            final(self).well_formed(),
            final(self)@ == old(self)@.with_settings(
                guild_id,
                SettingsModel { time_signal_style: style.0, ..old(self)@.settings_of(guild_id) },
            ),
    {
        let mut settings = self.guild_settings(guild_id);
        settings.time_signal_style = style.0;
        self.settings.put(guild_id, (), settings);
    }

    /// Sets the volume of music, as a share of the loudest.
    pub fn set_music_volume(&mut self, guild_id: u64, share: Scale)
        requires
            old(self).well_formed(),
        ensures
            final(self).well_formed(),
            final(self)@ == old(self)@.with_settings(
                guild_id,
                SettingsModel { music_volume: share, ..old(self)@.settings_of(guild_id) },
            ),
    {
        let mut settings = self.guild_settings(guild_id);
        settings.music_volume = share;
        self.settings.put(guild_id, (), settings);
    }

    /// The voice of a user.
    pub fn voice(&self, user_id: u64) -> (out: Voice)
        requires
            self.well_formed(),
        ensures
            out == self@.voice_of(user_id),
    {
        match self.voices.get(user_id, &()) {
            Some(voice) => voice,
            None => Voice::default(),
        }
    }

    /// Takes up a voice that was kept elsewhere.
    pub fn restore_voice(&mut self, user_id: u64, voice: Voice)
        requires
            old(self).well_formed(),
        ensures
            final(self).well_formed(),
            final(self)@ == old(self)@.with_voice(user_id, voice),
    {
        self.voices.put(user_id, (), voice);
    }

    /// Sets the style of a user.
    pub fn set_style(&mut self, user_id: u64, style: StyleId)
        requires
            old(self).well_formed(),
        ensures
            final(self).well_formed(),
            final(self)@ == old(self)@.with_voice(
                user_id,
                Voice { style: style, ..old(self)@.voice_of(user_id) },
            ),
    {
        let mut voice = self.voice(user_id);
        voice.style = style;
        self.voices.put(user_id, (), voice);
    }

    /// Sets the speed of a user's voice.
    pub fn set_speed(&mut self, user_id: u64, speed: Scale)
        requires
            old(self).well_formed(),
        ensures
            final(self).well_formed(),
            final(self)@ == old(self)@.with_voice(
                user_id,
                Voice { speed: speed, ..old(self)@.voice_of(user_id) },
            ),
    {
        let mut voice = self.voice(user_id);
        voice.speed = speed;
        self.voices.put(user_id, (), voice);
    }

    /// Sets the pitch of a user's voice.
    pub fn set_pitch(&mut self, user_id: u64, pitch: Scale)
        requires
            old(self).well_formed(),
        ensures
            final(self).well_formed(),
            final(self)@ == old(self)@.with_voice(
                user_id,
                Voice { pitch: pitch, ..old(self)@.voice_of(user_id) },
            ),
    {
        let mut voice = self.voice(user_id);
        voice.pitch = pitch;
        self.voices.put(user_id, (), voice);
    }

    /// Sets the intonation of a user's voice.
    pub fn set_intonation(&mut self, user_id: u64, intonation: Scale)
        requires
            old(self).well_formed(),
        ensures
            final(self).well_formed(),
            final(self)@ == old(self)@.with_voice(
                user_id,
                Voice { intonation: intonation, ..old(self)@.voice_of(user_id) },
            ),
    {
        let mut voice = self.voice(user_id);
        voice.intonation = intonation;
        self.voices.put(user_id, (), voice);
    }

    /// Sets the reading of a spelling.
    pub fn add_dictionary_entry(&mut self, guild_id: u64, surface: &str, reading: &str)
        requires
            old(self).well_formed(),
        ensures
            final(self).well_formed(),
            final(self)@ == (DbModel {
                dictionary: old(self)@.dictionary.insert((guild_id, surface@), reading@),
                ..old(self)@
            }),
    {
        self.dictionary.put(guild_id, surface.to_owned(), reading.to_owned());
    }

    /// Forgets the reading of a spelling. Says whether there was one.
    pub fn remove_dictionary_entry(&mut self, guild_id: u64, surface: &str) -> (out: bool)
        requires
            old(self).well_formed(),
        ensures
            final(self).well_formed(),
            out == old(self)@.dictionary.contains_key((guild_id, surface@)),
            final(self)@ == (DbModel {
                dictionary: old(self)@.dictionary.remove((guild_id, surface@)),
                ..old(self)@
            }),
    {
        let key = surface.to_owned();
        self.dictionary.remove(guild_id, &key)
    }

    /// The spellings of a guild with their readings, in the order in which they are listed.
    pub closed spec fn dictionary_list(self, guild_id: u64) -> Seq<(Seq<char>, Seq<char>)> {
        self.dictionary.listing(guild_id)
    }

    /// The spellings of a guild with their readings.
    pub fn dictionary(&self, guild_id: u64) -> (out: Vec<(String, String)>)
        requires
            self.well_formed(),
        ensures
            table::pairs(out@) == self.dictionary_list(guild_id),
            table::lists(out@, table::of(self@.dictionary, guild_id)),
    {
        self.dictionary.list(guild_id)
    }

    /// Sets the address that a name stands for.
    pub fn add_playlist_entry(&mut self, guild_id: u64, name: &str, url: &str)
        requires
            old(self).well_formed(),
        ensures
            final(self).well_formed(),
            final(self)@ == (DbModel {
                playlist: old(self)@.playlist.insert((guild_id, name@), url@),
                ..old(self)@
            }),
    {
        self.playlist.put(guild_id, name.to_owned(), url.to_owned());
    }

    /// Forgets a name. Says whether it stood for anything.
    pub fn remove_playlist_entry(&mut self, guild_id: u64, name: &str) -> (out: bool)
        requires
            old(self).well_formed(),
        ensures
            final(self).well_formed(),
            out == old(self)@.playlist.contains_key((guild_id, name@)),
            final(self)@ == (DbModel {
                playlist: old(self)@.playlist.remove((guild_id, name@)),
                ..old(self)@
            }),
    {
        let key = name.to_owned();
        self.playlist.remove(guild_id, &key)
    }

    /// The names of a guild with the addresses, in the order in which they are listed.
    pub closed spec fn favourites(self, guild_id: u64) -> Seq<(Seq<char>, Seq<char>)> {
        self.playlist.listing(guild_id)
    }

    /// The names of a guild with the addresses that they stand for.
    pub fn playlist(&self, guild_id: u64) -> (out: Vec<(String, String)>)
        requires
            self.well_formed(),
        ensures
            table::pairs(out@) == self.favourites(guild_id),
            table::lists(out@, table::of(self@.playlist, guild_id)),
    {
        self.playlist.list(guild_id)
    }

    /// The address that a name stands for.
    pub fn playlist_url(&self, guild_id: u64, name: &str) -> (out: Option<String>)
        requires
            self.well_formed(),
        ensures
            out is Some <==> self@.playlist.contains_key((guild_id, name@)),
            match out {
                Some(url) => url@ == self@.playlist[(guild_id, name@)],
                None => true,
            },
    {
        let key = name.to_owned();
        self.playlist.get(guild_id, &key)
    }

    /// Counts characters of a user that were read on a day.
    pub fn record_speech_chars(&mut self, guild_id: u64, user_id: u64, day: i64, count: u64)
        requires
            old(self).well_formed(),
        ensures
            final(self).well_formed(),
            final(self)@ == (DbModel {
                speech: old(self)@.speech.insert(
                    (guild_id, user_id),
                    counted(old(self)@.spoken_by(guild_id, user_id), day, count),
                ),
                ..old(self)@
            }),
    {
        let row = match self.speech.get(guild_id, &user_id) {
            Some(row) => {
                let before: u64 = if row.day == day {
                    row.today
                } else {
                    0
                };
                Spoken {
                    day,
                    today: before.saturating_add(count),
                    total: row.total.saturating_add(count),
                }
            },
            None => Spoken { day, today: count, total: count },
        };
        self.speech.put(guild_id, user_id, row);
    }

    /// Takes up what was counted of a user elsewhere.
    pub fn restore_speech(&mut self, guild_id: u64, user_id: u64, spoken: Spoken)
        requires
            old(self).well_formed(),
        ensures
            final(self).well_formed(),
            final(self)@ == (DbModel {
                speech: old(self)@.speech.insert((guild_id, user_id), spoken),
                ..old(self)@
            }),
    {
        self.speech.put(guild_id, user_id, spoken);
    }

    /// The users of a guild with what was counted of them, in the order in which they are listed.
    pub closed spec fn speech_list(self, guild_id: u64) -> Seq<(u64, Spoken)> {
        self.speech.listing(guild_id)
    }

    /// How much of the users' texts was read in a guild, on a day and in all.
    pub fn speech_stats(&self, guild_id: u64, day: i64) -> (out: Vec<Reader>)
        requires
            self.well_formed(),
        ensures
            out@ == readers(self.speech_list(guild_id), day),
            table::lists(self.speech_list(guild_id), table::of(self@.speech, guild_id)),
    {
        let rows = self.speech.list(guild_id);
        assert(table::pairs(rows@) =~= rows@);
        let mut out: Vec<Reader> = Vec::new();
        let mut i: usize = 0;
        while i < rows.len()
            invariant
                i <= rows@.len(),
                out@ == readers(rows@, day).take(i as int),
            decreases rows@.len() - i,
        {
            let row: (u64, Spoken) = rows[i];
            let today: u64 = if row.1.day == day {
                row.1.today
            } else {
                0
            };
            out.push(Reader { user_id: row.0, today, total: row.1.total });
            i = i + 1;
            assert(readers(rows@, day).take(i as int) =~= readers(rows@, day).take(i - 1).push(
                readers(rows@, day)[i - 1],
            ));
        }
        assert(readers(rows@, day).take(i as int) =~= readers(rows@, day));
        out
    }

    /// Counts that a user had a track played.
    pub fn record_play(&mut self, guild_id: u64, user_id: u64, title: &str)
        requires
            old(self).well_formed(),
        ensures
            final(self).well_formed(),
            final(self)@ == (DbModel {
                tracks: old(self)@.tracks.insert(
                    (guild_id, title@),
                    one_more(old(self)@.tracks, (guild_id, title@)),
                ),
                listeners: old(self)@.listeners.insert(
                    (guild_id, user_id),
                    one_more(old(self)@.listeners, (guild_id, user_id)),
                ),
                ..old(self)@
            }),
    {
        let title = title.to_owned();
        let plays: u64 = match self.tracks.get(guild_id, &title) {
            Some(plays) => plays,
            None => 0,
        };
        self.tracks.put(guild_id, title, plays.saturating_add(1));
        let wishes: u64 = match self.listeners.get(guild_id, &user_id) {
            Some(wishes) => wishes,
            None => 0,
        };
        self.listeners.put(guild_id, user_id, wishes.saturating_add(1));
    }

    /// Takes up how often a track was played from elsewhere.
    pub fn restore_track(&mut self, guild_id: u64, title: String, plays: u64)
        requires
            old(self).well_formed(),
        ensures
            final(self).well_formed(),
            final(self)@ == (DbModel {
                tracks: old(self)@.tracks.insert((guild_id, title@), plays),
                ..old(self)@
            }),
    {
        self.tracks.put(guild_id, title, plays);
    }

    /// Takes up how often a user had something played from elsewhere.
    pub fn restore_listener(&mut self, guild_id: u64, user_id: u64, plays: u64)
        requires
            old(self).well_formed(),
        ensures
            final(self).well_formed(),
            final(self)@ == (DbModel {
                listeners: old(self)@.listeners.insert((guild_id, user_id), plays),
                ..old(self)@
            }),
    {
        self.listeners.put(guild_id, user_id, plays);
    }

    /// The tracks of a guild with how often they were played, in the order in which they are
    /// listed.
    pub closed spec fn track_list(self, guild_id: u64) -> Seq<(Seq<char>, u64)> {
        self.tracks.listing(guild_id)
    }

    /// The tracks of a guild with how often they were played, the most played first.
    pub fn music_stats_by_track(&self, guild_id: u64) -> (out: Vec<(String, u64)>)
        requires
            self.well_formed(),
        ensures
            table::pairs(out@) == rank::ranked(self.track_list(guild_id)),
            table::tells(self.track_list(guild_id), table::of(self@.tracks, guild_id)),
    {
        let rows = self.tracks.list(guild_id);
        proof {
            self.tracks.lemma_listing(guild_id);
            lemma_ranked_pairs(rows@);
        }
        rank::rank(rows)
    }

    /// The users of a guild with how often they had something played, in the order in which they
    /// are listed.
    pub closed spec fn listener_list(self, guild_id: u64) -> Seq<(u64, u64)> {
        self.listeners.listing(guild_id)
    }

    /// The users of a guild with how often they had something played, the most eager first.
    pub fn music_stats_by_user(&self, guild_id: u64) -> (out: Vec<(u64, u64)>)
        requires
            self.well_formed(),
        ensures
            out@ == rank::ranked(self.listener_list(guild_id)),
            table::lists(self.listener_list(guild_id), table::of(self@.listeners, guild_id)),
    {
        let rows = self.listeners.list(guild_id);
        assert(table::pairs(rows@) =~= rows@);
        rank::rank(rows)
    }
}

/// Every list that is made of what the bot remembers of a guild holds exactly that, each channel,
/// spelling, name, user or title once. Only the order is left to the list.
pub proof fn the_lists_tell_all(db: Db, guild_id: u64)
    requires
        db.well_formed(),
    ensures
        db.channel_list(guild_id).no_duplicates(),
        forall|channel_id: u64| #[trigger]
            db.channel_list(guild_id).contains(channel_id) <==> db@.read_channels.contains_key(
                (guild_id, channel_id),
            ),
        table::tells(db.binding_list(guild_id), table::of(db@.bindings, guild_id)),
        table::tells(db.dictionary_list(guild_id), table::of(db@.dictionary, guild_id)),
        table::tells(db.favourites(guild_id), table::of(db@.playlist, guild_id)),
        table::tells(db.speech_list(guild_id), table::of(db@.speech, guild_id)),
        table::tells(db.track_list(guild_id), table::of(db@.tracks, guild_id)),
        table::tells(db.listener_list(guild_id), table::of(db@.listeners, guild_id)),
{
    db.read_channels.lemma_listing(guild_id);
    db.bindings.lemma_listing(guild_id);
    db.dictionary.lemma_listing(guild_id);
    db.playlist.lemma_listing(guild_id);
    db.speech.lemma_listing(guild_id);
    db.tracks.lemma_listing(guild_id);
    db.listeners.lemma_listing(guild_id);
    let rows = db.read_channels.listing(guild_id);
    let said = table::of(db@.read_channels, guild_id);
    let channels = db.channel_list(guild_id);
    assert forall|i: int, j: int| 0 <= i < channels.len() && 0 <= j < channels.len() && i != j implies
        channels[i] != channels[j] by {
        assert(channels[i] == rows[i].0 && channels[j] == rows[j].0);
    }
    assert forall|channel_id: u64| #[trigger]
        channels.contains(channel_id) <==> db@.read_channels.contains_key(
            (guild_id, channel_id),
        ) by {
        if channels.contains(channel_id) {
            let i = choose|i: int| 0 <= i < channels.len() && channels[i] == channel_id;
            assert(said.contains_key(rows[i].0));
        }
        if db@.read_channels.contains_key((guild_id, channel_id)) {
            assert(said.contains_key(channel_id));
            let i = choose|i: int| 0 <= i < rows.len() && (#[trigger] rows[i]).0 == channel_id;
            assert(channels[i] == channel_id);
        }
    }
}

/// The text channels that are bound to a voice channel are exactly those of which the bot remembers
/// that they are.
pub proof fn the_bound_channels_are_told(db: Db, guild_id: u64, voice_channel_id: u64)
    requires
        db.well_formed(),
    ensures
        forall|text_channel_id: u64| #[trigger]
            bound_to(db.binding_list(guild_id), voice_channel_id).contains(text_channel_id)
                <==> db@.bindings.contains_pair((guild_id, text_channel_id), voice_channel_id),
{
    the_lists_tell_all(db, guild_id);
    let rows = db.binding_list(guild_id);
    let said = table::of(db@.bindings, guild_id);
    assert forall|text_channel_id: u64| #[trigger]
        bound_to(rows, voice_channel_id).contains(text_channel_id)
            <==> db@.bindings.contains_pair((guild_id, text_channel_id), voice_channel_id) by {
        lemma_bound_to(rows, voice_channel_id, text_channel_id);
        if bound_to(rows, voice_channel_id).contains(text_channel_id) {
            let j = choose|j: int|
                0 <= j < rows.len() && #[trigger] rows[j] == (text_channel_id, voice_channel_id);
            assert(said.contains_key(rows[j].0));
        }
        if db@.bindings.contains_pair((guild_id, text_channel_id), voice_channel_id) {
            assert(said.contains_key(text_channel_id));
            let j = choose|j: int|
                0 <= j < rows.len() && (#[trigger] rows[j]).0 == text_channel_id;
            assert(rows[j] == (text_channel_id, voice_channel_id));
        }
    }
}

} // verus!
