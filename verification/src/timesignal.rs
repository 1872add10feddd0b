//! The time signal: once a minute every connected guild is looked at, and where its interval falls
//! on that minute the time is read aloud. The clock is that of Japan.

use std::collections::HashMap;

use vstd::prelude::*;

use crate::chars;
use crate::scale;
use crate::scale::Scale;
use crate::speech;
use crate::speech::SpeechTask;
use crate::voicevox;
use crate::voicevox::StyleId;
use crate::voicevox::Voice;

verus! {

/// How many seconds the clock of Japan is ahead of UTC.
pub const JST_OFFSET_SECS: i64 = 32_400;

/// How many seconds lie between two looks at the clock.
pub const TICK_SECS: u64 = 60;

/// The second of the day in Japan, of a moment in seconds since the start of 1970 in UTC.
pub open spec fn second_of_day(unix_secs: int) -> int {
    (unix_secs + JST_OFFSET_SECS) % 86_400
}

/// The hour and minute in Japan.
pub open spec fn clock_of(unix_secs: int) -> (int, int) {
    (second_of_day(unix_secs) / 3600, second_of_day(unix_secs) % 3600 / 60)
}

/// The second of the day in Japan.
fn day_second(unix_secs: i64) -> (out: i64)
    requires
        unix_secs + JST_OFFSET_SECS <= i64::MAX,
    ensures
        out == second_of_day(unix_secs as int),
        0 <= out < 86_400,
{
    let shifted: i64 = unix_secs + JST_OFFSET_SECS;
    if shifted >= 0 {
        shifted % 86_400
    } else {
        let behind: i64 = -(shifted + 1);
        proof {
            let b = behind as int;
            let q = b / 86_400;
            let r = b % 86_400;
            assert(b == 86_400 * q + r);
            assert(shifted as int == 86_400 * (-q - 1) + (86_399 - r));
            vstd::arithmetic::div_mod::lemma_fundamental_div_mod_converse(
                shifted as int,
                86_400,
                -q - 1,
                86_399 - r,
            );
        }
        86_399 - behind % 86_400
    }
}

/// The hour and minute in Japan, of a moment in seconds since the start of 1970 in UTC.
pub fn jst_hour_minute(unix_secs: i64) -> (out: (u32, u32))
    requires
        unix_secs + JST_OFFSET_SECS <= i64::MAX,
    ensures
        out.0 == clock_of(unix_secs as int).0,
        out.1 == clock_of(unix_secs as int).1,
        out.0 < 24,
        out.1 < 60,
{
    let second: i64 = day_second(unix_secs);
    ((second / 3600) as u32, (second % 3600 / 60) as u32)
}

/// The number of days in Japan since the start of 1970 there.
pub open spec fn day_of(unix_secs: int) -> int {
    (unix_secs + JST_OFFSET_SECS) / 86_400
}

/// The number of days in Japan since the start of 1970 there.
pub fn jst_day(unix_secs: i64) -> (out: i64)
    requires
        unix_secs + JST_OFFSET_SECS <= i64::MAX,
    ensures
        out == day_of(unix_secs as int),
{
    let shifted: i64 = unix_secs + JST_OFFSET_SECS;
    if shifted >= 0 {
        shifted / 86_400
    } else {
        let days: i64 = -(shifted + 1) / 86_400;
        proof {
            let b = -(shifted + 1);
            let q = b / 86_400;
            let r = b % 86_400;
            assert(b == 86_400 * q + r);
            assert(shifted as int == 86_400 * (-q - 1) + (86_399 - r));
            vstd::arithmetic::div_mod::lemma_fundamental_div_mod_converse(
                shifted as int,
                86_400,
                -q - 1,
                86_399 - r,
            );
        }
        -days - 1
    }
}

/// Whether the time is read at a minute of the hour when it is read every so many minutes.
pub open spec fn falls_on(minute: nat, interval_minutes: nat) -> bool {
    interval_minutes > 0 && minute % interval_minutes == 0
}

/// Whether the time is read at a minute of the hour when it is read every so many minutes.
pub fn is_boundary(minute: u32, interval_minutes: u32) -> (out: bool)
    ensures
        out == falls_on(minute as nat, interval_minutes as nat),
{
    interval_minutes > 0 && minute % interval_minutes == 0
}

/// What is read aloud: the hour, and the minute unless it is a full hour.
pub open spec fn spoken(hour: nat, minute: nat) -> Seq<char> {
    if minute == 0 {
        "ただいま"@ + chars::decimal(hour) + "時です"@
    } else {
        "ただいま"@ + chars::decimal(hour) + "時"@ + chars::decimal(minute) + "分です"@
    }
}

/// What is read aloud.
pub fn announcement(hour: u32, minute: u32) -> (out: String)
    ensures
        out@ == spoken(hour as nat, minute as nat),
{
    let hour = chars::decimal_text(hour as u64);
    if minute == 0 {
        "ただいま".to_owned().concat(hour.as_str()).concat("時です")
    } else {
        let minute = chars::decimal_text(minute as u64);
        "ただいま".to_owned().concat(hour.as_str()).concat("時").concat(minute.as_str()).concat(
            "分です",
        )
    }
}

/// How a guild wants the time read.
#[derive(Debug, Clone, Copy, PartialEq, Eq, Structural)]
pub struct Wish {
    pub enabled: bool,
    pub interval_minutes: u32,
    pub style: u32,
}

/// A guild that the bot is connected to, with its wish as far as it could be read.
#[derive(Debug, Clone, Copy, PartialEq, Eq, Structural)]
pub struct Connected {
    pub guild_id: u64,
    pub wish: Option<Wish>,
}

/// What is read aloud in a guild.
#[derive(Debug)]
pub struct Call {
    pub guild_id: u64,
    pub task: SpeechTask,
}

/// The mathematical counterpart of [`Call`].
pub struct CallModel {
    pub guild_id: u64,
    pub task: speech::TaskModel,
}

impl View for Call {
    type V = CallModel;

    open spec fn view(&self) -> CallModel {
        CallModel { guild_id: self.guild_id, task: self.task@ }
    }
}

/// Whether the time is read in a guild: it wants it at this minute and has not heard it yet.
pub open spec fn is_due(last: Map<u64, (u32, u32)>, now: (u32, u32), guild: Connected) -> bool {
    &&& !(last.contains_key(guild.guild_id) && last[guild.guild_id] == now)
    &&& match guild.wish {
        Some(wish) => wish.enabled && falls_on(now.1 as nat, wish.interval_minutes as nat),
        None => false,
    }
}

/// What is read in a guild that is due: the time, in the guild's style and otherwise plainly.
pub open spec fn call_for(now: (u32, u32), guild: Connected) -> CallModel {
    CallModel {
        guild_id: guild.guild_id,
        task: speech::TaskModel {
            text: spoken(now.0 as nat, now.1 as nat),
            voice: Voice {
                style: StyleId(guild.wish->0.style),
                ..voicevox::default_voice()
            },
            file: None,
            origin: None,
        },
    }
}

/// The guilds that are connected.
pub open spec fn ids(guilds: Seq<Connected>) -> Set<u64> {
    guilds.map_values(|guild: Connected| guild.guild_id).to_set()
}

/// What is remembered, and what is read aloud, after the guilds were looked at one after the other.
pub open spec fn rung(
    last: Map<u64, (u32, u32)>,
    now: (u32, u32),
    guilds: Seq<Connected>,
) -> (Map<u64, (u32, u32)>, Seq<CallModel>)
    decreases guilds.len(),
{
    if guilds.len() == 0 {
        (last, Seq::empty())
    } else {
        let (before, calls) = rung(last, now, guilds.drop_last());
        let guild = guilds.last();
        if is_due(before, now, guild) {
            (before.insert(guild.guild_id, now), calls.push(call_for(now, guild)))
        } else {
            (before, calls)
        }
    }
}

/// When each guild last heard the time.
#[derive(Debug)]
pub struct TimeSignal {
    last: HashMap<u64, (u32, u32)>,
}

impl View for TimeSignal {
    type V = Map<u64, (u32, u32)>;

    closed spec fn view(&self) -> Map<u64, (u32, u32)> {
        self.last@
    }
}

/// The mathematical counterparts of calls.
pub open spec fn call_views(calls: Seq<Call>) -> Seq<CallModel> {
    calls.map_values(|call: Call| call@)
}

impl TimeSignal {
    /// No guild has heard the time.
    pub fn new() -> (out: TimeSignal)
        ensures
            out@ == Map::<u64, (u32, u32)>::empty(),
    {
        broadcast use vstd::std_specs::hash::group_hash_axioms;

        TimeSignal { last: HashMap::new() }
    }

    /// Forgets the guilds that are not connected any more.
    fn keep(&mut self, guilds: &[Connected])
        ensures
            final(self)@ == old(self)@.restrict(ids(guilds@)),
    {
        broadcast use vstd::std_specs::hash::group_hash_axioms;

        let mut kept: HashMap<u64, (u32, u32)> = HashMap::new();
        let ghost before = self@;
        assert(kept@ =~= before.restrict(ids(guilds@.take(0))));
        let mut i: usize = 0;
        while i < guilds.len()
            invariant
                i <= guilds@.len(),
                self@ == before,
                kept@ == before.restrict(ids(guilds@.take(i as int))),
            decreases guilds@.len() - i,
        {
            broadcast use vstd::std_specs::hash::group_hash_axioms;

            let guild_id: u64 = guilds[i].guild_id;
            let ghost chosen = kept@;
            if let Some(heard) = self.last.get(&guild_id) {
                let heard: (u32, u32) = *heard;
                kept.insert(guild_id, heard);
            }
            proof {
                lemma_ids(guilds@, i as int);
                assert(kept@ =~= before.restrict(ids(guilds@.take(i + 1))));
            }
            i = i + 1;
        }
        assert(guilds@.take(i as int) == guilds@);
        self.last = kept;
    }

    /// Looks at the clock and at the connected guilds. Says what is read aloud where.
    pub fn tick(&mut self, unix_secs: i64, guilds: &[Connected]) -> (out: Vec<Call>)
        requires
            unix_secs + JST_OFFSET_SECS <= i64::MAX,
        ensures
            ({
                let now = (
                    clock_of(unix_secs as int).0 as u32,
                    clock_of(unix_secs as int).1 as u32,
                );
                let done = rung(old(self)@.restrict(ids(guilds@)), now, guilds@);
                final(self)@ == done.0 && call_views(out@) == done.1
            }),
    {
        broadcast use vstd::std_specs::hash::group_hash_axioms;

        let now: (u32, u32) = jst_hour_minute(unix_secs);
        self.keep(guilds);
        let ghost start = self@;
        let mut out: Vec<Call> = Vec::new();
        let mut i: usize = 0;
        assert(call_views(out@) =~= Seq::<CallModel>::empty());
        while i < guilds.len()
            invariant
                i <= guilds@.len(),
                self@ == rung(start, now, guilds@.take(i as int)).0,
                call_views(out@) == rung(start, now, guilds@.take(i as int)).1,
            decreases guilds@.len() - i,
        {
            broadcast use vstd::std_specs::hash::group_hash_axioms;

            let guild: Connected = guilds[i];
            proof {
                assert(guilds@.take(i + 1).drop_last() == guilds@.take(i as int));
            }
            i = i + 1;
            let ghost before = self@;
            let heard = match self.last.get(&guild.guild_id) {
                Some(heard) => heard.0 == now.0 && heard.1 == now.1,
                None => false,
            };
            let wish: Wish = match guild.wish {
                Some(wish) => wish,
                None => continue ,
            };
            if heard || !wish.enabled || !is_boundary(now.1, wish.interval_minutes) {
                continue ;
            }
            assert(is_due(before, now, guild));
            self.last.insert(guild.guild_id, now);
            let task = SpeechTask {
                text: announcement(now.0, now.1),
                voice: Voice {
                    style: StyleId(wish.style),
                    speed: Scale { bits: scale::ONE },
                    pitch: Scale { bits: scale::ZERO },
                    intonation: Scale { bits: scale::ONE },
                },
                file: None,
                origin: None,
            };
            let call = Call { guild_id: guild.guild_id, task };
            let ghost calls = out@;
            out.push(call);
            assert(call_views(out@) =~= call_views(calls).push(call@));
        }
        assert(guilds@.take(i as int) == guilds@);
        out
    }
}

/// One more guild is one more identifier.
proof fn lemma_ids(guilds: Seq<Connected>, i: int)
    requires
        0 <= i < guilds.len(),
    ensures
        ids(guilds.take(i + 1)) == ids(guilds.take(i)).insert(guilds[i].guild_id),
{
    let id = |guild: Connected| guild.guild_id;
    let a = guilds.take(i).map_values(id);
    let b = guilds.take(i + 1).map_values(id);
    assert(b == a.push(guilds[i].guild_id));
    assert forall|u: u64| #[trigger] b.contains(u) <==> a.contains(u) || u == guilds[i].guild_id by {
        if a.contains(u) {
            let k = choose|k: int| 0 <= k < a.len() && a[k] == u;
            assert(b[k] == u);
        }
        if u == guilds[i].guild_id {
            assert(b[i] == u);
        }
        if b.contains(u) && u != guilds[i].guild_id {
            let k = choose|k: int| 0 <= k < b.len() && b[k] == u;
            assert(a[k] == u);
        }
    }
    assert(b.to_set() =~= a.to_set().insert(guilds[i].guild_id));
}

/// A guild that has heard the time is remembered, and does not hear it again at the same minute.
proof fn lemma_heard(
    last: Map<u64, (u32, u32)>,
    now: (u32, u32),
    guilds: Seq<Connected>,
    guild_id: u64,
)
    requires
        last.contains_key(guild_id),
        last[guild_id] == now,
    ensures
        rung(last, now, guilds).0.contains_key(guild_id),
        rung(last, now, guilds).0[guild_id] == now,
        forall|i: int|
            0 <= i < rung(last, now, guilds).1.len() ==> (#[trigger] rung(
                last,
                now,
                guilds,
            ).1[i]).guild_id != guild_id,
    decreases guilds.len(),
{
    if guilds.len() > 0 {
        lemma_heard(last, now, guilds.drop_last(), guild_id);
        let (before, calls) = rung(last, now, guilds.drop_last());
        if is_due(before, now, guilds.last()) {
            let all = rung(last, now, guilds).1;
            assert forall|i: int| 0 <= i < all.len() implies (#[trigger] all[i]).guild_id
                != guild_id by {
                if i < calls.len() {
                    assert(all[i] == calls[i]);
                }
            }
        }
    }
}

/// Whoever hears the time is remembered as having heard it.
proof fn lemma_remembered(
    last: Map<u64, (u32, u32)>,
    now: (u32, u32),
    guilds: Seq<Connected>,
    i: int,
)
    requires
        0 <= i < rung(last, now, guilds).1.len(),
    ensures
        ({
            let (after, calls) = rung(last, now, guilds);
            after.contains_key(calls[i].guild_id) && after[calls[i].guild_id] == now
        }),
    decreases guilds.len(),
{
    let (before, calls) = rung(last, now, guilds.drop_last());
    if i < calls.len() {
        lemma_remembered(last, now, guilds.drop_last(), i);
        assert(rung(last, now, guilds).1[i] == calls[i]);
    }
}

/// A guild that heard the time does not hear it again when the clock is looked at once more within
/// the same minute, whichever guilds are connected then, itself among them.
pub proof fn the_time_is_read_once(
    last: Map<u64, (u32, u32)>,
    now: (u32, u32),
    first: Seq<Connected>,
    second: Seq<Connected>,
    i: int,
    j: int,
)
    requires
        0 <= i < rung(last.restrict(ids(first)), now, first).1.len(),
        0 <= j < rung(
            rung(last.restrict(ids(first)), now, first).0.restrict(ids(second)),
            now,
            second,
        ).1.len(),
        ids(second).contains(rung(last.restrict(ids(first)), now, first).1[i].guild_id),
    ensures
        rung(last.restrict(ids(first)), now, first).1[i].guild_id != rung(
            rung(last.restrict(ids(first)), now, first).0.restrict(ids(second)),
            now,
            second,
        ).1[j].guild_id,
{
    let (after, calls) = rung(last.restrict(ids(first)), now, first);
    lemma_remembered(last.restrict(ids(first)), now, first, i);
    lemma_heard(after.restrict(ids(second)), now, second, calls[i].guild_id);
}

/// A look at the guilds only ever changes what is remembered of a guild to the present time, and does
/// so exactly for those that are called.
proof fn lemma_rung_memory(
    last: Map<u64, (u32, u32)>,
    now: (u32, u32),
    guilds: Seq<Connected>,
    guild_id: u64,
)
    ensures
        ({
            let (after, calls) = rung(last, now, guilds);
            let called = exists|k: int|
                0 <= k < calls.len() && (#[trigger] calls[k]).guild_id == guild_id;
            &&& called ==> after.contains_key(guild_id) && after[guild_id] == now
            &&& called ==> !(last.contains_key(guild_id) && last[guild_id] == now)
            &&& !called ==> after.contains_key(guild_id) == last.contains_key(guild_id)
            &&& !called && last.contains_key(guild_id) ==> after[guild_id] == last[guild_id]
        }),
    decreases guilds.len(),
{
    if guilds.len() > 0 {
        let rest = guilds.drop_last();
        lemma_rung_memory(last, now, rest, guild_id);
        let (before, calls) = rung(last, now, rest);
        let (after, all) = rung(last, now, guilds);
        let had = exists|k: int|
            0 <= k < calls.len() && (#[trigger] calls[k]).guild_id == guild_id;
        let has = exists|k: int| 0 <= k < all.len() && (#[trigger] all[k]).guild_id == guild_id;
        if had {
            let k = choose|k: int|
                0 <= k < calls.len() && (#[trigger] calls[k]).guild_id == guild_id;
            assert(all[k] == calls[k]);
        }
        if is_due(before, now, guilds.last()) {
            assert(all[calls.len() as int] == call_for(now, guilds.last()));
            if has && guilds.last().guild_id != guild_id {
                let k = choose|k: int|
                    0 <= k < all.len() && (#[trigger] all[k]).guild_id == guild_id;
                assert(calls[k] == all[k]);
            }
        }
    }
}

/// Whoever is due is called, at the latest when the look comes to it.
proof fn lemma_rung_complete(
    last: Map<u64, (u32, u32)>,
    now: (u32, u32),
    guilds: Seq<Connected>,
    i: int,
)
    requires
        0 <= i < guilds.len(),
        is_due(last, now, guilds[i]),
    ensures
        exists|k: int|
            0 <= k < rung(last, now, guilds).1.len() && (#[trigger] rung(
                last,
                now,
                guilds,
            ).1[k]).guild_id == guilds[i].guild_id,
    decreases guilds.len(),
{
    let rest = guilds.drop_last();
    let id = guilds[i].guild_id;
    let (before, calls) = rung(last, now, rest);
    let all = rung(last, now, guilds).1;
    if i < rest.len() {
        assert(rest[i] == guilds[i]);
        lemma_rung_complete(last, now, rest, i);
        let k = choose|k: int| 0 <= k < calls.len() && (#[trigger] calls[k]).guild_id == id;
        assert(all[k] == calls[k]);
    } else {
        lemma_rung_memory(last, now, rest, id);
        if exists|k: int| 0 <= k < calls.len() && (#[trigger] calls[k]).guild_id == id {
            let k = choose|k: int| 0 <= k < calls.len() && (#[trigger] calls[k]).guild_id == id;
            assert(all[k] == calls[k]);
        } else {
            assert(is_due(before, now, guilds.last()));
            assert(all[calls.len() as int] == call_for(now, guilds.last()));
        }
    }
}

/// Whoever is called was due, and is called once.
proof fn lemma_rung_sound(
    last: Map<u64, (u32, u32)>,
    now: (u32, u32),
    guilds: Seq<Connected>,
    k: int,
)
    requires
        0 <= k < rung(last, now, guilds).1.len(),
    ensures
        exists|i: int|
            0 <= i < guilds.len() && is_due(last, now, #[trigger] guilds[i]) && rung(
                last,
                now,
                guilds,
            ).1[k] == call_for(now, guilds[i]),
        forall|l: int|
            0 <= l < rung(last, now, guilds).1.len() && l != k ==> (#[trigger] rung(
                last,
                now,
                guilds,
            ).1[l]).guild_id != rung(last, now, guilds).1[k].guild_id,
    decreases guilds.len(),
{
    let rest = guilds.drop_last();
    let guild = guilds.last();
    let (before, calls) = rung(last, now, rest);
    let all = rung(last, now, guilds).1;
    assert(guilds[guilds.len() - 1] == guild);
    lemma_rung_memory(last, now, rest, guild.guild_id);
    if k < calls.len() {
        lemma_rung_sound(last, now, rest, k);
        assert(all[k] == calls[k]);
        let i = choose|i: int|
            0 <= i < rest.len() && is_due(last, now, #[trigger] rest[i]) && calls[k] == call_for(
                now,
                rest[i],
            );
        assert(guilds[i] == rest[i]);
        assert forall|l: int| 0 <= l < all.len() && l != k implies (#[trigger] all[l]).guild_id
            != all[k].guild_id by {
            if l < calls.len() {
                assert(all[l] == calls[l]);
            } else if all[l].guild_id == all[k].guild_id {
                assert(calls[k].guild_id == guild.guild_id);
            }
        }
    } else {
        assert(is_due(before, now, guild));
        if exists|l: int|
            0 <= l < calls.len() && (#[trigger] calls[l]).guild_id == guild.guild_id {
        } else {
            assert(is_due(last, now, guilds[guilds.len() - 1]));
        }
        assert forall|l: int| 0 <= l < all.len() && l != k implies (#[trigger] all[l]).guild_id
            != all[k].guild_id by {
            assert(all[l] == calls[l]);
        }
    }
}

/// A connected guild is among the connected guilds.
proof fn lemma_among(guilds: Seq<Connected>, guild_id: u64)
    ensures
        ids(guilds).contains(guild_id) <==> exists|i: int|
            0 <= i < guilds.len() && (#[trigger] guilds[i]).guild_id == guild_id,
{
    let all = guilds.map_values(|guild: Connected| guild.guild_id);
    if ids(guilds).contains(guild_id) {
        let i = choose|i: int| 0 <= i < all.len() && all[i] == guild_id;
        assert(guilds[i].guild_id == guild_id);
    }
    if exists|i: int| 0 <= i < guilds.len() && (#[trigger] guilds[i]).guild_id == guild_id {
        let i = choose|i: int| 0 <= i < guilds.len() && (#[trigger] guilds[i]).guild_id == guild_id;
        assert(all[i] == guild_id);
    }
}

/// Every connected guild that has the time signal on, with an interval that divides the minute, hears
/// the time, unless what it heard last was this very hour and minute.
pub proof fn whoever_wants_the_time_hears_it(
    last: Map<u64, (u32, u32)>,
    now: (u32, u32),
    guilds: Seq<Connected>,
    i: int,
)
    requires
        0 <= i < guilds.len(),
        guilds[i].wish is Some,
        guilds[i].wish->0.enabled,
        guilds[i].wish->0.interval_minutes > 0,
        now.1 % guilds[i].wish->0.interval_minutes == 0,
        last.contains_key(guilds[i].guild_id) ==> last[guilds[i].guild_id].0 != now.0
            || last[guilds[i].guild_id].1 != now.1,
    ensures
        ({
            let (after, calls) = rung(last.restrict(ids(guilds)), now, guilds);
            &&& exists|k: int|
                0 <= k < calls.len() && (#[trigger] calls[k]).guild_id == guilds[i].guild_id
                    && calls[k].task.text == spoken(now.0 as nat, now.1 as nat)
            &&& after.contains_key(guilds[i].guild_id)
            &&& after[guilds[i].guild_id] == now
        }),
{
    let start = last.restrict(ids(guilds));
    let (after, calls) = rung(start, now, guilds);
    assert(is_due(start, now, guilds[i]));
    lemma_rung_complete(start, now, guilds, i);
    lemma_rung_memory(start, now, guilds, guilds[i].guild_id);
    let k = choose|k: int|
        0 <= k < calls.len() && (#[trigger] calls[k]).guild_id == guilds[i].guild_id;
    lemma_rung_sound(start, now, guilds, k);
}

/// A guild that heard the time hears it again at any other hour or minute that its interval divides,
/// such as the half hour after the full one.
pub proof fn the_time_is_read_at_every_boundary(
    last: Map<u64, (u32, u32)>,
    first: (u32, u32),
    guilds: Seq<Connected>,
    k: int,
    second: (u32, u32),
    then: Seq<Connected>,
    i: int,
)
    requires
        0 <= k < rung(last.restrict(ids(guilds)), first, guilds).1.len(),
        0 <= i < then.len(),
        then[i].guild_id == rung(last.restrict(ids(guilds)), first, guilds).1[k].guild_id,
        then[i].wish is Some,
        then[i].wish->0.enabled,
        then[i].wish->0.interval_minutes > 0,
        second.1 % then[i].wish->0.interval_minutes == 0,
        second.0 != first.0 || second.1 != first.1,
    ensures
        ({
            let heard = rung(last.restrict(ids(guilds)), first, guilds).0;
            let calls = rung(heard.restrict(ids(then)), second, then).1;
            exists|l: int|
                0 <= l < calls.len() && (#[trigger] calls[l]).guild_id == then[i].guild_id
                    && calls[l].task.text == spoken(second.0 as nat, second.1 as nat)
        }),
{
    let heard = rung(last.restrict(ids(guilds)), first, guilds).0;
    lemma_remembered(last.restrict(ids(guilds)), first, guilds, k);
    whoever_wants_the_time_hears_it(heard, second, then, i);
}

/// Whoever hears the time is connected, has the time signal on with an interval that divides the
/// minute, and had not heard this hour and minute. The present time is read, in the guild's style and
/// otherwise plainly, and to no guild twice.
pub proof fn nobody_else_hears_the_time(
    last: Map<u64, (u32, u32)>,
    now: (u32, u32),
    guilds: Seq<Connected>,
    k: int,
)
    requires
        0 <= k < rung(last.restrict(ids(guilds)), now, guilds).1.len(),
    ensures
        ({
            let calls = rung(last.restrict(ids(guilds)), now, guilds).1;
            let call = calls[k];
            &&& exists|i: int|
                {
                    &&& 0 <= i < guilds.len()
                    &&& (#[trigger] guilds[i]).guild_id == call.guild_id
                    &&& guilds[i].wish is Some
                    &&& guilds[i].wish->0.enabled
                    &&& guilds[i].wish->0.interval_minutes > 0
                    &&& now.1 % guilds[i].wish->0.interval_minutes == 0
                    &&& call.task.voice.style.0 == guilds[i].wish->0.style
                }
            &&& last.contains_key(call.guild_id) ==> last[call.guild_id] != now
            &&& call.task.text == spoken(now.0 as nat, now.1 as nat)
            &&& call.task.voice.speed == voicevox::default_voice().speed
            &&& call.task.voice.pitch == voicevox::default_voice().pitch
            &&& call.task.voice.intonation == voicevox::default_voice().intonation
            &&& call.task.file is None
            &&& call.task.origin is None
            &&& forall|l: int|
                0 <= l < calls.len() && l != k ==> (#[trigger] calls[l]).guild_id != call.guild_id
        }),
{
    let start = last.restrict(ids(guilds));
    let calls = rung(start, now, guilds).1;
    lemma_rung_sound(start, now, guilds, k);
    let i = choose|i: int|
        0 <= i < guilds.len() && is_due(start, now, #[trigger] guilds[i]) && calls[k] == call_for(
            now,
            guilds[i],
        );
    assert(guilds[i].guild_id == calls[k].guild_id);
    lemma_among(guilds, calls[k].guild_id);
}

/// What is remembered of a guild that does not hear the time stays as it was while it is connected,
/// and is forgotten when it is not.
pub proof fn silence_changes_no_memory(
    last: Map<u64, (u32, u32)>,
    now: (u32, u32),
    guilds: Seq<Connected>,
    guild_id: u64,
)
    requires
        forall|k: int|
            0 <= k < rung(last.restrict(ids(guilds)), now, guilds).1.len() ==> (#[trigger] rung(
                last.restrict(ids(guilds)),
                now,
                guilds,
            ).1[k]).guild_id != guild_id,
    ensures
        ({
            let after = rung(last.restrict(ids(guilds)), now, guilds).0;
            let connected = exists|i: int|
                0 <= i < guilds.len() && (#[trigger] guilds[i]).guild_id == guild_id;
            &&& after.contains_key(guild_id) <==> connected && last.contains_key(guild_id)
            &&& connected && last.contains_key(guild_id) ==> after[guild_id] == last[guild_id]
        }),
{
    lemma_rung_memory(last.restrict(ids(guilds)), now, guilds, guild_id);
    lemma_among(guilds, guild_id);
}

/// The clock shows the hour and the minute of the day that it is, nine hours ahead of UTC, and the
/// days are counted from midnight to midnight there.
pub proof fn the_clock_is_nine_hours_ahead(day: int, hour: int, minute: int, second: int)
    requires
        0 <= hour < 24,
        0 <= minute < 60,
        0 <= second < 60,
    ensures
        clock_of(day * 86_400 + hour * 3600 + minute * 60 + second - 9 * 3600) == (hour, minute),
        day_of(day * 86_400 + hour * 3600 + minute * 60 + second - 9 * 3600) == day,
{
    let of_day = hour * 3600 + minute * 60 + second;
    let shifted = day * 86_400 + of_day;
    assert(0 <= of_day < 86_400);
    vstd::arithmetic::div_mod::lemma_fundamental_div_mod_converse(shifted, 86_400, day, of_day);
    vstd::arithmetic::div_mod::lemma_fundamental_div_mod_converse(
        of_day,
        3600,
        hour,
        minute * 60 + second,
    );
    vstd::arithmetic::div_mod::lemma_fundamental_div_mod_converse(
        minute * 60 + second,
        60,
        minute,
        second,
    );
}

/// The hour that is read aloud is the hour, and the minute is the minute, which is left out at full
/// hours: different times are read differently.
pub proof fn the_time_that_is_read_is_the_time(hour: nat, minute: nat)
    requires
        minute > 0,
    ensures
        ({
            let head = "ただいま"@;
            let hours = chars::decimal(hour);
            let full = spoken(hour, 0);
            let other = spoken(hour, minute);
            &&& full == head + hours + "時です"@
            &&& chars::begins(other, head + hours + "時"@)
            &&& other.skip((head + hours + "時"@).len() as int) == chars::decimal(minute) + "分です"@
            &&& chars::number(hours) == hour
            &&& chars::number(chars::decimal(minute)) == minute
        }),
{
    chars::lemma_decimal_digits(hour);
    chars::lemma_decimal_digits(minute);
    let start = "ただいま"@ + chars::decimal(hour) + "時"@;
    let other = spoken(hour, minute);
    assert(other.subrange(0, start.len() as int) =~= start);
    assert(other.skip(start.len() as int) =~= chars::decimal(minute) + "分です"@);
}

/// The time is read every so many minutes, beginning with the full hour: at every multiple of the
/// interval and at no other minute, and never without an interval.
pub proof fn the_interval_starts_at_the_full_hour(interval: nat, times: nat, off: nat)
    requires
        0 < off < interval,
    ensures
        falls_on(times * interval, interval),
        !falls_on(times * interval + off, interval),
        !falls_on(times, 0),
{
    vstd::arithmetic::div_mod::lemma_fundamental_div_mod_converse(
        (times * interval) as int,
        interval as int,
        times as int,
        0,
    );
    vstd::arithmetic::div_mod::lemma_fundamental_div_mod_converse(
        (times * interval + off) as int,
        interval as int,
        times as int,
        off as int,
    );
}

} // verus!
