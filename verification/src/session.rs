//! How long the bot has been in a voice channel.

use std::collections::HashMap;
use std::time::Duration;

use vstd::prelude::*;

use crate::chars;
use crate::clock;

verus! {

/// When the bot went to a voice channel, by guild. Times are lengths of time since a moment that
/// is the same for all of them.
#[derive(Debug)]
pub struct JoinTimes {
    joined: HashMap<u64, Duration>,
}

impl View for JoinTimes {
    type V = Map<u64, Duration>;

    closed spec fn view(&self) -> Map<u64, Duration> {
        self.joined@
    }
}

impl Default for JoinTimes {
    fn default() -> (out: JoinTimes)
        ensures
            out@ == Map::<u64, Duration>::empty(),
    {
        broadcast use vstd::std_specs::hash::group_hash_axioms;

        JoinTimes { joined: HashMap::new() }
    }
}

/// How much later one time is than another, nothing if it is not later.
pub open spec fn since(earlier: nat, later: nat) -> nat {
    if later >= earlier {
        (later - earlier) as nat
    } else {
        0
    }
}

impl JoinTimes {
    /// Takes note that the bot joined.
    pub fn set(&mut self, guild_id: u64, now: Duration)
        ensures
            final(self)@ == old(self)@.insert(guild_id, now),
    {
        broadcast use vstd::std_specs::hash::group_hash_axioms;

        self.joined.insert(guild_id, now);
    }

    /// How long the bot was there, when it leaves. What was noted is forgotten, so there is nothing
    /// to say until the bot joins again.
    pub fn take(&mut self, guild_id: u64, now: Duration) -> (out: Option<Duration>)
        ensures
            final(self)@ == old(self)@.remove(guild_id),
            out is Some <==> old(self)@.contains_key(guild_id),
            match out {
                Some(elapsed) => clock::nanos(elapsed) == since(
                    clock::nanos(old(self)@[guild_id]),
                    clock::nanos(now),
                ),
                None => true,
            },
    {
        broadcast use vstd::std_specs::hash::group_hash_axioms;

        let joined = match self.joined.remove(&guild_id) {
            Some(joined) => joined,
            None => {
                assert(self@ =~= old(self)@.remove(guild_id));
                return None;
            },
        };
        let joined: u128 = clock::to_nanos(joined);
        let now: u128 = clock::to_nanos(now);
        let elapsed: u128 = if now >= joined {
            now - joined
        } else {
            0
        };
        Some(clock::from_nanos(elapsed))
    }
}

/// Seconds in words: hours and minutes, minutes alone, or seconds below a minute.
pub open spec fn in_words(secs: nat) -> Seq<char> {
    let hours = secs / 3600;
    let minutes = secs % 3600 / 60;
    if hours > 0 {
        chars::decimal(hours) + "時間"@ + chars::decimal(minutes) + "分"@
    } else if minutes > 0 {
        chars::decimal(minutes) + "分"@
    } else {
        chars::decimal(secs % 60) + "秒"@
    }
}

/// A length of time in words, such as `3時間26分`.
pub fn format_duration(duration: Duration) -> (out: String)
    ensures
        out@ == in_words(clock::whole_secs(duration)),
{
    let total: u64 = duration.as_secs();
    let hours: u64 = total / 3600;
    let minutes: u64 = total % 3600 / 60;
    let seconds: u64 = total % 60;
    if hours > 0 {
        let minutes = chars::decimal_text(minutes);
        chars::decimal_text(hours).concat("時間").concat(minutes.as_str()).concat("分")
    } else if minutes > 0 {
        chars::decimal_text(minutes).concat("分")
    } else {
        chars::decimal_text(seconds).concat("秒")
    }
}

/// What is said of a voice channel that the bot left because nobody was there any more.
pub open spec fn farewell(elapsed: Option<Duration>) -> Seq<char> {
    "誰もいなくなったので退出しました。"@ + match elapsed {
        Some(elapsed) => "（参加時間: "@ + in_words(clock::whole_secs(elapsed)) + "）"@,
        None => ""@,
    }
}

/// What is said of a voice channel that the bot left because nobody was there any more, given how
/// long it was there.
pub fn farewell_text(elapsed: Option<Duration>) -> (out: String)
    ensures
        out@ == farewell(elapsed),
{
    let spent = match elapsed {
        Some(elapsed) => {
            let words = format_duration(elapsed);
            "（参加時間: ".to_owned().concat(words.as_str()).concat("）")
        },
        None => "".to_owned(),
    };
    "誰もいなくなったので退出しました。".to_owned().concat(spent.as_str())
}

/// A time is told in hours and minutes from an hour on, in minutes below, and in seconds below a
/// minute; what is left over is left out.
pub proof fn a_time_is_told_in_words(hours: nat, minutes: nat, seconds: nat)
    requires
        minutes < 60,
        seconds < 60,
    ensures
        hours > 0 ==> in_words(hours * 3600 + minutes * 60 + seconds) == chars::decimal(hours)
            + "時間"@ + chars::decimal(minutes) + "分"@,
        minutes > 0 ==> in_words(minutes * 60 + seconds) == chars::decimal(minutes) + "分"@,
        in_words(seconds) == chars::decimal(seconds) + "秒"@,
{
    let rest = minutes * 60 + seconds;
    vstd::arithmetic::div_mod::lemma_fundamental_div_mod_converse(
        (hours * 3600 + rest) as int,
        3600,
        hours as int,
        rest as int,
    );
    vstd::arithmetic::div_mod::lemma_fundamental_div_mod_converse(
        rest as int,
        60,
        minutes as int,
        seconds as int,
    );
}

/// Whoever was somewhere for a while was there exactly that long; a clock that was put back tells of no
/// time at all.
pub proof fn the_time_that_passed(start: nat, passed: nat)
    ensures
        since(start, start + passed) == passed,
        since(start + passed, start) == 0,
{
}

/// The farewell tells how long the bot was there exactly where that is known.
pub proof fn the_farewell_tells_the_time(elapsed: Duration)
    ensures
        farewell(None) == "誰もいなくなったので退出しました。"@,
        farewell(Some(elapsed)) == farewell(None) + ("（参加時間: "@ + in_words(
            clock::whole_secs(elapsed),
        ) + "）"@),
{
    reveal_strlit("");
    assert("誰もいなくなったので退出しました。"@ + ""@ =~= "誰もいなくなったので退出しました。"@);
}

} // verus!
