//! Reading aloud: what becomes of a text between its arrival and its sound.

use std::collections::HashMap;
use std::path::PathBuf;
use std::time::Duration;

use vstd::prelude::*;

use crate::clock;
use crate::voicevox;
use crate::voicevox::Voice;

verus! {

/// How many texts may wait. What comes when so many wait is dropped.
pub const TEXT_QUEUE_LIMIT: usize = 20;

/// How many sounds may be ready before their turn. With one, the next text becomes sound while the
/// last one plays.
pub const AUDIO_QUEUE_LIMIT: usize = 1;

/// How many requests the engine gets at a time.
pub const ENGINE_CONCURRENCY: usize = 2;

/// How long to wait for the end of a sound beyond its length: ten seconds.
pub const PLAYBACK_GRACE_SECS: u64 = 10;

/// What is said when the engine fails.
pub const OUTAGE_NOTICE: &'static str =
    "音声合成に失敗しました。VOICEVOX ENGINE が                                                  応答していない可能性があります。                                                  復旧するまでこの通知は出しません。";

/// Something to read aloud.
#[derive(Debug)]
pub struct SpeechTask {
    pub text: String,
    pub voice: Voice,
    /// A recording that is played instead.
    pub file: Option<PathBuf>,
    /// Where to say that the engine failed.
    pub origin: Option<u64>,
}

/// The mathematical counterpart of [`SpeechTask`].
pub struct TaskModel {
    pub text: Seq<char>,
    pub voice: Voice,
    pub file: Option<PathBuf>,
    pub origin: Option<u64>,
}

impl View for SpeechTask {
    type V = TaskModel;

    open spec fn view(&self) -> TaskModel {
        TaskModel { text: self.text@, voice: self.voice, file: self.file, origin: self.origin }
    }
}

/// Where the sound of a task comes from.
#[derive(Debug)]
pub enum Sound<'a> {
    /// It was recorded. The engine is not asked.
    Recording(&'a PathBuf),
    /// The engine makes it from a text, in a voice.
    Speech(&'a str, Voice),
}

/// Where the sound of a task comes from: the recording where there is one, else the engine.
pub fn sound_of(task: &SpeechTask) -> (out: Sound<'_>)
    ensures
        match task@.file {
            Some(file) => out matches Sound::Recording(path) && *path == file,
            None => out matches Sound::Speech(text, voice) && text@ == task@.text && voice
                == task@.voice,
        },
{
    match &task.file {
        Some(path) => Sound::Recording(path),
        None => Sound::Speech(task.text.as_str(), task.voice),
    }
}

/// What came of a task.
#[derive(Debug, Clone, Copy, PartialEq, Eq, Structural)]
pub enum Outcome {
    /// The recording was read.
    Recorded,
    /// The recording could not be read.
    Unreadable,
    /// The engine made the sound.
    Synthesized,
    /// The engine failed. The text came from this channel, if from any.
    Failed(Option<u64>),
}

/// What to do after a task.
#[derive(Debug, Clone, Copy, PartialEq, Eq, Structural)]
pub enum Action {
    /// Play the sound.
    Play,
    /// Go on to the next task.
    Skip,
    /// Say in the channel that the engine failed, then go on to the next task.
    Notify(u64),
}

/// Whether the outage that goes on has been told after a task. A failure that came from no channel
/// cannot be told, so it is left to the next one.
pub open spec fn known_after(reported: bool, outcome: Outcome) -> bool {
    match outcome {
        Outcome::Recorded | Outcome::Unreadable | Outcome::Failed(None) => reported,
        Outcome::Synthesized => false,
        Outcome::Failed(Some(_)) => true,
    }
}

/// What to do after a task.
pub open spec fn action(reported: bool, outcome: Outcome) -> Action {
    match outcome {
        Outcome::Recorded | Outcome::Synthesized => Action::Play,
        Outcome::Failed(Some(channel)) if !reported => Action::Notify(channel),
        _ => Action::Skip,
    }
}

/// The part of the queue that makes sounds.
#[derive(Debug, Clone, Copy, PartialEq, Eq, Structural)]
pub struct Synthesis {
    /// Whether the outage that goes on has been told.
    pub reported: bool,
}

impl Synthesis {
    /// The state at the start: the engine works as far as is known.
    pub fn new() -> (out: Synthesis)
        ensures
            !out.reported,
    {
        Synthesis { reported: false }
    }

    /// Takes in what came of a task and says what to do. A task that fails is skipped, and none
    /// stops the queue.
    pub fn step(&mut self, outcome: Outcome) -> (out: Action)
        ensures
            final(self).reported == known_after(old(self).reported, outcome),
            out == action(old(self).reported, outcome),
    {
        let reported = self.reported;
        match outcome {
            Outcome::Recorded => Action::Play,
            Outcome::Unreadable => Action::Skip,
            Outcome::Synthesized => {
                self.reported = false;
                Action::Play
            },
            Outcome::Failed(None) => Action::Skip,
            Outcome::Failed(Some(channel)) => {
                self.reported = true;
                if reported {
                    Action::Skip
                } else {
                    Action::Notify(channel)
                }
            },
        }
    }
}

/// How many notices the outcomes of a run of tasks lead to.
pub open spec fn notices(reported: bool, outcomes: Seq<Outcome>) -> nat
    decreases outcomes.len(),
{
    if outcomes.len() == 0 {
        0
    } else {
        let rest = notices(known_after(reported, outcomes[0]), outcomes.skip(1));
        if action(reported, outcomes[0]) is Notify {
            rest + 1
        } else {
            rest
        }
    }
}

/// Whether some task of a run failed and came from a channel.
pub open spec fn can_be_told(outcomes: Seq<Outcome>) -> bool {
    exists|i: int|
        0 <= i < outcomes.len() && (#[trigger] outcomes[i] matches Outcome::Failed(Some(_)))
}

/// As long as the engine makes no sound there is one notice if a failure came from any channel, and
/// no other; and none once the outage has been told.
pub proof fn an_outage_is_told_once(reported: bool, outcomes: Seq<Outcome>)
    requires
        forall|i: int| 0 <= i < outcomes.len() ==> #[trigger] outcomes[i] != Outcome::Synthesized,
    ensures
        notices(reported, outcomes) == if !reported && can_be_told(outcomes) {
            1nat
        } else {
            0nat
        },
    decreases outcomes.len(),
{
    if outcomes.len() > 0 {
        let rest = outcomes.skip(1);
        assert forall|i: int| 0 <= i < rest.len() implies #[trigger] rest[i]
            != Outcome::Synthesized by {
            assert(rest[i] == outcomes[i + 1]);
        }
        an_outage_is_told_once(known_after(reported, outcomes[0]), rest);
        assert(outcomes[0] != Outcome::Synthesized);
        if can_be_told(rest) {
            let i = choose|i: int|
                0 <= i < rest.len() && (#[trigger] rest[i] matches Outcome::Failed(Some(_)));
            assert(outcomes[i + 1] == rest[i]);
        }
        if can_be_told(outcomes) && !(outcomes[0] matches Outcome::Failed(Some(_))) {
            let i = choose|i: int|
                0 <= i < outcomes.len() && (#[trigger] outcomes[i] matches Outcome::Failed(
                    Some(_),
                ));
            assert(rest[i - 1] == outcomes[i]);
        }
    }
}

/// The first failure that came from a channel is told there, whatever came before it since the
/// engine last made a sound.
pub proof fn the_first_failure_is_told(before: Seq<Outcome>, channel: u64)
    requires
        !can_be_told(before),
    ensures
        action(known_after_all(false, before), Outcome::Failed(Some(channel))) == Action::Notify(
            channel,
        ),
    decreases before.len(),
{
    if before.len() > 0 {
        let rest = before.drop_last();
        assert(!can_be_told(rest)) by {
            if can_be_told(rest) {
                let i = choose|i: int|
                    0 <= i < rest.len() && (#[trigger] rest[i] matches Outcome::Failed(Some(_)));
                assert(before[i] == rest[i]);
            }
        }
        the_first_failure_is_told(rest, channel);
        assert(before[before.len() - 1] == before.last());
    }
}

/// Whether the outage that goes on has been told after a run of tasks.
pub open spec fn known_after_all(reported: bool, outcomes: Seq<Outcome>) -> bool
    decreases outcomes.len(),
{
    if outcomes.len() == 0 {
        reported
    } else {
        known_after(known_after_all(reported, outcomes.drop_last()), outcomes.last())
    }
}

/// Once the engine has made a sound, the next failure is told again.
pub proof fn the_next_outage_is_told(reported: bool, channel: u64)
    ensures
        action(known_after(reported, Outcome::Synthesized), Outcome::Failed(Some(channel)))
            == Action::Notify(channel),
{
}

/// Whether bytes start as a RIFF file whose header says how many bytes make a second.
pub open spec fn has_header(wav: Seq<u8>) -> bool {
    wav.len() >= 32 && wav[0] == 0x52 && wav[1] == 0x49 && wav[2] == 0x46 && wav[3] == 0x46
}

/// How many bytes make a second of a sound: what its header says, or what the engine sends.
pub open spec fn byte_rate(wav: Seq<u8>) -> nat {
    let said = wav[28] + wav[29] * 0x100 + wav[30] * 0x1_0000 + wav[31] * 0x100_0000;
    if has_header(wav) && said > 0 {
        said as nat
    } else {
        voicevox::BYTES_PER_SEC as nat
    }
}

/// How many bytes make a second of the sound.
fn read_byte_rate(wav: &[u8]) -> (out: u32)
    ensures
        out == byte_rate(wav@),
        out > 0,
{
    if wav.len() >= 32 && wav[0] == 0x52 && wav[1] == 0x49 && wav[2] == 0x46 && wav[3] == 0x46 {
        let rate: u32 = wav[28] as u32 + wav[29] as u32 * 0x100 + wav[30] as u32 * 0x1_0000
            + wav[31] as u32 * 0x100_0000;
        if rate > 0 {
            return rate;
        }
    }
    voicevox::BYTES_PER_SEC
}

/// How long so many bytes sound, in nanoseconds, to the nearest.
pub open spec fn sounding(length: nat, rate: nat) -> nat {
    (length * 1_000_000_000 + rate / 2) / rate
}

/// How long bytes sound is no more than a second for each, and a rest.
proof fn lemma_sounding(length: nat, rate: nat)
    requires
        rate > 0,
    ensures
        sounding(length, rate) <= length * 1_000_000_000 + rate / 2,
{
    assert((length * 1_000_000_000 + rate / 2) / rate <= length * 1_000_000_000 + rate / 2)
        by (nonlinear_arith)
        requires
            rate > 0,
    ;
}

/// How long the sound is expected to play. Only used to not wait for ever for its end.
pub fn expected_duration(wav: &[u8]) -> (out: Duration)
    requires
        wav@.len() <= i64::MAX,
    ensures
        clock::nanos(out) == sounding(wav@.len(), byte_rate(wav@)),
{
    let rate: u128 = read_byte_rate(wav) as u128;
    let length: u128 = wav.len() as u128;
    proof {
        lemma_sounding(length as nat, rate as nat);
    }
    clock::from_nanos((length * 1_000_000_000 + rate / 2) / rate)
}

/// How long to wait for the end of the sound: its length and a grace.
pub fn patience(wav: &[u8]) -> (out: Duration)
    requires
        wav@.len() <= i64::MAX,
    ensures
        clock::nanos(out) == sounding(wav@.len(), byte_rate(wav@)) + PLAYBACK_GRACE_SECS
            * 1_000_000_000,
{
    let expected: u128 = clock::to_nanos(expected_duration(wav));
    let grace: u128 = PLAYBACK_GRACE_SECS as u128 * 1_000_000_000;
    proof {
        lemma_sounding(wav@.len(), byte_rate(wav@));
    }
    clock::from_nanos(expected + grace)
}

/// What came of handing a task to the queue of a guild.
#[derive(Debug, Clone, Copy, PartialEq, Eq, Structural)]
pub enum Sending {
    Taken,
    /// As many texts wait as may. The task is dropped rather than waited for.
    Full,
    /// Nobody takes tasks from the queue any more.
    Closed,
}

/// The queues of the guilds and what plays in them.
#[derive(Debug)]
pub struct Manager {
    queues: HashMap<u64, ()>,
    playing: HashMap<u64, u64>,
}

/// The mathematical counterpart of [`Manager`].
pub struct ManagerModel {
    /// The guilds that have a queue.
    pub queues: Set<u64>,
    /// The sounds that play, by guild.
    pub playing: Map<u64, u64>,
}

impl View for Manager {
    type V = ManagerModel;

    closed spec fn view(&self) -> ManagerModel {
        ManagerModel { queues: self.queues@.dom(), playing: self.playing@ }
    }
}

impl Manager {
    /// No guild has a queue.
    pub fn new() -> (out: Manager)
        ensures
            out@ == (ManagerModel { queues: Set::empty(), playing: Map::empty() }),
    {
        broadcast use vstd::std_specs::hash::group_hash_axioms;

        let out = Manager { queues: HashMap::new(), playing: HashMap::new() };
        assert(out@.queues =~= Set::<u64>::empty());
        out
    }

    /// Takes note that a task is to be handed to the queue of a guild. Says whether the guild has
    /// no queue yet and one is to be started.
    pub fn enqueue(&mut self, guild_id: u64) -> (out: bool)
        ensures
            out == !old(self)@.queues.contains(guild_id),
            final(self)@ == (ManagerModel {
                queues: old(self)@.queues.insert(guild_id),
                playing: old(self)@.playing,
            }),
    {
        broadcast use vstd::std_specs::hash::group_hash_axioms;

        let started = self.queues.insert(guild_id, ()).is_none();
        assert(self@.queues =~= old(self)@.queues.insert(guild_id));
        started
    }

    /// Takes in what came of handing a task over. A queue that is closed is forgotten, so that the
    /// next task starts a new one; the task itself is lost, as it is when the queue is full.
    pub fn sent(&mut self, guild_id: u64, outcome: Sending)
        ensures
            final(self)@ == (ManagerModel {
                queues: if outcome == Sending::Closed {
                    old(self)@.queues.remove(guild_id)
                } else {
                    old(self)@.queues
                },
                playing: old(self)@.playing,
            }),
    {
        if let Sending::Closed = outcome {
            self.stop(guild_id);
        }
    }

    /// Forgets the queue of a guild, with what waits in it. Says whether there was one.
    pub fn stop(&mut self, guild_id: u64) -> (out: bool)
        ensures
            out == old(self)@.queues.contains(guild_id),
            final(self)@ == (ManagerModel {
                queues: old(self)@.queues.remove(guild_id),
                playing: old(self)@.playing,
            }),
    {
        broadcast use vstd::std_specs::hash::group_hash_axioms;

        let had = self.queues.remove(&guild_id).is_some();
        assert(self@.queues =~= old(self)@.queues.remove(guild_id));
        had
    }

    /// Takes note that a sound plays in a guild.
    pub fn started(&mut self, guild_id: u64, sound: u64)
        ensures
            final(self)@ == (ManagerModel {
                queues: old(self)@.queues,
                playing: old(self)@.playing.insert(guild_id, sound),
            }),
    {
        broadcast use vstd::std_specs::hash::group_hash_axioms;

        self.playing.insert(guild_id, sound);
    }

    /// Takes note that nothing plays in a guild any more.
    pub fn finished(&mut self, guild_id: u64)
        ensures
            final(self)@ == (ManagerModel {
                queues: old(self)@.queues,
                playing: old(self)@.playing.remove(guild_id),
            }),
    {
        broadcast use vstd::std_specs::hash::group_hash_axioms;

        self.playing.remove(&guild_id);
        assert(self@.playing =~= old(self)@.playing.remove(guild_id));
    }

    /// The sound to cut short in a guild, which is then taken as not playing any more.
    pub fn skip(&mut self, guild_id: u64) -> (out: Option<u64>)
        ensures
            out == (if old(self)@.playing.contains_key(guild_id) {
                Some(old(self)@.playing[guild_id])
            } else {
                None
            }),
            final(self)@ == (ManagerModel {
                queues: old(self)@.queues,
                playing: old(self)@.playing.remove(guild_id),
            }),
    {
        broadcast use vstd::std_specs::hash::group_hash_axioms;

        let sound = self.playing.remove(&guild_id);
        assert(self@.playing =~= old(self)@.playing.remove(guild_id));
        sound
    }
}

/// What is played and what is left out: a sound that there is, recorded or made, is played; nothing
/// else is. A failure is told in the channel that it came from as long as it was not told, and never
/// anywhere else.
pub proof fn a_sound_that_there_is_is_played(reported: bool, outcome: Outcome)
    ensures
        action(reported, Outcome::Recorded) == Action::Play,
        action(reported, Outcome::Synthesized) == Action::Play,
        action(reported, outcome) == Action::Play ==> outcome == Outcome::Recorded || outcome
            == Outcome::Synthesized,
        action(reported, Outcome::Unreadable) == Action::Skip,
        action(true, outcome) == Action::Play || action(true, outcome) == Action::Skip,
        action(reported, outcome) matches Action::Notify(channel) ==> !reported && outcome
            == Outcome::Failed(Some(channel)),
{
}

/// A sound of so many bytes, at so many to the second, sounds as long as that, to within half a
/// nanosecond.
pub proof fn bytes_sound_by_their_rate(length: nat, rate: nat)
    requires
        rate > 0,
    ensures
        2 * (sounding(length, rate) * rate) <= 2 * (length * 1_000_000_000) + rate,
        2 * (length * 1_000_000_000) < 2 * (sounding(length, rate) * rate) + rate + 1,
{
    let all = length * 1_000_000_000 + rate / 2;
    let n = sounding(length, rate);
    vstd::arithmetic::div_mod::lemma_fundamental_div_mod(all as int, rate as int);
    assert(rate * n == n * rate) by (nonlinear_arith);
}

/// The rate of a sound is the number that its header writes in four bytes, the lowest first. A sound
/// without a header, or with a rate of nothing there, has the rate that was asked of the engine.
pub proof fn the_header_tells_the_rate(wav: Seq<u8>, rate: u32)
    requires
        wav.len() >= 32,
        wav[28] == rate % 0x100,
        wav[29] == rate / 0x100 % 0x100,
        wav[30] == rate / 0x1_0000 % 0x100,
        wav[31] == rate / 0x100_0000,
    ensures
        wav[0] == 0x52 && wav[1] == 0x49 && wav[2] == 0x46 && wav[3] == 0x46 && rate > 0
            ==> byte_rate(wav) == rate,
        rate == 0 ==> byte_rate(wav) == 192_000,
        !(wav[0] == 0x52 && wav[1] == 0x49 && wav[2] == 0x46 && wav[3] == 0x46) ==> byte_rate(wav)
            == 192_000,
        forall|n: int| 0 <= n < 32 ==> byte_rate(#[trigger] wav.take(n)) == 192_000,
{
}

} // verus!
