//! The VOICEVOX engine: what is asked of it and what its answers mean.

use vstd::arithmetic::power2::{lemma2_to64, lemma_pow2_adds, lemma_pow2_pos, lemma_pow2_unfold, pow2};
use vstd::prelude::*;

use crate::chars;
use crate::chars::Edge;
use crate::scale;
use crate::scale::Scale;

verus! {

/// The sampling rate that is asked for. Discord plays 48 kHz stereo, so nothing has to be
/// resampled.
pub const OUTPUT_SAMPLING_RATE: u32 = 48_000;

/// The bytes of a second of 48 kHz stereo sound with 16 bits.
pub const BYTES_PER_SEC: u32 = 192_000;

/// How many characters of an error's body are kept.
pub const BODY_LIMIT: usize = 200;

/// What stands for a body that could not be read.
pub const UNREADABLE_BODY: &'static str = "<本文の読み取りに失敗>";

/// A style of a character. The engine's parameter `speaker` is a style, not a character.
#[derive(Debug, Clone, Copy, PartialEq, Eq, Structural, Hash)]
pub struct StyleId(pub u32);

/// The style of whoever has chosen none.
pub const DEFAULT_STYLE: u32 = 3;

/// The bit pattern of the slowest speed, 0.5.
pub const MIN_SPEED: u32 = 0x3f00_0000;

/// The bit pattern of the fastest speed, 2.0.
pub const MAX_SPEED: u32 = 0x4000_0000;

/// The bit pattern of 0.15, which the pitch may be away from 0.0.
pub const MAX_PITCH: u32 = 0x3e19_999a;

/// The bit pattern of the strongest intonation, 2.0. The weakest is 0.0.
pub const MAX_INTONATION: u32 = 0x4000_0000;

/// How a user's texts are read.
#[derive(Debug, Clone, Copy, PartialEq, Eq, Structural)]
pub struct Voice {
    pub style: StyleId,
    pub speed: Scale,
    pub pitch: Scale,
    pub intonation: Scale,
}

/// The voice of whoever has chosen nothing.
pub open spec fn default_voice() -> Voice {
    Voice {
        style: StyleId(DEFAULT_STYLE),
        speed: Scale { bits: scale::ONE },
        pitch: Scale { bits: scale::ZERO },
        intonation: Scale { bits: scale::ONE },
    }
}

impl Default for Voice {
    fn default() -> (out: Voice)
        ensures
            out == default_voice(),
    {
        Voice {
            style: StyleId(DEFAULT_STYLE),
            speed: Scale { bits: scale::ONE },
            pitch: Scale { bits: scale::ZERO },
            intonation: Scale { bits: scale::ONE },
        }
    }
}

/// Whether the engine takes `value` as a speed.
pub fn is_speed(value: Scale) -> (out: bool)
    ensures
        out == value.between(MIN_SPEED, MAX_SPEED),
{
    scale::is_between(value, MIN_SPEED, MAX_SPEED)
}

/// Whether the engine takes `value` as a pitch.
pub fn is_pitch(value: Scale) -> (out: bool)
    ensures
        out == (value.finite() && -scale::number(MAX_PITCH) <= value.value() <= scale::number(
            MAX_PITCH,
        )),
{
    scale::is_within(value, MAX_PITCH)
}

/// Whether the engine takes `value` as an intonation.
pub fn is_intonation(value: Scale) -> (out: bool)
    ensures
        out == value.between(scale::ZERO, MAX_INTONATION),
{
    scale::is_between(value, scale::ZERO, MAX_INTONATION)
}

/// A character of the engine.
#[derive(Debug)]
pub struct Speaker {
    pub name: String,
    pub styles: Vec<Style>,
}

/// A style of a character.
#[derive(Debug)]
pub struct Style {
    pub name: String,
    pub id: u32,
}

/// What can go wrong with the engine.
#[derive(Debug)]
pub enum Error {
    /// The address of the engine is not a web address.
    BaseUrl(String),
    /// The request failed.
    Http,
    /// The engine answered with an error.
    Status { status: String, body: String },
}

impl Error {
    /// What is said of the error.
    pub open spec fn shown(self) -> Seq<char> {
        match self {
            Error::BaseUrl(base) => "ENGINE のベース URL が不正: "@ + base@,
            Error::Http => "ENGINE への HTTP リクエストが失敗した"@,
            Error::Status { status, body } => "ENGINE が "@ + status@ + " を返した: "@ + body@,
        }
    }

    /// What is said of the error.
    pub fn message(&self) -> (out: String)
        ensures
            out@ == self.shown(),
    {
        match self {
            Error::BaseUrl(base) => "ENGINE のベース URL が不正: ".to_owned().concat(base.as_str()),
            Error::Http => "ENGINE への HTTP リクエストが失敗した".to_owned(),
            Error::Status { status, body } => "ENGINE が ".to_owned().concat(
                status.as_str(),
            ).concat(" を返した: ").concat(body.as_str()),
        }
    }
}

/// What the engine can be asked.
#[derive(Debug, Clone, Copy, PartialEq, Eq, Structural)]
pub enum Endpoint {
    Version,
    InitializeSpeaker,
    Speakers,
    AudioQuery,
    Synthesis,
}

impl Endpoint {
    /// The path of a question.
    pub open spec fn path(self) -> Seq<char> {
        match self {
            Endpoint::Version => "/version"@,
            Endpoint::InitializeSpeaker => "/initialize_speaker"@,
            Endpoint::Speakers => "/speakers"@,
            Endpoint::AudioQuery => "/audio_query"@,
            Endpoint::Synthesis => "/synthesis"@,
        }
    }
}

/// Where the engine is.
#[derive(Debug)]
pub struct Client {
    base: String,
}

impl Client {
    /// The address of the engine, without a slash at its end.
    pub closed spec fn base(self) -> Seq<char> {
        self.base@
    }

    /// An engine at `base`.
    pub fn new(base: &str) -> (out: Result<Client, Error>)
        ensures
            ({
                let bare = chars::trim_end(Edge::Slash, base@);
                match out {
                    Ok(client) => (chars::begins(bare, "http://"@) || chars::begins(
                        bare,
                        "https://"@,
                    )) && client.base() == bare,
                    Err(Error::BaseUrl(shown)) => !chars::begins(bare, "http://"@)
                        && !chars::begins(bare, "https://"@) && shown@ == bare,
                    Err(_) => false,
                }
            }),
    {
        let base = chars::trim_text_end(Edge::Slash, base);
        if !chars::starts_with(base.as_str(), "http://") && !chars::starts_with(
            base.as_str(),
            "https://",
        ) {
            return Err(Error::BaseUrl(base));
        }
        Ok(Client { base })
    }

    /// The address of a question.
    pub fn url(&self, endpoint: Endpoint) -> (out: String)
        ensures
            out@ == self.base() + endpoint.path(),
    {
        let path = match endpoint {
            Endpoint::Version => "/version",
            Endpoint::InitializeSpeaker => "/initialize_speaker",
            Endpoint::Speakers => "/speakers",
            Endpoint::AudioQuery => "/audio_query",
            Endpoint::Synthesis => "/synthesis",
        };
        self.base.clone().concat(path)
    }

    /// The version in the engine's answer, which is a text in quotes.
    pub fn version(answer: &str) -> (out: String)
        ensures
            out@ == chars::trimmed(Edge::Quote, chars::trimmed(Edge::Space, answer@)),
    {
        let inner = chars::trim_text(Edge::Space, answer);
        chars::trim_text(Edge::Quote, inner.as_str())
    }
}

/// The first characters of a text, at most so many.
pub open spec fn head(s: Seq<char>, limit: nat) -> Seq<char> {
    if s.len() <= limit {
        s
    } else {
        s.take(limit as int)
    }
}

/// What an answer with a status code means, given how the status is shown and, if it could be
/// read, the body.
pub fn check(code: u16, status: &str, body: Option<&str>) -> (out: Result<(), Error>)
    ensures
        match out {
            Ok(_) => 200 <= code < 300,
            Err(Error::Status { status: shown, body: kept }) => {
                &&& !(200 <= code < 300)
                &&& shown@ == status@
                &&& kept@ == head(
                    match body {
                        Some(body) => body@,
                        None => UNREADABLE_BODY@,
                    },
                    BODY_LIMIT as nat,
                )
            },
            Err(_) => false,
        },
{
    if 200 <= code && code < 300 {
        return Ok(());
    }
    let body = match body {
        Some(body) => body,
        None => UNREADABLE_BODY,
    };
    let all = chars::to_chars(body);
    let kept = if all.len() > BODY_LIMIT {
        chars::from_chars(vstd::slice::slice_subrange(all.as_slice(), 0, BODY_LIMIT))
    } else {
        body.to_owned()
    };
    Err(Error::Status { status: status.to_owned(), body: kept })
}

/// A JSON value of `serde_json`.
#[verifier::external_type_specification]
#[verifier::external_body]
pub struct ExValue(serde_json::Value);

/// What a JSON object holds: each member's name with the text of its value. `None` for a value
/// that is not an object.
pub uninterp spec fn members(value: serde_json::Value) -> Option<Map<Seq<char>, Seq<char>>>;

/// The text of a JSON value, as `Value::to_string` writes it.
pub uninterp spec fn json_text(value: serde_json::Value) -> Seq<char>;

/// `Value::as_object_mut` of `serde_json` hands out the members of an object, and `Map::insert`
/// puts a member there in place of one with the same name. A value that is not an object stays as
/// it is.
#[verifier::external_body]
fn insert_member(query: &mut serde_json::Value, name: &str, value: serde_json::Value)
    ensures
        match members(*old(query)) {
            Some(held) => members(*final(query)) == Some(held.insert(name@, json_text(value))),
            None => *final(query) == *old(query),
        },
{
    if let Some(object) = query.as_object_mut() {
        object.insert(name.to_owned(), value);
    }
}

/// `Value::from` of `serde_json` makes a JSON number of an integer, whose text is its decimal
/// digits.
#[verifier::external_body]
fn number_value(n: u32) -> (out: serde_json::Value)
    ensures
        json_text(out) == chars::decimal(n as nat),
{
    serde_json::Value::from(n)
}

/// `Value::Bool` of `serde_json` is written as `true` or `false`.
#[verifier::external_body]
fn flag_value(on: bool) -> (out: serde_json::Value)
    ensures
        json_text(out) == (if on {
            "true"@
        } else {
            "false"@
        }),
{
    serde_json::Value::Bool(on)
}

/// A query with a user's settings and the format that Discord plays.
pub open spec fn tuned(
    held: Map<Seq<char>, Seq<char>>,
    speed: Seq<char>,
    pitch: Seq<char>,
    intonation: Seq<char>,
) -> Map<Seq<char>, Seq<char>> {
    held.insert("speedScale"@, speed).insert("pitchScale"@, pitch).insert(
        "intonationScale"@,
        intonation,
    ).insert("outputSamplingRate"@, chars::decimal(OUTPUT_SAMPLING_RATE as nat)).insert(
        "outputStereo"@,
        "true"@,
    )
}

/// Puts a user's settings, as JSON numbers, and the format that Discord plays into a query that
/// the engine made. Its other members stay as the engine made them.
pub fn tune(
    query: &mut serde_json::Value,
    speed: serde_json::Value,
    pitch: serde_json::Value,
    intonation: serde_json::Value,
)
    ensures
        match members(*old(query)) {
            Some(held) => members(*final(query)) == Some(
                tuned(held, json_text(speed), json_text(pitch), json_text(intonation)),
            ),
            None => *final(query) == *old(query),
        },
{
    insert_member(query, "speedScale", speed);
    insert_member(query, "pitchScale", pitch);
    insert_member(query, "intonationScale", intonation);
    insert_member(query, "outputSamplingRate", number_value(OUTPUT_SAMPLING_RATE));
    insert_member(query, "outputStereo", flag_value(true));
}

/// Whatever the engine put into a query, the sound that comes back has the format that Discord
/// plays.
pub proof fn the_format_is_always_set(
    held: Map<Seq<char>, Seq<char>>,
    speed: Seq<char>,
    pitch: Seq<char>,
    intonation: Seq<char>,
)
    ensures
        tuned(held, speed, pitch, intonation).contains_pair(
            "outputSamplingRate"@,
            chars::decimal(48_000),
        ),
        tuned(held, speed, pitch, intonation).contains_pair("outputStereo"@, "true"@),
{
    reveal_strlit("outputSamplingRate");
    reveal_strlit("outputStereo");
    assert("outputSamplingRate"@.len() != "outputStereo"@.len());
}

/// What a query holds besides a user's settings and the format is left as the engine made it.
pub proof fn other_members_stay(
    held: Map<Seq<char>, Seq<char>>,
    speed: Seq<char>,
    pitch: Seq<char>,
    intonation: Seq<char>,
    name: Seq<char>,
)
    requires
        name != "speedScale"@,
        name != "pitchScale"@,
        name != "intonationScale"@,
        name != "outputSamplingRate"@,
        name != "outputStereo"@,
    ensures
        tuned(held, speed, pitch, intonation).contains_key(name) == held.contains_key(name),
        held.contains_key(name) ==> tuned(held, speed, pitch, intonation)[name] == held[name],
{
}

/// A query says what the user has set, each number under its own name, whatever the engine put there.
pub proof fn the_users_numbers_are_set(
    held: Map<Seq<char>, Seq<char>>,
    speed: Seq<char>,
    pitch: Seq<char>,
    intonation: Seq<char>,
)
    ensures
        tuned(held, speed, pitch, intonation).contains_pair("speedScale"@, speed),
        tuned(held, speed, pitch, intonation).contains_pair("pitchScale"@, pitch),
        tuned(held, speed, pitch, intonation).contains_pair("intonationScale"@, intonation),
{
    reveal_strlit("speedScale");
    reveal_strlit("pitchScale");
    reveal_strlit("intonationScale");
    reveal_strlit("outputSamplingRate");
    reveal_strlit("outputStereo");
    assert("speedScale"@[0] != "pitchScale"@[0]);
    assert("speedScale"@.len() == 10 && "pitchScale"@.len() == 10);
    assert("intonationScale"@.len() == 15);
    assert("outputSamplingRate"@.len() == 18);
    assert("outputStereo"@.len() == 12);
}

/// Speeds go from half to double, intonations from nothing to double, and pitches as far as the number
/// nearest to 0.15 in either direction: the differences are less than half of the step to the next
/// number.
pub proof fn the_ranges_of_a_voice()
    ensures
        2 * scale::number(MIN_SPEED) == scale::number(scale::ONE),
        scale::number(MAX_SPEED) == 2 * scale::number(scale::ONE),
        scale::number(MAX_INTONATION) == 2 * scale::number(scale::ONE),
        -10 * pow2(123) < 20 * scale::number(MAX_PITCH) - 3 * scale::number(scale::ONE) < 10
            * pow2(123),
        scale::number((MAX_PITCH + 1) as u32) - scale::number(MAX_PITCH) == pow2(123),
{
    scale::one_is_one();
    lemma2_to64();
    lemma_pow2_adds(23, 125);
    lemma_pow2_adds(23, 127);
    lemma_pow2_adds(26, 123);
    lemma_pow2_unfold(149);
    lemma_pow2_unfold(150);
    assert(pow2(23) == 0x80_0000);
    assert(pow2(26) == 0x400_0000);
    assert(scale::number(MIN_SPEED) == 0x80_0000nat * pow2(125));
    assert(scale::number(MAX_SPEED) == 0x80_0000nat * pow2(127));
    assert(scale::number(MAX_PITCH) == 0x99_999anat * pow2(123));
    assert(scale::number((MAX_PITCH + 1) as u32) == 0x99_999bnat * pow2(123));
    lemma_pow2_pos(123);
}

/// Whoever has chosen nothing is read with the third style, at ordinary speed, pitch and intonation.
pub proof fn the_stock_voice_is_plain()
    ensures
        default_voice().style.0 == 3,
        default_voice().speed.value() == pow2(149),
        default_voice().pitch.value() == 0,
        default_voice().intonation.value() == pow2(149),
{
    scale::one_is_one();
}

/// As much of a text is kept as a limit allows, from its beginning.
pub proof fn the_beginning_is_kept(front: Seq<char>, back: Seq<char>, limit: nat)
    ensures
        head(front + back, front.len()) == front,
        limit >= front.len() ==> head(front, limit) == front,
        head(front, limit).len() <= limit,
{
    assert((front + back).take(front.len() as int) =~= front);
    if back.len() == 0 {
        assert(front + back =~= front);
    }
}

/// Different questions go to different addresses, each below the engine's, under the name that the
/// engine has for it.
pub proof fn each_question_has_its_address(a: Endpoint, b: Endpoint)
    ensures
        a.path() == b.path() ==> a == b,
        a.path().len() > 1 && a.path()[0] == '/',
        Endpoint::Version.path() == "/version"@,
        Endpoint::InitializeSpeaker.path() == "/initialize_speaker"@,
        Endpoint::Speakers.path() == "/speakers"@,
        Endpoint::AudioQuery.path() == "/audio_query"@,
        Endpoint::Synthesis.path() == "/synthesis"@,
{
    reveal_strlit("/version");
    reveal_strlit("/initialize_speaker");
    reveal_strlit("/speakers");
    reveal_strlit("/audio_query");
    reveal_strlit("/synthesis");
    assert("/version"@[1] == 'v');
    assert("/initialize_speaker"@[1] == 'i');
    assert("/speakers"@[1] == 's' && "/speakers"@[2] == 'p');
    assert("/audio_query"@[1] == 'a');
    assert("/synthesis"@[1] == 's' && "/synthesis"@[2] == 'y');
}

} // verus!
