//! The panel that controls the music.
//!
//! Its buttons carry what they do in their identifiers, so a panel goes on working when the bot was
//! started anew. While music plays, the panel is drawn anew every few seconds.

use vstd::prelude::*;

use crate::chars;
use crate::commands::reply;
use crate::music;
use crate::music::NowPlaying;
use crate::music::QueuedTrack;
use crate::scale::Scale;
use crate::volume;

verus! {

/// What the identifiers of the panel's buttons begin with.
pub const PREFIX: &'static str = "music:";

/// What the identifier of a button that seeks goes on with, before the seconds.
pub const SEEK: &'static str = "seek:";

/// How many of the tracks that wait the panel lists.
pub const QUEUE_PREVIEW: usize = 5;

/// The shorter of the two widths of a seek, in seconds.
pub const SHORT_STEP: i64 = 10;

/// The longer of the two widths of a seek, in seconds. No button seeks farther.
pub const LONG_STEP: i64 = 60;

/// How many seconds lie between two drawings.
pub const TICK_SECS: u64 = 5;

/// How often in a row nothing may play before the panel is not drawn any more.
pub const IDLE_TICKS: u32 = 60;

/// What a button does.
#[derive(Debug, Clone, Copy, PartialEq, Eq, Structural)]
pub enum Press {
    /// Seeks by so many seconds, backwards if negative.
    Seek(i64),
    /// Pauses or goes on.
    Toggle,
    /// Goes to the next track.
    Next,
    /// Stops and empties the queue.
    Stop,
    /// Only draws the panel anew.
    Refresh,
}

/// What the button with an identifier does, if it is one of the panel's. Identifiers can be made by
/// anyone, so a seek is limited. The buttons of older panels are understood as well.
pub open spec fn pressed(custom_id: Seq<char>) -> Option<Press> {
    if !chars::begins(custom_id, PREFIX@) {
        None
    } else {
        let action = custom_id.skip(PREFIX@.len() as int);
        if action == "back"@ {
            Some(Press::Seek((-SHORT_STEP) as i64))
        } else if action == "forward"@ {
            Some(Press::Seek(SHORT_STEP))
        } else if action == "toggle"@ {
            Some(Press::Toggle)
        } else if action == "next"@ {
            Some(Press::Next)
        } else if action == "stop"@ {
            Some(Press::Stop)
        } else if action == "refresh"@ {
            Some(Press::Refresh)
        } else if chars::begins(action, SEEK@) {
            match chars::parsed_i64(action.skip(SEEK@.len() as int)) {
                Some(secs) if -LONG_STEP <= secs <= LONG_STEP => Some(Press::Seek(secs as i64)),
                _ => None,
            }
        } else {
            None
        }
    }
}

/// What the button with an identifier does.
pub fn parse(custom_id: &str) -> (out: Option<Press>)
    ensures
        out == pressed(custom_id@),
{
    let action = match chars::strip_prefix(custom_id, PREFIX) {
        Some(action) => action,
        None => return None,
    };
    let action = action.as_str();
    if chars::same(action, "back") {
        return Some(Press::Seek(-SHORT_STEP));
    }
    if chars::same(action, "forward") {
        return Some(Press::Seek(SHORT_STEP));
    }
    if chars::same(action, "toggle") {
        return Some(Press::Toggle);
    }
    if chars::same(action, "next") {
        return Some(Press::Next);
    }
    if chars::same(action, "stop") {
        return Some(Press::Stop);
    }
    if chars::same(action, "refresh") {
        return Some(Press::Refresh);
    }
    let secs = match chars::strip_prefix(action, SEEK) {
        Some(secs) => secs,
        None => return None,
    };
    match chars::parse_i64(secs.as_str()) {
        Some(secs) if -LONG_STEP <= secs && secs <= LONG_STEP => Some(Press::Seek(secs)),
        _ => None,
    }
}

/// What is done about a button.
#[derive(Debug, Clone, Copy, PartialEq, Eq, Structural)]
pub struct Reaction {
    pub guild_id: u64,
    pub press: Press,
    /// Whether Discord is answered before the button's work is done, and the message edited
    /// afterwards. A seek can take too long for an answer.
    pub acknowledge: bool,
}

/// What is done about a button, given where it was pressed. Buttons that are not the panel's and
/// those outside of a guild are ignored.
pub fn handle_component(custom_id: &str, guild_id: Option<u64>) -> (out: Option<Reaction>)
    ensures
        out == match (pressed(custom_id@), guild_id) {
            (Some(press), Some(guild_id)) => Some(
                Reaction { guild_id, press, acknowledge: press is Seek },
            ),
            _ => None,
        },
{
    let press = match parse(custom_id) {
        Some(press) => press,
        None => return None,
    };
    let guild_id: u64 = match guild_id {
        Some(guild_id) => guild_id,
        None => return None,
    };
    let acknowledge = match press {
        Press::Seek(_) => true,
        _ => false,
    };
    Some(Reaction { guild_id, press, acknowledge })
}

/// How a button looks.
#[derive(Debug, Clone, Copy, PartialEq, Eq, Structural)]
pub enum ButtonStyle {
    Primary,
    Secondary,
    Danger,
}

/// A button of the panel.
#[derive(Debug)]
pub struct Button {
    pub custom_id: String,
    pub emoji: char,
    pub label: String,
    pub style: ButtonStyle,
}

/// The mathematical counterpart of [`Button`].
pub struct ButtonModel {
    pub custom_id: Seq<char>,
    pub emoji: char,
    pub label: Seq<char>,
    pub style: ButtonStyle,
}

impl View for Button {
    type V = ButtonModel;

    open spec fn view(&self) -> ButtonModel {
        ButtonModel {
            custom_id: self.custom_id@,
            emoji: self.emoji,
            label: self.label@,
            style: self.style,
        }
    }
}

/// The mathematical counterparts of buttons.
pub open spec fn button_views(buttons: Seq<Button>) -> Seq<ButtonModel> {
    buttons.map_values(|button: Button| button@)
}

/// A button that does something other than seek.
pub open spec fn plain_button(
    action: Seq<char>,
    emoji: char,
    label: Seq<char>,
    style: ButtonStyle,
) -> ButtonModel {
    ButtonModel { custom_id: PREFIX@ + action, emoji, label, style }
}

/// A button that seeks.
pub open spec fn seek_button(secs: int) -> ButtonModel {
    ButtonModel {
        custom_id: PREFIX@ + SEEK@ + chars::signed_decimal(secs),
        emoji: if secs < 0 {
            '⏪'
        } else {
            '⏩'
        },
        label: chars::decimal(
            if secs < 0 {
                (-secs) as nat
            } else {
                secs as nat
            },
        ) + "秒"@,
        style: ButtonStyle::Secondary,
    }
}

/// The first row of buttons: those that move within the track.
pub open spec fn seeking_row(paused: bool) -> Seq<ButtonModel> {
    let far_back = seek_button(-LONG_STEP);
    let back = seek_button(-SHORT_STEP);
    let toggle = if paused {
        plain_button("toggle"@, '▶', "再開"@, ButtonStyle::Primary)
    } else {
        plain_button("toggle"@, '⏸', "一時停止"@, ButtonStyle::Primary)
    };
    let forward = seek_button(SHORT_STEP as int);
    let far_forward = seek_button(LONG_STEP as int);
    seq![far_back, back, toggle, forward, far_forward]
}

/// The second row of buttons: those for the queue.
pub open spec fn queueing_row() -> Seq<ButtonModel> {
    seq![
        plain_button("next"@, '⏭', "次へ"@, ButtonStyle::Secondary),
        plain_button("stop"@, '⏹', "停止"@, ButtonStyle::Danger),
        plain_button("refresh"@, '🔄', "更新"@, ButtonStyle::Secondary),
    ]
}

/// A button that does something other than seek.
fn make_button(action: &str, emoji: char, label: &str, style: ButtonStyle) -> (out: Button)
    ensures
        out@ == plain_button(action@, emoji, label@, style),
{
    Button { custom_id: PREFIX.to_owned().concat(action), emoji, label: label.to_owned(), style }
}

/// A button that seeks.
fn make_seek_button(secs: i64) -> (out: Button)
    requires
        -LONG_STEP <= secs <= LONG_STEP,
    ensures
        out@ == seek_button(secs as int),
{
    let shown = chars::signed_decimal_text(secs);
    let (emoji, width): (char, i64) = if secs < 0 {
        ('⏪', -secs)
    } else {
        ('⏩', secs)
    };
    Button {
        custom_id: PREFIX.to_owned().concat(SEEK).concat(shown.as_str()),
        emoji,
        label: chars::decimal_text(width as u64).concat("秒"),
        style: ButtonStyle::Secondary,
    }
}

/// A drawing of the panel.
#[derive(Debug)]
pub struct Panel {
    pub content: String,
    pub seeking: Vec<Button>,
    pub queueing: Vec<Button>,
    /// Whether something plays.
    pub playing: bool,
}

/// What the panel says.
pub open spec fn drawn(
    now: Option<NowPlaying>,
    tracks: Seq<music::TrackModel>,
    percent: nat,
) -> Seq<char> {
    match now {
        None => "**音楽コントロール**\n再生していません。`/play` で追加してください。"@,
        Some(now) => {
            let state = if now.paused {
                "⏸ 一時停止中"@
            } else {
                "▶ 再生中"@
            };
            "**音楽コントロール**（音量 "@ + chars::decimal(percent) + "%）\n"@ + state + ": **"@
                + music::linked(now.track@) + "**\n"@ + music::progress(now.position, now.duration)
                + reply::waiting(tracks, QUEUE_PREVIEW as nat)
        },
    }
}

/// Draws the panel, given what plays, the queue and the volume as a share of the loudest.
pub fn render(now: &Option<NowPlaying>, tracks: &Vec<QueuedTrack>, share: Scale) -> (out: Panel)
    ensures
        out.content@ == drawn(*now, reply::track_views(tracks@), volume::shown(share)),
        out.playing == (*now is Some),
        button_views(out.seeking@) == seeking_row(
            match *now {
                Some(now) => now.paused,
                None => false,
            },
        ),
        button_views(out.queueing@) == queueing_row(),
{
    let (content, paused, playing) = match now {
        None => (
            "**音楽コントロール**\n再生していません。`/play` で追加してください。".to_owned(),
            false,
            false,
        ),
        Some(now) => {
            let state = if now.paused {
                "⏸ 一時停止中"
            } else {
                "▶ 再生中"
            };
            let percent = chars::decimal_text(volume::percent_of(share) as u64);
            let link = now.track.link();
            let bar = music::progress_bar(now.position, now.duration);
            let rest = reply::list_waiting(tracks, QUEUE_PREVIEW);
            (
                "**音楽コントロール**（音量 ".to_owned().concat(percent.as_str()).concat("%）\n").concat(
                    state,
                ).concat(": **").concat(link.as_str()).concat("**\n").concat(bar.as_str()).concat(
                    rest.as_str(),
                ),
                now.paused,
                true,
            )
        },
    };
    let toggle = if paused {
        make_button("toggle", '▶', "再開", ButtonStyle::Primary)
    } else {
        make_button("toggle", '⏸', "一時停止", ButtonStyle::Primary)
    };
    let far_back = make_seek_button(-LONG_STEP);
    let back = make_seek_button(-SHORT_STEP);
    let forward = make_seek_button(SHORT_STEP);
    let far_forward = make_seek_button(LONG_STEP);
    let seeking = vec![far_back, back, toggle, forward, far_forward];
    let queueing = vec![
        make_button("next", '⏭', "次へ", ButtonStyle::Secondary),
        make_button("stop", '⏹', "停止", ButtonStyle::Danger),
        make_button("refresh", '🔄', "更新", ButtonStyle::Secondary),
    ];
    assert(button_views(seeking@) =~= seeking_row(paused));
    assert(button_views(queueing@) =~= queueing_row());
    Panel { content, seeking, queueing, playing }
}

/// What to do about a panel after some time.
#[derive(Debug, Clone, Copy, PartialEq, Eq, Structural)]
pub enum Tick {
    /// Do not draw it any more.
    Stop,
    /// Leave it as it is.
    Keep,
    /// Edit the message.
    Edit,
}

/// What is known of a panel that is drawn again and again.
#[derive(Debug)]
pub struct Ticker {
    last: Option<String>,
    idle: u32,
}

/// The mathematical counterpart of [`Ticker`].
pub struct TickerModel {
    /// What the message says, if it was edited.
    pub last: Option<Seq<char>>,
    /// How often in a row nothing played.
    pub idle: nat,
}

impl View for Ticker {
    type V = TickerModel;

    closed spec fn view(&self) -> TickerModel {
        TickerModel {
            last: match self.last {
                Some(last) => Some(last@),
                None => None,
            },
            idle: self.idle as nat,
        }
    }
}

/// How often in a row nothing played, after another look.
pub open spec fn idle_after(idle: nat, playing: bool) -> nat {
    if playing {
        0
    } else {
        idle + 1
    }
}

/// What to do about a panel, given whether something plays and what a drawing of it says.
pub open spec fn ticked(before: TickerModel, playing: bool, content: Seq<char>) -> Tick {
    if idle_after(before.idle, playing) > IDLE_TICKS {
        Tick::Stop
    } else if before.last == Some(content) {
        Tick::Keep
    } else {
        Tick::Edit
    }
}

impl Ticker {
    /// A panel that was not edited yet.
    pub fn new() -> (out: Ticker)
        ensures
            out@ == (TickerModel { last: None, idle: 0 }),
    {
        Ticker { last: None, idle: 0 }
    }

    /// Looks whether something plays and what a drawing of the panel says.
    pub fn tick(&mut self, playing: bool, content: &str) -> (out: Tick)
        requires
            old(self)@.idle <= IDLE_TICKS,
        ensures
            final(self)@ == (TickerModel {
                last: old(self)@.last,
                idle: idle_after(old(self)@.idle, playing),
            }),
            out == ticked(old(self)@, playing, content@),
            !(out is Stop) ==> final(self)@.idle <= IDLE_TICKS,
    {
        if playing {
            self.idle = 0;
        } else {
            self.idle = self.idle + 1;
            if self.idle > IDLE_TICKS {
                return Tick::Stop;
            }
        }
        match &self.last {
            Some(last) => {
                if chars::same(last.as_str(), content) {
                    Tick::Keep
                } else {
                    Tick::Edit
                }
            },
            None => Tick::Edit,
        }
    }

    /// Takes note of what the message says since it was edited.
    pub fn edited(&mut self, content: String)
        ensures
            final(self)@ == (TickerModel { last: Some(content@), idle: old(self)@.idle }),
    {
        self.last = Some(content);
    }
}

/// A drawing that says the same as the message does not lead to an edit.
pub proof fn the_same_is_not_written_twice(before: TickerModel, playing: bool, content: Seq<char>)
    ensures
        !(ticked(
            TickerModel { last: Some(content), idle: idle_after(before.idle, playing) },
            playing,
            content,
        ) is Edit),
{
}

/// How often in a row nothing played, after so many looks at which nothing played.
pub open spec fn idle_run(idle: nat, looks: nat) -> nat
    decreases looks,
{
    if looks == 0 {
        idle
    } else {
        idle_after(idle_run(idle, (looks - 1) as nat), false)
    }
}

/// A panel at which nothing plays is drawn no more after five minutes, and not before.
pub proof fn a_silent_panel_is_left_alone(looks: nat, last: Option<Seq<char>>, content: Seq<char>)
    ensures
        idle_run(0, looks) == looks,
        ticked(TickerModel { last, idle: idle_run(0, looks) }, false, content) is Stop <==> looks
            >= IDLE_TICKS,
        IDLE_TICKS * TICK_SECS == 5 * 60,
    decreases looks,
{
    if looks > 0 {
        a_silent_panel_is_left_alone((looks - 1) as nat, last, content);
    }
}

/// What the buttons of the first row are there for.
pub open spec fn seeking_presses() -> Seq<Press> {
    seq![
        Press::Seek((-LONG_STEP) as i64),
        Press::Seek((-SHORT_STEP) as i64),
        Press::Toggle,
        Press::Seek(SHORT_STEP),
        Press::Seek(LONG_STEP),
    ]
}

/// What the buttons of the second row are there for.
pub open spec fn queueing_presses() -> Seq<Press> {
    seq![Press::Next, Press::Stop, Press::Refresh]
}

/// Each button of the panel, pressed, is understood as what it is there for.
pub proof fn every_button_is_understood(paused: bool)
    ensures
        seeking_row(paused).len() == seeking_presses().len(),
        forall|i: int|
            0 <= i < seeking_presses().len() ==> pressed(
                (#[trigger] seeking_row(paused)[i]).custom_id,
            ) == Some(seeking_presses()[i]),
        queueing_row().len() == queueing_presses().len(),
        forall|i: int|
            0 <= i < queueing_presses().len() ==> pressed(
                (#[trigger] queueing_row()[i]).custom_id,
            ) == Some(queueing_presses()[i]),
{
    reveal_strlit("back");
    reveal_strlit("forward");
    reveal_strlit("toggle");
    reveal_strlit("next");
    reveal_strlit("stop");
    reveal_strlit("refresh");
    lemma_plain("toggle"@);
    lemma_plain("next"@);
    lemma_plain("stop"@);
    lemma_plain("refresh"@);
    assert("next"@[0] != "back"@[0] && "stop"@[0] != "back"@[0] && "stop"@[0] != "next"@[0]);
    assert("refresh"@[0] != "forward"@[0]);
    lemma_seek((-LONG_STEP) as i64);
    lemma_seek((-SHORT_STEP) as i64);
    lemma_seek(SHORT_STEP);
    lemma_seek(LONG_STEP);
}

/// Whatever identifier a button has, made by the bot or not, it never seeks farther than the longer
/// of the two widths.
pub proof fn no_button_seeks_far(custom_id: Seq<char>)
    ensures
        pressed(custom_id) matches Some(Press::Seek(secs)) ==> -LONG_STEP <= secs <= LONG_STEP,
{
}

/// An action behind the prefix is found there.
proof fn lemma_plain(action: Seq<char>)
    ensures
        chars::begins(PREFIX@ + action, PREFIX@),
        (PREFIX@ + action).skip(PREFIX@.len() as int) == action,
{
    let id = PREFIX@ + action;
    assert(id.skip(PREFIX@.len() as int) =~= action);
    assert(id.subrange(0, PREFIX@.len() as int) =~= PREFIX@);
}

/// A button whose identifier says by how many seconds it seeks does exactly that, up to a minute in
/// either direction; beyond that it does nothing.
pub proof fn a_button_seeks_as_it_says(secs: i64)
    ensures
        pressed(PREFIX@ + SEEK@ + chars::signed_decimal(secs as int)) == if -60 <= secs <= 60 {
            Some(Press::Seek(secs))
        } else {
            None
        },
{
    lemma_seek_read(secs);
}

/// The buttons of older panels seek by ten seconds, and what does not begin as a button of the panel is
/// none.
pub proof fn older_buttons_go_on_working(other: Seq<char>)
    requires
        !chars::begins(other, "music:"@),
    ensures
        pressed("music:back"@) == Some(Press::Seek((-10) as i64)),
        pressed("music:forward"@) == Some(Press::Seek(10)),
        pressed(other) is None,
{
    reveal_strlit("music:back");
    reveal_strlit("music:forward");
    reveal_strlit("music:");
    reveal_strlit("back");
    reveal_strlit("forward");
    assert("music:back"@ =~= PREFIX@ + "back"@);
    assert("music:forward"@ =~= PREFIX@ + "forward"@);
    lemma_plain("back"@);
    lemma_plain("forward"@);
}

/// The seconds of a button that seeks are read.
proof fn lemma_seek_read(secs: i64)
    ensures
        pressed(PREFIX@ + SEEK@ + chars::signed_decimal(secs as int)) == if -LONG_STEP <= secs
            <= LONG_STEP {
            Some(Press::Seek(secs))
        } else {
            None
        },
{
    let digits = chars::signed_decimal(secs as int);
    let id = PREFIX@ + SEEK@ + digits;
    assert(id =~= PREFIX@ + (SEEK@ + digits));
    lemma_plain(SEEK@ + digits);
    let action = SEEK@ + digits;
    assert(action.subrange(0, SEEK@.len() as int) =~= SEEK@);
    assert(action.skip(SEEK@.len() as int) =~= digits);
    chars::signed_decimal_reads_back(secs);
    reveal_strlit("seek:");
    reveal_strlit("back");
    reveal_strlit("forward");
    reveal_strlit("toggle");
    reveal_strlit("next");
    reveal_strlit("stop");
    reveal_strlit("refresh");
    assert(action[4] == ':');
    assert("forward"@[4] != ':');
    assert("toggle"@[4] != ':');
    assert("refresh"@[4] != ':');
    assert(action.len() > 4);
}

/// A button of the bot that seeks is read as what it is there for.
proof fn lemma_seek(secs: i64)
    requires
        -LONG_STEP <= secs <= LONG_STEP,
    ensures
        pressed(seek_button(secs as int).custom_id) == Some(Press::Seek(secs)),
{
    lemma_seek_read(secs);
}

/// What a button that seeks shows: an arrow to the side it goes to, and the seconds without a sign.
pub proof fn a_button_shows_where_it_goes(secs: nat)
    requires
        secs > 0,
    ensures
        seek_button(secs as int).emoji == '⏩',
        seek_button(-secs).emoji == '⏪',
        seek_button(secs as int).label == chars::decimal(secs) + "秒"@,
        seek_button(-secs).label == seek_button(secs as int).label,
        seek_button(-secs).style == seek_button(secs as int).style,
{
}

/// The button in the middle offers what is not the case: to go on where the track is paused, and to
/// pause where it plays. The others do not depend on it.
pub proof fn the_middle_button_offers_the_change()
    ensures
        seeking_row(true)[2].label == "再開"@,
        seeking_row(false)[2].label == "一時停止"@,
        seeking_row(true)[2].custom_id == seeking_row(false)[2].custom_id,
        forall|i: int|
            0 <= i < 5 && i != 2 ==> #[trigger] seeking_row(true)[i] == seeking_row(false)[i],
{
}

/// The panel says whether the track that plays is paused, which it is, how far it is and how loud it
/// is. Each track that joins the queue adds a line with its place, up to five. Where nothing plays,
/// the panel says so, whatever waits.
pub proof fn the_panel_tells_what_plays(
    now: NowPlaying,
    tracks: Seq<music::TrackModel>,
    track: music::TrackModel,
    percent: nat,
)
    ensures
        chars::begins(
            drawn(Some(now), tracks, percent),
            "**音楽コントロール**（音量 "@ + chars::decimal(percent) + "%）\n"@ + if now.paused {
                "⏸ 一時停止中: **"@
            } else {
                "▶ 再生中: **"@
            } + music::linked(now.track@) + "**\n"@ + music::progress(now.position, now.duration),
        ),
        tracks.len() <= 1 ==> chars::ends(
            drawn(Some(now), tracks, percent),
            music::progress(now.position, now.duration),
        ),
        1 <= tracks.len() <= 5 ==> drawn(Some(now), tracks.push(track), percent) == drawn(
            Some(now),
            tracks,
            percent,
        ) + "\n"@ + chars::decimal(tracks.len() + 1) + ". "@ + music::linked(track),
        tracks.len() > 6 ==> drawn(Some(now), tracks, percent) == drawn(
            Some(now),
            tracks.take(6),
            percent,
        ) + "\n…ほか "@ + chars::decimal((tracks.len() - 6) as nat) + " 件"@,
        drawn(None, tracks, percent)
            == "**音楽コントロール**\n再生していません。`/play` で追加してください。"@,
{
    let bar = music::progress(now.position, now.duration);
    let front = lemma_panel_front(now, percent);
    let rest = reply::waiting(tracks, 5);
    reply::what_waits_is_listed(tracks, track, 5);
    chars::a_part_stands_where_it_was_put(front + bar, rest, rest);
    if tracks.len() <= 1 {
        assert(front + bar + rest =~= front + bar);
        chars::a_part_stands_where_it_was_put(front, front, bar);
    }
    if 1 <= tracks.len() <= 5 {
        let number = chars::decimal(tracks.len() + 1);
        let link = music::linked(track);
        chars::lemma_grouping(front + bar, rest + "\n"@ + number + ". "@, link);
        chars::lemma_grouping(front + bar, rest + "\n"@ + number, ". "@);
        chars::lemma_grouping(front + bar, rest + "\n"@, number);
        chars::lemma_grouping(front + bar, rest, "\n"@);
    }
    if tracks.len() > 6 {
        let number = chars::decimal((tracks.len() - 6) as nat);
        let first = reply::waiting(tracks.take(6), 5);
        chars::lemma_grouping(front + bar, first + "\n…ほか "@ + number, " 件"@);
        chars::lemma_grouping(front + bar, first + "\n…ほか "@, number);
        chars::lemma_grouping(front + bar, first, "\n…ほか "@);
    }
}

/// What the panel says before the progress.
proof fn lemma_panel_front(now: NowPlaying, percent: nat) -> (front: Seq<char>)
    ensures
        front == "**音楽コントロール**（音量 "@ + chars::decimal(percent) + "%）\n"@ + (if now.paused {
            "⏸ 一時停止中: **"@
        } else {
            "▶ 再生中: **"@
        }) + music::linked(now.track@) + "**\n"@,
        forall|tracks: Seq<music::TrackModel>| #[trigger]
            drawn(Some(now), tracks, percent) == front + music::progress(now.position, now.duration)
                + reply::waiting(tracks, 5),
{
    reveal_strlit("⏸ 一時停止中: **");
    reveal_strlit("▶ 再生中: **");
    reveal_strlit("⏸ 一時停止中");
    reveal_strlit("▶ 再生中");
    reveal_strlit(": **");
    let head = "**音楽コントロール**（音量 "@ + chars::decimal(percent) + "%）\n"@;
    let short = if now.paused {
        "⏸ 一時停止中"@
    } else {
        "▶ 再生中"@
    };
    let state = if now.paused {
        "⏸ 一時停止中: **"@
    } else {
        "▶ 再生中: **"@
    };
    assert(short + ": **"@ =~= state);
    chars::lemma_grouping(head, short, ": **"@);
    head + state + music::linked(now.track@) + "**\n"@
}

} // verus!
