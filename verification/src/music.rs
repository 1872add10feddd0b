//! Music: where it comes from, how it is shown, and where a seek lands.

use std::collections::HashMap;
use std::time::Duration;

use vstd::prelude::*;

use crate::chars;
use crate::clock;
use crate::nicovideo;
use crate::nicovideo::Metadata;

verus! {

/// What is shown for a track of which nothing is known.
pub const UNKNOWN_TITLE: &'static str = "（タイトル不明）";

/// How much of a track a seek leaves, so that the track does not end at once: three seconds.
pub const SEEK_TAIL_MARGIN_SECS: u64 = 3;

/// How many tracks of a playlist are queued at once.
pub const PLAYLIST_LIMIT: usize = 50;

/// The number of cells of the progress bar.
pub const BAR_CELLS: usize = 15;

/// One track in a list.
#[derive(Debug)]
pub struct QueuedTrack {
    pub title: String,
    pub url: Option<String>,
}

/// The mathematical counterpart of [`QueuedTrack`].
pub struct TrackModel {
    pub title: Seq<char>,
    pub url: Option<Seq<char>>,
}

impl View for QueuedTrack {
    type V = TrackModel;

    open spec fn view(&self) -> TrackModel {
        TrackModel { title: self.title@, url: nicovideo::text_of(self.url) }
    }
}

impl Clone for QueuedTrack {
    fn clone(&self) -> (out: QueuedTrack)
        ensures
            out@ == self@,
    {
        QueuedTrack { title: self.title.clone(), url: nicovideo::copy_of(&self.url) }
    }
}

/// The result of queueing a track.
#[derive(Debug)]
pub struct Queued {
    pub track: QueuedTrack,
    /// The place in the queue. At 1 the track plays at once.
    pub position: usize,
}

/// The result of queueing a playlist.
#[derive(Debug, Clone, Copy, PartialEq, Eq, Structural)]
pub struct PlaylistQueued {
    /// How many tracks were queued.
    pub queued: usize,
    /// How many were left out because of [`PLAYLIST_LIMIT`].
    pub skipped: usize,
    /// How many turned out not to be playable. Only Niconico tracks are tried beforehand.
    pub unplayable: usize,
}

/// The track that plays, as far as it is shown.
#[derive(Debug)]
pub struct NowPlaying {
    pub track: QueuedTrack,
    pub position: Duration,
    /// Unknown for live streams, for example.
    pub duration: Option<Duration>,
    pub paused: bool,
}

/// A track of the queue ended by itself.
#[derive(Debug)]
pub struct TrackChanged {
    pub guild_id: u64,
    pub finished: QueuedTrack,
    /// What plays now. Without it the queue has run out.
    pub next: Option<QueuedTrack>,
}

/// The mathematical counterpart of [`TrackChanged`].
pub struct ChangeModel {
    pub guild_id: u64,
    pub finished: TrackModel,
    pub next: Option<TrackModel>,
}

impl View for TrackChanged {
    type V = ChangeModel;

    open spec fn view(&self) -> ChangeModel {
        ChangeModel {
            guild_id: self.guild_id,
            finished: self.finished@,
            next: match self.next {
                Some(next) => Some(next@),
                None => None,
            },
        }
    }
}

/// Whether `c` means something in Discord's markup.
pub open spec fn is_markup(c: char) -> bool {
    c == '\\' || c == '*' || c == '_' || c == '~' || c == '`' || c == '|' || c == '[' || c == ']'
        || c == '<' || c == '>'
}

/// `s` with a backslash before every markup character.
pub open spec fn escaped(s: Seq<char>) -> Seq<char>
    decreases s.len(),
{
    if s.len() == 0 {
        s
    } else if is_markup(s[0]) {
        seq!['\\', s[0]] + escaped(s.skip(1))
    } else {
        seq![s[0]] + escaped(s.skip(1))
    }
}

/// What Discord shows of an escaped text: a backslash gives way to the character behind it.
pub open spec fn displayed(s: Seq<char>) -> Seq<char>
    decreases s.len(),
{
    if s.len() == 0 {
        s
    } else if s[0] == '\\' && s.len() > 1 {
        seq![s[1]] + displayed(s.skip(2))
    } else {
        seq![s[0]] + displayed(s.skip(1))
    }
}

/// Whether every markup character of `s` stands behind a backslash that is there for it.
pub open spec fn is_harmless(s: Seq<char>) -> bool
    decreases s.len(),
{
    if s.len() == 0 {
        true
    } else if s[0] == '\\' {
        s.len() > 1 && is_harmless(s.skip(2))
    } else {
        !is_markup(s[0]) && is_harmless(s.skip(1))
    }
}

/// An escaped title shows as the title that it was, and no character of it acts as markup.
pub proof fn escaping_only_disarms(s: Seq<char>)
    ensures
        displayed(escaped(s)) == s,
        is_harmless(escaped(s)),
    decreases s.len(),
{
    if s.len() > 0 {
        let rest = s.skip(1);
        escaping_only_disarms(rest);
        let e = escaped(s);
        if is_markup(s[0]) {
            assert(e.skip(2) == escaped(rest));
        } else {
            assert(e.skip(1) == escaped(rest));
        }
        assert(seq![s[0]] + rest == s);
    }
}

/// Disarms Discord's markup in `text`.
pub fn escape_markdown(text: &str) -> (out: String)
    ensures
        out@ == escaped(text@),
{
    let all = chars::to_chars(text);
    let mut out = String::new();
    let mut i: usize = 0;
    assert(all@.skip(0) == all@);
    while i < all.len()
        invariant
            i <= all.len(),
            out@ + escaped(all@.skip(i as int)) == escaped(all@),
        decreases all.len() - i,
    {
        let c = all[i];
        let ghost before = out@;
        assert(all@.skip(i as int).skip(1) == all@.skip(i + 1));
        if c == '\\' || c == '*' || c == '_' || c == '~' || c == '`' || c == '|' || c == '[' || c
            == ']' || c == '<' || c == '>' {
            out.push('\\');
        }
        out.push(c);
        i = i + 1;
        assert(before + escaped(all@.skip(i - 1)) == out@ + escaped(all@.skip(i as int)));
    }
    assert(out@ + all@.skip(i as int) == out@);
    out
}

/// Whether a link can hold `url` as it is: a web address without brackets and blanks.
pub open spec fn is_linkable(url: Seq<char>) -> bool {
    &&& chars::begins(url, "https://"@) || chars::begins(url, "http://"@)
    &&& forall|i: int|
        0 <= i < url.len() ==> !seq!['(', ')', ' ', '\n', '\t', '<', '>'].contains(
            #[trigger] url[i],
        )
}

/// Whether a link can hold `url` as it is.
pub fn is_safe_link(url: &str) -> (out: bool)
    ensures
        out == is_linkable(url@),
{
    if !chars::starts_with(url, "https://") && !chars::starts_with(url, "http://") {
        return false;
    }
    let all = chars::to_chars(url);
    let bad: [char; 7] = ['(', ')', ' ', '\n', '\t', '<', '>'];
    assert(bad@ == seq!['(', ')', ' ', '\n', '\t', '<', '>']);
    let end: usize = chars::find_stop(all.as_slice(), &bad);
    proof {
        chars::lemma_first_stop(all@, bad@);
    }
    end == all.len()
}

/// A title that leads to its page where the page can be linked.
pub open spec fn linked(track: TrackModel) -> Seq<char> {
    match track.url {
        Some(url) if is_linkable(url) => "["@ + escaped(track.title) + "](<"@ + url + ">)"@,
        _ => escaped(track.title),
    }
}

/// `title` as a link to `url`, or alone where there is no usable address. The angle brackets keep
/// Discord from showing a preview of the page.
pub fn track_link(title: &str, url: Option<&str>) -> (out: String)
    ensures
        out@ == linked(
            TrackModel {
                title: title@,
                url: match url {
                    Some(url) => Some(url@),
                    None => None,
                },
            },
        ),
{
    let label = escape_markdown(title);
    match url {
        Some(url) => {
            if is_safe_link(url) {
                "[".to_owned().concat(label.as_str()).concat("](<").concat(url).concat(">)")
            } else {
                label
            }
        },
        None => label,
    }
}

impl QueuedTrack {
    /// The title as a link to the page of the track.
    pub fn link(&self) -> (out: String)
        ensures
            out@ == linked(self@),
    {
        match &self.url {
            Some(url) => track_link(self.title.as_str(), Some(url.as_str())),
            None => track_link(self.title.as_str(), None),
        }
    }
}

/// Seconds as `m:ss`, or `h:mm:ss` from an hour on.
pub open spec fn clock_face(secs: nat) -> Seq<char> {
    let hours = secs / 3600;
    let minutes = secs % 3600 / 60;
    let seconds = secs % 60;
    if hours > 0 {
        chars::decimal(hours) + ":"@ + chars::two_digits(minutes) + ":"@ + chars::two_digits(
            seconds,
        )
    } else {
        chars::decimal(minutes) + ":"@ + chars::two_digits(seconds)
    }
}

/// The parts of a text between its colons.
pub open spec fn colon_parts(s: Seq<char>) -> Seq<Seq<char>>
    decreases s.len(),
{
    let colon = chars::last_index(s, ':');
    if colon < 0 {
        seq![s]
    } else {
        proof {
            chars::lemma_last_index(s, ':');
        }
        colon_parts(s.take(colon)).push(s.skip(colon + 1))
    }
}

/// The number that decimal numbers make as digits to the base of sixty.
pub open spec fn sexagesimal(parts: Seq<Seq<char>>) -> nat
    decreases parts.len(),
{
    if parts.len() == 0 {
        0
    } else {
        sexagesimal(parts.drop_last()) * 60 + chars::number(parts.last())
    }
}

/// Digits behind a colon are the last part.
proof fn lemma_colon_parts(head: Seq<char>, digits: Seq<char>)
    requires
        chars::all_digits(digits),
    ensures
        colon_parts(digits) == seq![digits],
        colon_parts(head + ":"@ + digits) == colon_parts(head).push(digits),
{
    reveal_strlit(":");
    let s = head + ":"@ + digits;
    chars::lemma_last_index(digits, ':');
    chars::lemma_last_index(s, ':');
    assert(s[head.len() as int] == ':');
    assert forall|i: int| head.len() < i < s.len() implies s[i] != ':' by {
        assert(s[i] == digits[i - head.len() - 1]);
        assert(chars::is_digit(digits[i - head.len() - 1]));
    }
    let colon = chars::last_index(digits, ':');
    if colon >= 0 {
        assert(chars::is_digit(digits[colon]));
    }
    assert(s.take(head.len() as int) == head);
    assert(s.skip(head.len() as int + 1) == digits);
}

/// A number below sixty in two digits reads back.
proof fn lemma_two_digits(n: nat)
    requires
        n < 60,
    ensures
        chars::two_digits(n).len() == 2,
        chars::all_digits(chars::two_digits(n)),
        chars::number(chars::two_digits(n)) == n,
{
    reveal_with_fuel(chars::decimal, 3);
    reveal_with_fuel(chars::number, 3);
    chars::lemma_decimal_digits(n);
    let shown = chars::two_digits(n);
    assert(shown.len() == 2);
    assert(shown.drop_last().drop_last() == Seq::<char>::empty());
}

/// A time that is shown reads back: its parts are the digits of the seconds to the base of sixty.
/// There are three parts from an hour on and two below. The first is not padded, and each of the
/// others is two digits that make less than sixty.
pub proof fn a_shown_time_reads_back(secs: nat)
    ensures
        ({
            let parts = colon_parts(clock_face(secs));
            &&& sexagesimal(parts) == secs
            &&& parts.len() == if secs >= 3600 {
                3nat
            } else {
                2nat
            }
            &&& parts[0] == chars::decimal(chars::number(parts[0]))
            &&& forall|i: int|
                1 <= i < parts.len() ==> {
                    &&& (#[trigger] parts[i]).len() == 2
                    &&& chars::all_digits(parts[i])
                    &&& chars::number(parts[i]) < 60
                }
        }),
{
    let hours = secs / 3600;
    let minutes = secs % 3600 / 60;
    let seconds = secs % 60;
    reveal_with_fuel(sexagesimal, 4);
    lemma_two_digits(minutes);
    lemma_two_digits(seconds);
    chars::lemma_decimal_digits(hours);
    chars::lemma_decimal_digits(minutes);
    let second = chars::two_digits(seconds);
    if hours > 0 {
        let hour = chars::decimal(hours);
        let minute = chars::two_digits(minutes);
        lemma_colon_parts(hour + ":"@ + minute, second);
        lemma_colon_parts(hour, minute);
        lemma_colon_parts(Seq::empty(), hour);
        let parts = colon_parts(clock_face(secs));
        assert(parts == seq![hour, minute, second]);
        assert(parts.drop_last() == seq![hour, minute]);
        assert(seq![hour, minute].drop_last() == seq![hour]);
        assert(seq![hour].drop_last() == Seq::<Seq<char>>::empty());
        assert(secs == (hours * 60 + minutes) * 60 + seconds);
    } else {
        let minute = chars::decimal(minutes);
        lemma_colon_parts(minute, second);
        lemma_colon_parts(Seq::empty(), minute);
        let parts = colon_parts(clock_face(secs));
        assert(parts == seq![minute, second]);
        assert(parts.drop_last() == seq![minute]);
        assert(seq![minute].drop_last() == Seq::<Seq<char>>::empty());
        assert(secs == minutes * 60 + seconds);
    }
}

/// Two times are shown alike exactly when they have the same seconds.
pub proof fn times_are_shown_apart(a: nat, b: nat)
    ensures
        clock_face(a) == clock_face(b) <==> a == b,
{
    a_shown_time_reads_back(a);
    a_shown_time_reads_back(b);
}

/// `value` as `m:ss`, or `h:mm:ss` from an hour on.
pub fn format_time(value: Duration) -> (out: String)
    ensures
        out@ == clock_face(clock::whole_secs(value)),
{
    let total: u64 = value.as_secs();
    let hours: u64 = total / 3600;
    let minutes: u64 = total % 3600 / 60;
    let seconds: u64 = total % 60;
    if hours > 0 {
        let minutes = chars::two_digit_text(minutes);
        let seconds = chars::two_digit_text(seconds);
        chars::decimal_text(hours).concat(":").concat(minutes.as_str()).concat(":").concat(
            seconds.as_str(),
        )
    } else {
        let seconds = chars::two_digit_text(seconds);
        chars::decimal_text(minutes).concat(":").concat(seconds.as_str())
    }
}

/// The cell that the knob stands on: the share of the track that has played, in cells, rounded
/// down; the last cell from there on.
pub open spec fn knob(position: nat, total: nat) -> nat {
    let cell = position * BAR_CELLS as nat / total;
    if cell < BAR_CELLS {
        cell
    } else {
        (BAR_CELLS - 1) as nat
    }
}

/// A bar of cells with the knob on one of them.
pub open spec fn bar(knob: nat) -> Seq<char> {
    Seq::new(
        BAR_CELLS as nat,
        |i: int|
            if i == knob {
                '◉'
            } else {
                '▬'
            },
    )
}

/// The shorter of two lengths of time.
pub open spec fn shorter(a: Duration, b: Duration) -> Duration {
    if clock::nanos(a) <= clock::nanos(b) {
        a
    } else {
        b
    }
}

/// How far a track has played: a bar with the times, or the time alone where the length is not
/// known.
pub open spec fn progress(position: Duration, total: Option<Duration>) -> Seq<char> {
    match total {
        Some(total) if clock::nanos(total) > 0 => {
            let played = shorter(position, total);
            bar(knob(clock::nanos(played), clock::nanos(total))) + "  "@ + clock_face(
                clock::whole_secs(played),
            ) + " / "@ + clock_face(clock::whole_secs(total))
        },
        _ => clock_face(clock::whole_secs(position)) + "（長さ不明）"@,
    }
}

/// Draws the bar with the knob on one cell.
fn draw_bar(knob: usize) -> (out: String)
    ensures
        out@ == bar(knob as nat),
{
    let mut out = String::new();
    let mut i: usize = 0;
    while i < BAR_CELLS
        invariant
            i <= BAR_CELLS,
            out@ == bar(knob as nat).take(i as int),
        decreases BAR_CELLS - i,
    {
        if i == knob {
            out.push('◉');
        } else {
            out.push('▬');
        }
        i = i + 1;
        assert(bar(knob as nat).take(i as int) == bar(knob as nat).take(i - 1).push(
            bar(knob as nat)[i - 1],
        ));
    }
    assert(bar(knob as nat).take(i as int) == bar(knob as nat));
    out
}

/// `▬▬▬◉▬▬▬  2:14 / 4:52`, or the elapsed time alone for a track of unknown length.
pub fn progress_bar(position: Duration, total: Option<Duration>) -> (out: String)
    ensures
        out@ == progress(position, total),
{
    let total = match total {
        Some(total) => total,
        None => return format_time(position).concat("（長さ不明）"),
    };
    let whole: u128 = clock::to_nanos(total);
    if whole == 0 {
        return format_time(position).concat("（長さ不明）");
    }
    let mut played = position;
    let mut part: u128 = clock::to_nanos(position);
    if part > whole {
        played = total;
        part = whole;
    }
    let cells: u128 = BAR_CELLS as u128;
    assert(part * cells <= u128::MAX) by (nonlinear_arith)
        requires
            part <= u64::MAX * 1_000_000_000 + 999_999_999,
            cells == 15,
    ;
    let cell: u128 = part * cells / whole;
    let filled: usize = if cell < cells {
        cell as usize
    } else {
        BAR_CELLS - 1
    };
    let bar = draw_bar(filled);
    let elapsed = format_time(played);
    let length = format_time(total);
    bar.concat("  ").concat(elapsed.as_str()).concat(" / ").concat(length.as_str())
}

/// The bar always has the same number of cells, and the knob stands on exactly one of them.
pub proof fn the_bar_has_one_knob(position: nat, total: nat)
    requires
        total > 0,
    ensures
        knob(position, total) < BAR_CELLS,
        bar(knob(position, total)).len() == BAR_CELLS,
        forall|i: int|
            0 <= i < BAR_CELLS ==> (#[trigger] bar(knob(position, total))[i] == '◉' <==> i == knob(
                position,
                total,
            )),
{
}

/// The knob starts on the first cell, never moves back while a track plays on, and is on the last
/// cell at the end.
pub proof fn the_knob_moves_forward(earlier: nat, later: nat, total: nat)
    requires
        total > 0,
        earlier <= later,
    ensures
        knob(0, total) == 0,
        knob(earlier, total) <= knob(later, total),
        later >= total ==> knob(later, total) == BAR_CELLS - 1,
{
    assert(0nat * BAR_CELLS as nat / total == 0) by (nonlinear_arith)
        requires
            total > 0,
    ;
    assert(earlier * 15nat / total <= later * 15nat / total) by (nonlinear_arith)
        requires
            total > 0,
            earlier <= later,
    ;
    if later >= total {
        assert(later * 15nat / total >= 15) by (nonlinear_arith)
            requires
                total > 0,
                later >= total,
        ;
    }
}

/// Whether an address is the page of a playlist: a Niconico list or series, or a YouTube playlist
/// page. A page that plays one track of a list is not meant.
pub open spec fn leads_to_playlist(url: Seq<char>) -> bool {
    let path = chars::until(url, seq!['?', '#']);
    match nicovideo::host(url) {
        Some(host) => if host == "nicovideo.jp"@ || chars::ends(host, ".nicovideo.jp"@) {
            chars::occurs(path, "/mylist/"@) || chars::occurs(path, "/series/"@)
        } else if host == "youtube.com"@ || host == "www.youtube.com"@ || host
            == "m.youtube.com"@ {
            chars::occurs(path, "/playlist"@) && chars::occurs(url, "list="@)
        } else {
            false
        },
        None => false,
    }
}

/// Whether `url` is the page of a playlist.
pub fn is_playlist_url(url: &str) -> (out: bool)
    ensures
        out == leads_to_playlist(url@),
{
    let host = match nicovideo::host_of(url) {
        Some(host) => host,
        None => return false,
    };
    let host = host.as_str();
    let all = chars::to_chars(url);
    let stops: [char; 2] = ['?', '#'];
    assert(stops@ == seq!['?', '#']);
    let end: usize = chars::find_stop(all.as_slice(), &stops);
    let head = vstd::slice::slice_subrange(all.as_slice(), 0, end);
    assert(head@ == chars::until(url@, seq!['?', '#']));
    let path = chars::from_chars(head);
    let path = path.as_str();
    if chars::same(host, "nicovideo.jp") || chars::ends_with(host, ".nicovideo.jp") {
        return chars::contains(path, "/mylist/") || chars::contains(path, "/series/");
    }
    if chars::same(host, "youtube.com") || chars::same(host, "www.youtube.com") || chars::same(
        host,
        "m.youtube.com",
    ) {
        return chars::contains(path, "/playlist") && chars::contains(url, "list=");
    }
    false
}

/// One line of a playlist as the downloader lists it. Which fields are there depends on its
/// version.
#[derive(Debug)]
pub struct FlatEntry {
    pub title: Option<String>,
    pub id: Option<String>,
    /// Sometimes just the identifier of the video.
    pub url: Option<String>,
    pub webpage_url: Option<String>,
    pub duration: Option<Duration>,
}

impl FlatEntry {
    /// The address of the track: a page or an address that the line gives, or one made from the
    /// identifier.
    pub open spec fn address(self, nicovideo_playlist: bool) -> Option<Seq<char>> {
        let watch = if nicovideo_playlist {
            "https://www.nicovideo.jp/watch/"@
        } else {
            "https://www.youtube.com/watch?v="@
        };
        match (self.webpage_url, self.url, self.id) {
            (Some(page), _, _) if chars::begins(page@, "http"@) => Some(page@),
            (_, Some(url), _) if chars::begins(url@, "http"@) => Some(url@),
            (_, _, Some(id)) => Some(watch + id@),
            (_, Some(url), None) => Some(watch + url@),
            _ => None,
        }
    }

    /// The address of the track, if it has one.
    pub fn resolve_url(&self, nicovideo_playlist: bool) -> (out: Option<String>)
        ensures
            nicovideo::text_of(out) == self.address(nicovideo_playlist),
    {
        if let Some(page) = &self.webpage_url {
            if chars::starts_with(page.as_str(), "http") {
                return Some(page.clone());
            }
        }
        if let Some(url) = &self.url {
            if chars::starts_with(url.as_str(), "http") {
                return Some(url.clone());
            }
        }
        let id = match (&self.id, &self.url) {
            (Some(id), _) => id,
            (None, Some(url)) => url,
            (None, None) => return None,
        };
        let watch = if nicovideo_playlist {
            "https://www.nicovideo.jp/watch/"
        } else {
            "https://www.youtube.com/watch?v="
        };
        Some(watch.to_owned().concat(id.as_str()))
    }
}

/// Where a request to play something is looked up.
#[derive(Debug, Clone, Copy, PartialEq, Eq, Structural)]
pub enum Source {
    /// A Niconico video, which the downloader itself has to fetch.
    NicoVideo,
    /// An address.
    Address,
    /// Words to search for.
    Search,
}

/// Whether a request is an address.
pub open spec fn is_address(query: Seq<char>) -> bool {
    chars::begins(query, "http://"@) || chars::begins(query, "https://"@)
}

/// Where a request is looked up.
pub open spec fn source(query: Seq<char>) -> Source {
    if nicovideo::leads_to_nicovideo(query) {
        Source::NicoVideo
    } else if is_address(query) {
        Source::Address
    } else {
        Source::Search
    }
}

/// Where `query` is looked up.
pub fn source_of(query: &str) -> (out: Source)
    ensures
        out == source(query@),
{
    if nicovideo::is_nicovideo(query) {
        Source::NicoVideo
    } else if chars::starts_with(query, "http://") || chars::starts_with(query, "https://") {
        Source::Address
    } else {
        Source::Search
    }
}

/// What is kept about a queued track.
#[derive(Debug)]
pub struct TrackInfo {
    pub title: String,
    /// Unknown for live streams, for example.
    pub duration: Option<Duration>,
    /// The page of the track. For a search, the page of what was found.
    pub url: Option<String>,
}

/// The mathematical counterpart of [`TrackInfo`].
pub struct InfoModel {
    pub title: Seq<char>,
    pub duration: Option<Duration>,
    pub url: Option<Seq<char>>,
}

impl View for TrackInfo {
    type V = InfoModel;

    open spec fn view(&self) -> InfoModel {
        InfoModel {
            title: self.title@,
            duration: self.duration,
            url: nicovideo::text_of(self.url),
        }
    }
}

impl InfoModel {
    /// The track as it is listed.
    pub open spec fn track(self) -> TrackModel {
        TrackModel { title: self.title, url: self.url }
    }
}

/// A track of which nothing is known.
pub open spec fn unknown() -> TrackModel {
    TrackModel { title: UNKNOWN_TITLE@, url: None }
}

impl TrackInfo {
    /// The track as it is listed.
    pub fn as_queued(&self) -> (out: QueuedTrack)
        ensures
            out@ == self@.track(),
    {
        QueuedTrack { title: self.title.clone(), url: nicovideo::copy_of(&self.url) }
    }

    /// The listing of a track of which nothing is known.
    pub fn unknown_track() -> (out: QueuedTrack)
        ensures
            out@ == unknown(),
    {
        QueuedTrack { title: UNKNOWN_TITLE.to_owned(), url: None }
    }
}

/// The first of two texts that is there.
pub open spec fn either(a: Option<Seq<char>>, b: Option<Seq<char>>) -> Option<Seq<char>> {
    if a is Some {
        a
    } else {
        b
    }
}

/// What is kept about a track requested as `query`, given what was found out about it. Without a
/// title the request stands for it; a request that is an address stands for a missing page.
pub open spec fn described(
    query: Seq<char>,
    metadata: Option<nicovideo::MetadataModel>,
) -> InfoModel {
    let asked = if is_address(query) {
        Some(query)
    } else {
        None
    };
    match metadata {
        Some(found) => InfoModel {
            title: match found.title {
                Some(title) => title,
                None => query,
            },
            duration: found.duration,
            url: either(found.source_url, asked),
        },
        None => InfoModel { title: query, duration: None, url: asked },
    }
}

/// A track that plays, as the player reports it.
#[derive(Debug, Clone, Copy)]
pub struct Playing {
    pub uuid: u128,
    pub position: Duration,
    pub paused: bool,
}

/// The length of time nearest to `nanos` nanoseconds.
pub open spec fn held(nanos: int) -> nat {
    if nanos < 0 {
        0
    } else if nanos > clock::max_nanos() {
        clock::max_nanos()
    } else {
        nanos as nat
    }
}

/// Where a seek lands, in nanoseconds: as far off as asked within what a time can hold, and short
/// of the end of a track of known length.
pub open spec fn landing(position: nat, delta_secs: int, total: Option<nat>) -> nat {
    let margin = SEEK_TAIL_MARGIN_SECS * clock::NANOS_PER_SEC;
    let target = held(position + delta_secs * clock::NANOS_PER_SEC);
    match total {
        Some(total) if held(target + margin) > total => held(total - margin),
        _ => target,
    }
}

/// The length of time nearest to `nanos` nanoseconds.
fn hold(nanos: i128) -> (out: i128)
    ensures
        out == held(nanos as int),
{
    let most: i128 = u64::MAX as i128 * 1_000_000_000 + 999_999_999;
    if nanos < 0 {
        0
    } else if nanos > most {
        most
    } else {
        nanos
    }
}

/// In a track of known length, short of the longest length that there is, a seek lands inside the
/// track and leaves the margin at its end, or goes back to the start of a track that is no longer
/// than the margin.
pub proof fn a_seek_does_not_end_the_track(position: nat, delta_secs: int, total: nat)
    requires
        total < clock::max_nanos(),
    ensures
        landing(position, delta_secs, Some(total)) <= total,
        landing(position, delta_secs, Some(total)) == 0 || landing(
            position,
            delta_secs,
            Some(total),
        ) + SEEK_TAIL_MARGIN_SECS * clock::NANOS_PER_SEC <= total,
{
}

/// What to do with a queue whose pause is switched.
#[derive(Debug, Clone, Copy, PartialEq, Eq, Structural)]
pub enum Toggle {
    Pause,
    Resume,
}

/// What to do to take a track out of a queue.
#[derive(Debug, Clone, Copy, PartialEq, Eq, Structural)]
pub enum Removal {
    /// There is no such track.
    Nothing,
    /// The track plays: go on to the next.
    Skip,
    /// Take out the track at this place, counted from 0.
    Dequeue(usize),
}

/// What is known of tracks, by their identifiers.
#[derive(Debug)]
struct Tracks {
    rows: HashMap<u128, TrackInfo>,
}

impl View for Tracks {
    type V = Map<u128, InfoModel>;

    closed spec fn view(&self) -> Map<u128, InfoModel> {
        self.rows@.map_values(|info: TrackInfo| info@)
    }
}

/// What is known of the tracks of a player's queues. Each guild has a queue of its own, and the
/// tracks of all guilds stand in one table.
#[derive(Debug)]
pub struct Manager {
    tracks: Tracks,
}

/// A track as it is listed.
pub open spec fn listed(known: Map<u128, InfoModel>, uuid: u128) -> TrackModel {
    if known.contains_key(uuid) {
        known[uuid].track()
    } else {
        unknown()
    }
}

/// The length of a track, as far as it is known.
pub open spec fn length_of(known: Map<u128, InfoModel>, uuid: u128) -> Option<Duration> {
    if known.contains_key(uuid) {
        known[uuid].duration
    } else {
        None
    }
}

/// What is still known of the tracks once a queue of so many tracks was stopped by hand.
pub open spec fn left_after_stop(known: Map<u128, InfoModel>, length: nat) -> Map<u128, InfoModel> {
    if length > 0 {
        Map::empty()
    } else {
        known
    }
}

/// What there is to announce when a track ends while another plays or none: nothing for a track
/// of which nothing is known.
pub open spec fn announced(
    known: Map<u128, InfoModel>,
    guild_id: u64,
    uuid: u128,
    current: Option<u128>,
) -> Option<ChangeModel> {
    if known.contains_key(uuid) {
        Some(
            ChangeModel {
                guild_id,
                finished: known[uuid].track(),
                next: match current {
                    Some(current) => Some(listed(known.remove(uuid), current)),
                    None => None,
                },
            },
        )
    } else {
        None
    }
}

/// A track that ends because its queue was stopped by hand is not announced.
pub proof fn a_stop_is_not_announced(
    known: Map<u128, InfoModel>,
    length: nat,
    guild_id: u64,
    uuid: u128,
    current: Option<u128>,
)
    requires
        length > 0,
    ensures
        announced(left_after_stop(known, length), guild_id, uuid, current) is None,
{
}

/// The end of a track is announced once at most.
pub proof fn an_end_is_announced_once(
    known: Map<u128, InfoModel>,
    guild_id: u64,
    uuid: u128,
    current: Option<u128>,
)
    ensures
        announced(known.remove(uuid), guild_id, uuid, current) is None,
{
}

impl Tracks {
    /// Nothing is known.
    fn new() -> (out: Tracks)
        ensures
            out@ == Map::<u128, InfoModel>::empty(),
    {
        broadcast use vstd::std_specs::hash::group_hash_axioms;

        let out = Tracks { rows: HashMap::new() };
        assert(out@ =~= Map::<u128, InfoModel>::empty());
        out
    }

    /// Keeps what is known of a track.
    fn put(&mut self, uuid: u128, info: TrackInfo)
        ensures
            final(self)@ == old(self)@.insert(uuid, info@),
    {
        broadcast use vstd::std_specs::hash::group_hash_axioms;

        self.rows.insert(uuid, info);
        assert(self@ =~= old(self)@.insert(uuid, info@));
    }

    /// Takes out what is known of a track.
    fn take(&mut self, uuid: u128) -> (out: Option<TrackInfo>)
        ensures
            final(self)@ == old(self)@.remove(uuid),
            out is Some <==> old(self)@.contains_key(uuid),
            out matches Some(info) ==> info@ == old(self)@[uuid],
    {
        broadcast use vstd::std_specs::hash::group_hash_axioms;

        let out = self.rows.remove(&uuid);
        assert(self@ =~= old(self)@.remove(uuid));
        out
    }

    /// The listing of a track.
    fn lookup(&self, uuid: u128) -> (out: QueuedTrack)
        ensures
            out@ == listed(self@, uuid),
    {
        broadcast use vstd::std_specs::hash::group_hash_axioms;

        match self.rows.get(&uuid) {
            Some(info) => info.as_queued(),
            None => TrackInfo::unknown_track(),
        }
    }

    /// The length of a track.
    fn length(&self, uuid: u128) -> (out: Option<Duration>)
        ensures
            out == length_of(self@, uuid),
    {
        broadcast use vstd::std_specs::hash::group_hash_axioms;

        match self.rows.get(&uuid) {
            Some(info) => info.duration,
            None => None,
        }
    }
}

impl Manager {
    /// What is known of the tracks of all guilds, by the identifier of the track.
    pub closed spec fn known(self) -> Map<u128, InfoModel> {
        self.tracks@
    }

    /// A player of which nothing is known.
    pub fn new() -> (out: Manager)
        ensures
            out.known() == Map::<u128, InfoModel>::empty(),
    {
        Manager { tracks: Tracks::new() }
    }

    /// What is kept about a track requested as `query`. A track about which nothing could be found out
    /// is still played, unless it is a Niconico video: what cannot be described there cannot be
    /// fetched either, and the reason is handed back.
    pub fn enqueue(query: &str, metadata: Result<Metadata, String>) -> (out: Result<TrackInfo, String>)
        ensures
            match (out, metadata) {
                (Ok(info), Ok(found)) => info@ == described(query@, Some(found@)),
                (Ok(info), Err(_)) => source(query@) != Source::NicoVideo && info@ == described(
                    query@,
                    None,
                ),
                (Err(reason), Err(error)) => source(query@) == Source::NicoVideo && reason@ == error@,
                (Err(_), Ok(_)) => false,
            },
    {
        let is_url = chars::starts_with(query, "http://") || chars::starts_with(query, "https://");
        let asked = if is_url {
            Some(query.to_owned())
        } else {
            None
        };
        match metadata {
            Ok(found) => {
                let title = match found.title {
                    Some(title) => title,
                    None => query.to_owned(),
                };
                let url = match found.source_url {
                    Some(url) => Some(url),
                    None => asked,
                };
                Ok(TrackInfo { title, duration: found.duration, url })
            },
            Err(reason) => {
                if nicovideo::is_nicovideo(query) {
                    return Err(reason);
                }
                Ok(TrackInfo { title: query.to_owned(), duration: None, url: asked })
            },
        }
    }

    /// What is kept about an uploaded file.
    pub fn enqueue_upload(url: &str, title: String) -> (out: TrackInfo)
        ensures
            out@ == (InfoModel { title: title@, duration: None, url: Some(url@) }),
    {
        TrackInfo { title, duration: None, url: Some(url.to_owned()) }
    }

    /// Keeps what is known of a track that went to a place of a queue.
    pub fn queue_input(&mut self, uuid: u128, info: TrackInfo, position: usize) -> (out: Queued)
        ensures
            final(self).known() == old(self).known().insert(uuid, info@),
            out.track@ == info@.track(),
            out.position == position,
    {
        let track = info.as_queued();
        self.tracks.put(uuid, info);
        Queued { track, position }
    }

    /// Lists the tracks of a queue, given their identifiers, and forgets all other tracks, those of
    /// the other guilds too.
    pub fn queue(&mut self, handles: &[u128]) -> (out: Vec<QueuedTrack>)
        ensures
            final(self).known() == old(self).known().restrict(handles@.to_set()),
            out@.len() == handles@.len(),
            forall|i: int|
                0 <= i < handles@.len() ==> (#[trigger] out@[i])@ == listed(
                    old(self).known(),
                    handles@[i],
                ),
    {
        let mut kept = Tracks::new();
        let mut out: Vec<QueuedTrack> = Vec::new();
        let ghost before = self.tracks@;
        assert(kept@ =~= before.restrict(handles@.take(0).to_set()));
        let mut i: usize = 0;
        while i < handles.len()
            invariant
                i <= handles@.len(),
                out@.len() == i,
                forall|j: int|
                    0 <= j < i ==> (#[trigger] out@[j])@ == listed(before, handles@[j]),
                kept@ == before.restrict(handles@.take(i as int).to_set()),
                forall|uuid: u128| #[trigger]
                    self.tracks@.contains_key(uuid) <==> before.contains_key(uuid) && !handles@.take(
                        i as int,
                    ).to_set().contains(uuid),
                forall|uuid: u128| #[trigger]
                    self.tracks@.contains_key(uuid) ==> self.tracks@[uuid] == before[uuid],
            decreases handles@.len() - i,
        {
            let uuid: u128 = handles[i];
            let ghost seen = handles@.take(i as int);
            let ghost chosen = kept@;
            assert(handles@.take(i + 1) == seen.push(uuid));
            assert(seen.push(uuid).to_set() =~= seen.to_set().insert(uuid)) by {
                assert forall|u: u128| #[trigger]
                    seen.push(uuid).contains(u) <==> seen.contains(u) || u == uuid by {
                    if seen.contains(u) {
                        let k = choose|k: int| 0 <= k < seen.len() && seen[k] == u;
                        assert(seen.push(uuid)[k] == u);
                    }
                    if u == uuid {
                        assert(seen.push(uuid)[seen.len() as int] == u);
                    }
                    if seen.push(uuid).contains(u) && u != uuid {
                        let k = choose|k: int|
                            0 <= k < seen.push(uuid).len() && seen.push(uuid)[k] == u;
                        assert(seen[k] == u);
                    }
                }
            }
            match self.tracks.take(uuid) {
                Some(info) => {
                    out.push(info.as_queued());
                    kept.put(uuid, info);
                },
                None => {
                    out.push(kept.lookup(uuid));
                    assert(chosen.contains_key(uuid) <==> before.contains_key(uuid));
                },
            }
            assert(kept@ =~= before.restrict(seen.to_set().insert(uuid)));
            i = i + 1;
        }
        assert(handles@.take(i as int) == handles@);
        self.tracks = kept;
        out
    }

    /// What plays, given what the player reports of it.
    pub fn now_playing(&self, current: Option<Playing>) -> (out: Option<NowPlaying>)
        ensures
            out is Some <==> current is Some,
            match (out, current) {
                (Some(now), Some(playing)) => {
                    &&& now.track@ == listed(self.known(), playing.uuid)
                    &&& now.position == playing.position
                    &&& now.duration == length_of(self.known(), playing.uuid)
                    &&& now.paused == playing.paused
                },
                _ => true,
            },
    {
        let playing = match current {
            Some(playing) => playing,
            None => return None,
        };
        let track = self.tracks.lookup(playing.uuid);
        let duration = self.tracks.length(playing.uuid);
        Some(NowPlaying { track, position: playing.position, duration, paused: playing.paused })
    }

    /// Where to seek to from what plays, by so many seconds forwards or, if negative, backwards.
    pub fn seek_relative(&self, current: Option<Playing>, delta_secs: i64) -> (out: Option<Duration>)
        ensures
            out is Some <==> current is Some,
            match (out, current) {
                (Some(target), Some(playing)) => clock::nanos(target) == landing(
                    clock::nanos(playing.position),
                    delta_secs as int,
                    match length_of(self.known(), playing.uuid) {
                        Some(total) => Some(clock::nanos(total)),
                        None => None,
                    },
                ),
                _ => true,
            },
    {
        let playing = match current {
            Some(playing) => playing,
            None => return None,
        };
        let second: i128 = clock::NANOS_PER_SEC as i128;
        let position: i128 = clock::to_nanos(playing.position) as i128;
        let target: i128 = hold(position + delta_secs as i128 * second);
        let margin: i128 = SEEK_TAIL_MARGIN_SECS as i128 * second;
        let landed: i128 = match self.tracks.length(playing.uuid) {
            Some(total) => {
                let total: i128 = clock::to_nanos(total) as i128;
                if hold(target + margin) > total {
                    hold(total - margin)
                } else {
                    target
                }
            },
            None => target,
        };
        Some(clock::from_nanos(landed as u128))
    }

    /// What to do to switch the pause of a queue of so many tracks, given whether it is paused.
    pub fn toggle_pause(length: usize, paused: bool) -> (out: Option<Toggle>)
        ensures
            out == if length == 0 {
                None
            } else if paused {
                Some(Toggle::Resume)
            } else {
                Some(Toggle::Pause)
            },
    {
        if length == 0 {
            None
        } else if paused {
            Some(Toggle::Resume)
        } else {
            Some(Toggle::Pause)
        }
    }

    /// Whether a queue of so many tracks has one to skip.
    pub fn skip(length: usize) -> (out: bool)
        ensures
            out == (length > 0),
    {
        length > 0
    }

    /// What to do to take the track with a number, as the list shows it, out of a queue of so many
    /// tracks. The track that plays has the number 1.
    pub fn remove(position: usize, length: usize) -> (out: Removal)
        ensures
            out == if position == 0 || position > length {
                Removal::Nothing
            } else if position == 1 {
                Removal::Skip
            } else {
                Removal::Dequeue((position - 1) as usize)
            },
    {
        if position == 0 || position > length {
            Removal::Nothing
        } else if position == 1 {
            Removal::Skip
        } else {
            Removal::Dequeue(position - 1)
        }
    }

    /// Forgets a track that was taken out of a queue.
    pub fn removed(&mut self, uuid: u128)
        ensures
            final(self).known() == old(self).known().remove(uuid),
    {
        self.tracks.take(uuid);
    }

    /// Forgets all tracks, those of the other guilds too, when a queue of so many tracks is stopped.
    /// Says whether there is anything to stop.
    pub fn stop(&mut self, length: usize) -> (out: bool)
        ensures
            out == (length > 0),
            final(self).known() == left_after_stop(old(self).known(), length as nat),
    {
        if length == 0 {
            return false;
        }
        self.tracks = Tracks::new();
        true
    }

    /// Takes note that a track of a guild ended, given what plays there now. Says what there is to
    /// announce, which is nothing for a track that is not known: it was stopped by hand.
    pub fn track_ended(&mut self, guild_id: u64, uuid: u128, current: Option<u128>) -> (out: Option<
        TrackChanged,
    >)
        ensures
            final(self).known() == old(self).known().remove(uuid),
            match out {
                Some(change) => announced(old(self).known(), guild_id, uuid, current) == Some(
                    change@,
                ),
                None => announced(old(self).known(), guild_id, uuid, current) is None,
            },
    {
        let finished = match self.tracks.take(uuid) {
            Some(info) => info.as_queued(),
            None => return None,
        };
        let next = match current {
            Some(current) => Some(self.tracks.lookup(current)),
            None => None,
        };
        Some(TrackChanged { guild_id, finished, next })
    }
}

/// A seek lands exactly as far off as asked, forwards and backwards alike, wherever that leaves the
/// margin at the end of the track. A seek to before the start lands at the start, one to closer to
/// the end than the margin lands at the margin, and in a track of unknown length only what a time
/// can hold limits it.
pub proof fn a_seek_goes_as_far_as_asked(position: nat, delta_secs: int, total: Option<nat>)
    ensures
        ({
            let asked = position + delta_secs * 1_000_000_000;
            let landed = landing(position, delta_secs, total);
            &&& asked < 0 ==> landed == 0
            &&& 0 <= asked <= clock::max_nanos() ==> match total {
                None => landed == asked,
                Some(end) => {
                    &&& asked + 3_000_000_000 <= end ==> landed == asked
                    &&& asked + 3_000_000_000 > end && 3_000_000_000 <= end < clock::max_nanos()
                        ==> landed + 3_000_000_000 == end
                    &&& end < 3_000_000_000 ==> landed == 0
                },
            }
            &&& asked > clock::max_nanos() ==> match total {
                None => landed == clock::max_nanos(),
                Some(end) => 3_000_000_000 <= end < clock::max_nanos() ==> landed + 3_000_000_000
                    == end,
            }
        }),
{
}

/// Two seeks, one back by as much as the other goes forwards, come back to where they started, as
/// long as neither end of the track is in the way.
pub proof fn a_seek_can_be_undone(position: nat, delta_secs: int, total: nat)
    requires
        total <= clock::max_nanos(),
        position + 3_000_000_000 <= total,
        0 <= position + delta_secs * 1_000_000_000,
        position + delta_secs * 1_000_000_000 + 3_000_000_000 <= total,
    ensures
        landing(landing(position, delta_secs, Some(total)), -delta_secs, Some(total)) == position,
        landing(landing(position, delta_secs, None), -delta_secs, None) == position,
{
}

/// The knob stands on the cell that the played share of the track falls into: as many fifteenths of
/// the track lie before it as have played in full.
pub proof fn the_knob_tells_the_share(position: nat, total: nat)
    requires
        position < total,
    ensures
        knob(position, total) * total <= position * 15,
        position * 15 < (knob(position, total) + 1) * total,
{
    let cell = position * 15 / total;
    assert(cell < 15) by (nonlinear_arith)
        requires
            position < total,
            cell == position * 15 / total,
    ;
    assert(cell * total <= position * 15 < (cell + 1) * total) by (nonlinear_arith)
        requires
            total > 0,
            cell == position * 15 / total,
    ;
}

/// What is shown of a track of known length depends only on the part of it that has played: the bar
/// with the knob there, the time that has passed, never more than the length, and the length. Of any
/// other track only the time is shown.
pub proof fn the_progress_tells_the_times(position: Duration, total: Duration)
    ensures
        progress(position, None) == clock_face(clock::whole_secs(position)) + "（長さ不明）"@,
        clock::nanos(total) == 0 ==> progress(position, Some(total)) == progress(position, None),
        clock::nanos(total) > 0 && clock::nanos(position) > clock::nanos(total) ==> progress(
            position,
            Some(total),
        ) == progress(total, Some(total)),
        clock::nanos(total) > 0 && clock::nanos(position) < clock::nanos(total) ==> progress(
            position,
            Some(total),
        ) == bar(knob(clock::nanos(position), clock::nanos(total))) + "  "@ + clock_face(
            clock::whole_secs(position),
        ) + " / "@ + clock_face(clock::whole_secs(total)),
        clock::nanos(total) > 0 ==> progress(total, Some(total)) == bar(14) + "  "@ + clock_face(
            clock::whole_secs(total),
        ) + " / "@ + clock_face(clock::whole_secs(total)),
{
    if clock::nanos(total) > 0 {
        the_knob_moves_forward(clock::nanos(total), clock::nanos(total), clock::nanos(total));
    }
}

/// The end of a track that is known is announced in its guild, by what was kept of the track when it
/// was queued, with what plays then: by what was kept of that, as unknown if nothing was, or as
/// nothing.
pub proof fn an_end_is_announced_by_its_track(
    known: Map<u128, InfoModel>,
    guild_id: u64,
    uuid: u128,
    info: InfoModel,
    next: u128,
    next_info: InfoModel,
)
    requires
        next != uuid,
    ensures
        announced(known.insert(uuid, info), guild_id, uuid, None) == Some(
            ChangeModel {
                guild_id,
                finished: TrackModel { title: info.title, url: info.url },
                next: None,
            },
        ),
        announced(
            known.insert(next, next_info).insert(uuid, info),
            guild_id,
            uuid,
            Some(next),
        ) == Some(
            ChangeModel {
                guild_id,
                finished: TrackModel { title: info.title, url: info.url },
                next: Some(TrackModel { title: next_info.title, url: next_info.url }),
            },
        ),
        announced(known.remove(next).insert(uuid, info), guild_id, uuid, Some(next)) == Some(
            ChangeModel {
                guild_id,
                finished: TrackModel { title: info.title, url: info.url },
                next: Some(TrackModel { title: "（タイトル不明）"@, url: None }),
            },
        ),
{
}

/// A track is listed by what was kept of it last, and its length is what was kept then. What is kept
/// of other tracks does not matter.
pub proof fn a_track_is_listed_as_kept(
    known: Map<u128, InfoModel>,
    uuid: u128,
    info: InfoModel,
    other: u128,
    other_info: InfoModel,
)
    requires
        other != uuid,
    ensures
        listed(known.insert(uuid, info), uuid) == (TrackModel { title: info.title, url: info.url }),
        length_of(known.insert(uuid, info), uuid) == info.duration,
        listed(known.insert(other, other_info), uuid) == listed(known, uuid),
        length_of(known.insert(other, other_info), uuid) == length_of(known, uuid),
        listed(known.remove(uuid), uuid) == (TrackModel { title: "（タイトル不明）"@, url: None }),
        length_of(known.remove(uuid), uuid) is None,
{
}

/// What was found out about a track is kept. Where there was no title the request stands for it, and
/// where there was no page, the request if it is an address and nothing if it is not.
pub proof fn what_was_found_is_kept(
    query: Seq<char>,
    title: Seq<char>,
    duration: Option<Duration>,
    page: Seq<char>,
)
    ensures
        ({
            let full = nicovideo::MetadataModel {
                title: Some(title),
                duration,
                source_url: Some(page),
            };
            let bare = nicovideo::MetadataModel { title: None, duration, source_url: None };
            let own = if chars::begins(query, "http://"@) || chars::begins(query, "https://"@) {
                Some(query)
            } else {
                None
            };
            &&& described(query, Some(full)) == (InfoModel { title, duration, url: Some(page) })
            &&& described(query, Some(bare)) == (InfoModel { title: query, duration, url: own })
            &&& described(query, None) == (InfoModel { title: query, duration: None, url: own })
        }),
{
}

/// A title leads to its page exactly where the page is a web address that a link can hold: then it
/// shows as a link with the page in angle brackets, else as the title alone. Either way the title
/// shows as it is.
pub proof fn a_title_leads_to_its_page(title: Seq<char>, url: Seq<char>)
    ensures
        linked(TrackModel { title, url: None }) == escaped(title),
        is_linkable(url) ==> linked(TrackModel { title, url: Some(url) }) == "["@ + escaped(title)
            + "](<"@ + url + ">)"@,
        !is_linkable(url) ==> linked(TrackModel { title, url: Some(url) }) == escaped(title),
        is_linkable(url) ==> chars::begins(url, "https://"@) || chars::begins(url, "http://"@),
        is_linkable(url) ==> forall|i: int|
            0 <= i < url.len() ==> {
                &&& #[trigger] url[i] != '('
                &&& url[i] != ')'
                &&& url[i] != '<'
                &&& url[i] != '>'
                &&& url[i] != ' '
                &&& url[i] != '\n'
                &&& url[i] != '\t'
            },
{
    let bad = seq!['(', ')', ' ', '\n', '\t', '<', '>'];
    assert(bad[0] == '(' && bad[1] == ')' && bad[2] == ' ' && bad[3] == '\n' && bad[4] == '\t'
        && bad[5] == '<' && bad[6] == '>');
    if is_linkable(url) {
        assert forall|i: int| 0 <= i < url.len() implies {
            &&& #[trigger] url[i] != '('
            &&& url[i] != ')'
            &&& url[i] != '<'
            &&& url[i] != '>'
            &&& url[i] != ' '
            &&& url[i] != '\n'
            &&& url[i] != '\t'
        } by {
            assert(!bad.contains(url[i]));
        }
    }
}

/// A web address that holds neither brackets nor blanks can be linked.
pub proof fn ordinary_addresses_can_be_linked(url: Seq<char>)
    requires
        chars::begins(url, "https://"@) || chars::begins(url, "http://"@),
        forall|i: int|
            0 <= i < url.len() ==> {
                &&& #[trigger] url[i] != '('
                &&& url[i] != ')'
                &&& url[i] != '<'
                &&& url[i] != '>'
                &&& url[i] != ' '
                &&& url[i] != '\n'
                &&& url[i] != '\t'
            },
    ensures
        is_linkable(url),
{
}

/// A line that gives a page or an address is found there, the page first; a line that gives only an
/// identifier is found at the page that plays it, on the site that the list is from; and a line that
/// gives nothing is found nowhere.
pub proof fn a_line_leads_to_its_track(line: FlatEntry, nicovideo_playlist: bool)
    ensures
        ({
            let at = line.address(nicovideo_playlist);
            let page = nicovideo::text_of(line.webpage_url);
            let url = nicovideo::text_of(line.url);
            let id = nicovideo::text_of(line.id);
            let full = |text: Option<Seq<char>>| text is Some && chars::begins(text->0, "http"@);
            let site = if nicovideo_playlist {
                "https://www.nicovideo.jp/watch/"@
            } else {
                "https://www.youtube.com/watch?v="@
            };
            &&& full(page) ==> at == page
            &&& !full(page) && full(url) ==> at == url
            &&& !full(page) && !full(url) && id is Some ==> at == Some(site + id->0)
            &&& !full(page) && !full(url) && id is None && url is Some ==> at == Some(
                site + url->0,
            )
            &&& !full(page) && id is None && url is None ==> at is None
        }),
{
}

/// A request is looked up in exactly one place: with the downloader if it leads to Niconico, else at
/// its address if it begins as one, else by a search.
pub proof fn a_request_is_looked_up_in_one_place(query: Seq<char>)
    ensures
        source(query) == Source::NicoVideo <==> nicovideo::leads_to_nicovideo(query),
        source(query) == Source::Search ==> !chars::begins(query, "http://"@) && !chars::begins(
            query,
            "https://"@,
        ),
        source(query) == Source::Address ==> chars::begins(query, "http://"@) || chars::begins(
            query,
            "https://"@,
        ),
{
}

/// Escaping goes character by character: the ten characters that mean something get a backslash, all
/// others stay as they are.
pub proof fn escaping_goes_by_character(a: Seq<char>, b: Seq<char>, c: char)
    ensures
        escaped(a + b) == escaped(a) + escaped(b),
        escaped(seq![c]) == if seq!['\\', '*', '_', '~', '`', '|', '[', ']', '<', '>'].contains(c) {
            seq!['\\', c]
        } else {
            seq![c]
        },
    decreases a.len(),
{
    reveal_with_fuel(escaped, 2);
    let all = seq!['\\', '*', '_', '~', '`', '|', '[', ']', '<', '>'];
    assert(all[0] == '\\' && all[1] == '*' && all[2] == '_' && all[3] == '~' && all[4] == '`'
        && all[5] == '|' && all[6] == '[' && all[7] == ']' && all[8] == '<' && all[9] == '>');
    assert(seq![c].skip(1) == Seq::<char>::empty());
    assert(seq!['\\', c] + Seq::<char>::empty() == seq!['\\', c]);
    assert(seq![c] + Seq::<char>::empty() == seq![c]);
    if a.len() == 0 {
        assert(a + b == b);
        assert(escaped(a) + escaped(b) == escaped(b));
    } else {
        let rest = a.skip(1);
        escaping_goes_by_character(rest, b, c);
        assert((a + b).skip(1) == rest + b);
        assert((a + b)[0] == a[0]);
        assert(seq!['\\', a[0]] + escaped(rest) + escaped(b) == seq!['\\', a[0]] + (escaped(rest)
            + escaped(b)));
        assert(seq![a[0]] + escaped(rest) + escaped(b) == seq![a[0]] + (escaped(rest) + escaped(
            b,
        )));
    }
}

/// A page is that of a playlist exactly where its path, not what follows it, says so: a list or a
/// series of Niconico, or a playlist page of YouTube whose address names the list.
pub proof fn the_path_makes_a_playlist(path: Seq<char>, rest: Seq<char>)
    requires
        forall|i: int|
            0 <= i < path.len() ==> {
                &&& #[trigger] path[i] != '?'
                &&& path[i] != '#'
            },
        rest.len() == 0 || rest[0] == '?' || rest[0] == '#',
    ensures
        ({
            let url = path + rest;
            let on_niconico = nicovideo::host(url) == Some("nicovideo.jp"@) || (exists|below: Seq<char>|
                nicovideo::host(url) == Some(#[trigger] (below + ".nicovideo.jp"@)));
            let on_youtube = nicovideo::host(url) == Some("youtube.com"@) || nicovideo::host(url)
                == Some("www.youtube.com"@) || nicovideo::host(url) == Some("m.youtube.com"@);
            &&& leads_to_playlist(url) ==> on_niconico || on_youtube
            &&& on_niconico ==> (leads_to_playlist(url) <==> chars::occurs(path, "/mylist/"@)
                || chars::occurs(path, "/series/"@))
            &&& on_youtube && !on_niconico ==> (leads_to_playlist(url) <==> chars::occurs(
                path,
                "/playlist"@,
            ) && chars::occurs(url, "list="@))
        }),
{
    let url = path + rest;
    let stops = seq!['?', '#'];
    assert(stops[0] == '?' && stops[1] == '#');
    assert forall|i: int| 0 <= i < path.len() implies !stops.contains(#[trigger] path[i]) by {
        assert(path[i] != '?');
    }
    nicovideo::lemma_first_stop_after(path, rest, stops);
    assert(url.take(path.len() as int) == path);
    if let Some(name) = nicovideo::host(url) {
        let end = ".nicovideo.jp"@;
        if chars::ends(name, end) {
            let below = name.take(name.len() - end.len());
            assert(below + end =~= name) by {
                assert(name.subrange(name.len() - end.len(), name.len() as int) == end);
            }
        }
        if exists|below: Seq<char>| nicovideo::host(url) == Some(#[trigger] (below + end)) {
            let below = choose|below: Seq<char>|
                nicovideo::host(url) == Some(#[trigger] (below + end));
            assert(name.subrange(name.len() - end.len(), name.len() as int) =~= end);
        }
    }
}

} // verus!
