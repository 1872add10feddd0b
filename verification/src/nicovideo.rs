//! Niconico videos.
//!
//! Their streams need a cookie that only yt-dlp has, so yt-dlp itself downloads them and its
//! standard output is played.

use std::time::Duration;

use vstd::prelude::*;

use crate::chars;

verus! {

/// The name of the downloader.
pub const YTDLP: &'static str = "yt-dlp";

/// Audio only, with a known bit rate, where there is such a thing.
pub const FORMAT: &'static str = "ba[abr>0][vcodec=none]/best";

/// What is known about a track.
#[derive(Debug)]
pub struct Metadata {
    pub title: Option<String>,
    pub duration: Option<Duration>,
    pub source_url: Option<String>,
}

/// The mathematical counterpart of [`Metadata`].
pub struct MetadataModel {
    pub title: Option<Seq<char>>,
    pub duration: Option<Duration>,
    pub source_url: Option<Seq<char>>,
}

/// The text in an optional string.
pub open spec fn text_of(s: Option<String>) -> Option<Seq<char>> {
    match s {
        Some(s) => Some(s@),
        None => None,
    }
}

/// A copy of an optional string.
pub fn copy_of(s: &Option<String>) -> (out: Option<String>)
    ensures
        text_of(out) == text_of(*s),
{
    match s {
        Some(s) => Some(s.clone()),
        None => None,
    }
}

impl View for Metadata {
    type V = MetadataModel;

    open spec fn view(&self) -> MetadataModel {
        MetadataModel {
            title: text_of(self.title),
            duration: self.duration,
            source_url: text_of(self.source_url),
        }
    }
}

impl Clone for Metadata {
    fn clone(&self) -> (out: Metadata)
        ensures
            out@ == self@,
    {
        Metadata {
            title: copy_of(&self.title),
            duration: self.duration,
            source_url: copy_of(&self.source_url),
        }
    }
}

/// The host of a web address in lower case, without credentials and port. `None` for anything
/// that is not an http or https address or has no host.
pub open spec fn host(url: Seq<char>) -> Option<Seq<char>> {
    let secure = chars::begins(url, "https://"@);
    if !secure && !chars::begins(url, "http://"@) {
        None
    } else {
        let rest = if secure {
            url.skip("https://"@.len() as int)
        } else {
            url.skip("http://"@.len() as int)
        };
        let authority = chars::until(rest, seq!['/', '?', '#']);
        let named = chars::after_last(authority, '@');
        let colon = chars::last_index(named, ':');
        let bare = if colon >= 0 && !(colon > 0 && named[colon - 1] == ']') {
            named.take(colon)
        } else {
            named
        };
        if bare.len() > 0 {
            Some(chars::ascii_lower(bare))
        } else {
            None
        }
    }
}

/// The host of `url` in lower case. `None` for anything but http and https.
pub fn host_of(url: &str) -> (out: Option<String>)
    ensures
        text_of(out) == host(url@),
{
    let rest = match chars::strip_prefix(url, "https://") {
        Some(rest) => rest,
        None => match chars::strip_prefix(url, "http://") {
            Some(rest) => rest,
            None => return None,
        },
    };
    let rest = chars::to_chars(rest.as_str());
    let stops: [char; 3] = ['/', '?', '#'];
    assert(stops@ == seq!['/', '?', '#']);
    let end: usize = chars::find_stop(rest.as_slice(), &stops);
    let authority = vstd::slice::slice_subrange(rest.as_slice(), 0, end);
    assert(authority@ == chars::until(rest@, seq!['/', '?', '#']));
    let named = match chars::find_last(authority, '@') {
        Some(at) => vstd::slice::slice_subrange(authority, at + 1, authority.len()),
        None => authority,
    };
    assert(named@ == chars::after_last(authority@, '@'));
    let bare = match chars::find_last(named, ':') {
        Some(colon) if !(colon > 0 && named[colon - 1] == ']') => vstd::slice::slice_subrange(
            named,
            0,
            colon,
        ),
        _ => named,
    };
    proof {
        chars::lemma_last_index(named@, ':');
        let colon = chars::last_index(named@, ':');
        assert(bare@ == if colon >= 0 && !(colon > 0 && named@[colon - 1] == ']') {
            named@.take(colon)
        } else {
            named@
        });
    }
    if bare.len() == 0 {
        return None;
    }
    Some(chars::ascii_lower_text(bare))
}

/// Whether a web address leads to Niconico. Only its host counts.
pub open spec fn leads_to_nicovideo(url: Seq<char>) -> bool {
    match host(url) {
        Some(host) => host == "nicovideo.jp"@ || chars::ends(host, ".nicovideo.jp"@) || host
            == "nico.ms"@,
        None => false,
    }
}

/// Whether `query` is the address of a Niconico video.
pub fn is_nicovideo(query: &str) -> (out: bool)
    ensures
        out == leads_to_nicovideo(query@),
{
    match host_of(query) {
        Some(host) => chars::same(host.as_str(), "nicovideo.jp") || chars::ends_with(
            host.as_str(),
            ".nicovideo.jp",
        ) || chars::same(host.as_str(), "nico.ms"),
        None => false,
    }
}

/// The first stop of a text without stops, followed by one, is where the text ends.
pub proof fn lemma_first_stop_after(head: Seq<char>, tail: Seq<char>, stops: Seq<char>)
    requires
        forall|i: int| 0 <= i < head.len() ==> !stops.contains(#[trigger] head[i]),
        tail.len() > 0 ==> stops.contains(tail[0]),
    ensures
        chars::first_stop(head + tail, stops) == head.len(),
    decreases head.len(),
{
    let s = head + tail;
    if head.len() > 0 {
        assert(s.skip(1) == head.skip(1) + tail);
        assert(s[0] == head[0]);
        assert forall|i: int| 0 <= i < head.skip(1).len() implies !stops.contains(
            #[trigger] head.skip(1)[i],
        ) by {
            assert(head.skip(1)[i] == head[i + 1]);
        }
        lemma_first_stop_after(head.skip(1), tail, stops);
    } else {
        assert(s == tail);
    }
}

/// Where an address leads is decided by its host alone: a path, a query or a fragment behind the
/// authority changes nothing, whatever it says.
pub proof fn only_the_host_counts(scheme: Seq<char>, authority: Seq<char>, tail: Seq<char>)
    requires
        scheme == "https://"@ || scheme == "http://"@,
        forall|i: int|
            0 <= i < authority.len() ==> !seq!['/', '?', '#'].contains(#[trigger] authority[i]),
        tail.len() > 0 ==> seq!['/', '?', '#'].contains(tail[0]),
    ensures
        host(scheme + authority + tail) == host(scheme + authority),
        leads_to_nicovideo(scheme + authority + tail) == leads_to_nicovideo(scheme + authority),
{
    reveal_strlit("https://");
    reveal_strlit("http://");
    let stops = seq!['/', '?', '#'];
    let long = scheme + authority + tail;
    let short = scheme + authority;
    lemma_first_stop_after(authority, tail, stops);
    lemma_first_stop_after(authority, Seq::empty(), stops);
    assert(authority + Seq::<char>::empty() == authority);
    assert(long.skip(scheme.len() as int) == authority + tail);
    assert(short.skip(scheme.len() as int) == authority);
    assert((authority + tail).take(authority.len() as int) == authority);
    assert(authority.take(authority.len() as int) == authority);
    assert(long.subrange(0, scheme.len() as int) == scheme);
    assert(short.subrange(0, scheme.len() as int) == scheme);
    assert("https://"@[4] == 's' && "http://"@[4] == ':');
    if scheme == "http://"@ {
        assert(long[4] == ':' && short[4] == ':');
        assert(!chars::begins(long, "https://"@)) by {
            if chars::begins(long, "https://"@) {
                assert(long.subrange(0, 8)[4] == long[4]);
            }
        }
        assert(!chars::begins(short, "https://"@)) by {
            if chars::begins(short, "https://"@) {
                assert(short.subrange(0, 8)[4] == short[4]);
            }
        }
    }
}

/// The path in an optional text.
pub open spec fn path_of(path: Option<&str>) -> Option<Seq<char>> {
    match path {
        Some(path) => Some(path@),
        None => None,
    }
}

/// The last arguments of the downloader: a file of cookies, if there is one, and an address.
pub open spec fn aimed_at(cookies: Option<Seq<char>>, url: Seq<char>) -> Seq<Seq<char>> {
    match cookies {
        Some(path) => seq!["--cookies"@, path, url],
        None => seq![url],
    }
}

/// `args` and the last arguments behind them.
fn aim(args: Vec<String>, cookies: Option<&str>, url: &str) -> (out: Vec<String>)
    ensures
        chars::views(out@) == chars::views(args@) + aimed_at(path_of(cookies), url@),
{
    let mut out = args;
    if let Some(path) = cookies {
        out.push("--cookies".to_owned());
        out.push(path.to_owned());
    }
    out.push(url.to_owned());
    assert(chars::views(out@) =~= chars::views(args@) + aimed_at(path_of(cookies), url@));
    out
}

/// The arguments that make the downloader list the tracks of a playlist, a line of JSON for each,
/// without asking about the tracks themselves.
pub fn playlist_args(url: &str, cookies: Option<&str>) -> (out: Vec<String>)
    ensures
        chars::views(out@) == seq!["--flat-playlist"@, "-j"@, "--no-warnings"@] + aimed_at(
            path_of(cookies),
            url@,
        ),
{
    let out = vec!["--flat-playlist".to_owned(), "-j".to_owned(), "--no-warnings".to_owned()];
    assert(chars::views(out@) =~= seq!["--flat-playlist"@, "-j"@, "--no-warnings"@]);
    aim(out, cookies, url)
}

/// One Niconico video. What was found out about it once is kept, since asking takes seconds.
pub struct NicoVideo {
    url: String,
    metadata: Option<Metadata>,
}

impl NicoVideo {
    /// The address of the video.
    pub closed spec fn address(self) -> Seq<char> {
        self.url@
    }

    /// What has been found out so far.
    pub closed spec fn known(self) -> Option<MetadataModel> {
        match self.metadata {
            Some(metadata) => Some(metadata@),
            None => None,
        }
    }

    /// A video of which nothing is known yet.
    pub fn new(url: String) -> (out: NicoVideo)
        ensures
            out.address() == url@,
            out.known() is None,
    {
        NicoVideo { url, metadata: None }
    }

    /// What has been found out so far, if anything.
    pub fn cached(&self) -> (out: Option<Metadata>)
        ensures
            match out {
                Some(metadata) => self.known() == Some(metadata@),
                None => self.known() is None,
            },
    {
        match &self.metadata {
            Some(metadata) => Some(metadata.clone()),
            None => None,
        }
    }

    /// The arguments that make the downloader describe the video as JSON, with the cookies in a
    /// file, if there is one.
    pub fn probe_args(&self, cookies: Option<&str>) -> (out: Vec<String>)
        ensures
            chars::views(out@) == seq!["-j"@, "--no-playlist"@, "--no-warnings"@] + aimed_at(
                path_of(cookies),
                self.address(),
            ),
    {
        let out = vec![
            "-j".to_owned(),
            "--no-playlist".to_owned(),
            "--no-warnings".to_owned(),
        ];
        assert(chars::views(out@) =~= seq!["-j"@, "--no-playlist"@, "--no-warnings"@]);
        aim(out, cookies, self.url.as_str())
    }

    /// The arguments that make the downloader write the sound to its standard output, with the
    /// cookies in a file, if there is one.
    pub fn stream_args(&self, cookies: Option<&str>) -> (out: Vec<String>)
        ensures
            chars::views(out@) == seq![
                "--no-playlist"@,
                "--quiet"@,
                "--no-warnings"@,
                "--no-progress"@,
                "-f"@,
                FORMAT@,
                "-o"@,
                "-"@,
            ] + aimed_at(path_of(cookies), self.address()),
    {
        let out = vec![
            "--no-playlist".to_owned(),
            "--quiet".to_owned(),
            "--no-warnings".to_owned(),
            "--no-progress".to_owned(),
            "-f".to_owned(),
            FORMAT.to_owned(),
            "-o".to_owned(),
            "-".to_owned(),
        ];
        assert(chars::views(out@) =~= seq![
            "--no-playlist"@,
            "--quiet"@,
            "--no-warnings"@,
            "--no-progress"@,
            "-f"@,
            FORMAT@,
            "-o"@,
            "-"@,
        ]);
        aim(out, cookies, self.url.as_str())
    }

    /// Takes in what the downloader said of the video, keeps it and hands it out. The video itself
    /// is the page that it came from.
    pub fn probed(&mut self, title: Option<String>, duration: Option<Duration>) -> (out: Metadata)
        ensures
            out@ == (MetadataModel {
                title: text_of(title),
                duration,
                source_url: Some(old(self).address()),
            }),
            final(self).known() == Some(out@),
            final(self).address() == old(self).address(),
    {
        let metadata = Metadata { title, duration, source_url: Some(self.url.clone()) };
        self.metadata = Some(metadata.clone());
        metadata
    }
}

/// What is said when the downloader cannot be started: that it is missing, or `detail`.
pub fn start_error(missing: bool, detail: &str) -> (out: String)
    ensures
        out@ == if missing {
            "'"@ + YTDLP@ + "' が見つからない"@
        } else {
            detail@
        },
{
    if missing {
        "'".to_owned().concat(YTDLP).concat("' が見つからない")
    } else {
        detail.to_owned()
    }
}

/// What is said when the downloader fails, with the reason it gave.
pub fn failure(reason: &str) -> (out: String)
    ensures
        out@ == "yt-dlp が失敗した: "@ + reason@,
{
    "yt-dlp が失敗した: ".to_owned().concat(reason)
}

/// What stands in front of the last of a character and behind it.
proof fn lemma_split_last(front: Seq<char>, c: char, back: Seq<char>)
    requires
        forall|i: int| 0 <= i < back.len() ==> #[trigger] back[i] != c,
    ensures
        chars::last_index(front + seq![c] + back, c) == front.len(),
        chars::last_index(back, c) == -1,
{
    let s = front + seq![c] + back;
    chars::lemma_last_index(s, c);
    chars::lemma_last_index(back, c);
    assert(s[front.len() as int] == c);
    assert forall|i: int| front.len() < i < s.len() implies #[trigger] s[i] != c by {
        assert(s[i] == back[i - front.len() - 1]);
    }
    if chars::last_index(back, c) >= 0 {
        assert(back[chars::last_index(back, c)] != c);
    }
}

/// Whether a text holds none of the characters that part an address.
pub open spec fn is_plain_part(s: Seq<char>) -> bool {
    forall|i: int|
        0 <= i < s.len() ==> {
            &&& #[trigger] s[i] != '/'
            &&& s[i] != '?'
            &&& s[i] != '#'
            &&& s[i] != '@'
            &&& s[i] != ':'
        }
}

/// Whether a text starts the path, the query or the fragment of an address, or is empty.
pub open spec fn is_tail(s: Seq<char>) -> bool {
    s.len() == 0 || s[0] == '/' || s[0] == '?' || s[0] == '#'
}

/// The authority of an address is what stands between the scheme and the tail.
proof fn lemma_authority(scheme: Seq<char>, authority: Seq<char>, tail: Seq<char>)
    requires
        scheme == "https://"@ || scheme == "http://"@,
        forall|i: int|
            0 <= i < authority.len() ==> {
                &&& #[trigger] authority[i] != '/'
                &&& authority[i] != '?'
                &&& authority[i] != '#'
            },
        is_tail(tail),
    ensures
        ({
            let named = chars::after_last(authority, '@');
            let colon = chars::last_index(named, ':');
            let bare = if colon >= 0 && !(colon > 0 && named[colon - 1] == ']') {
                named.take(colon)
            } else {
                named
            };
            host(scheme + authority + tail) == if bare.len() > 0 {
                Some(chars::ascii_lower(bare))
            } else {
                None
            }
        }),
{
    let stops = seq!['/', '?', '#'];
    assert(stops[0] == '/' && stops[1] == '?' && stops[2] == '#');
    assert forall|i: int| 0 <= i < authority.len() implies !stops.contains(
        #[trigger] authority[i],
    ) by {
        assert(authority[i] != '/');
    }
    if tail.len() > 0 {
        assert(stops.contains(tail[0]));
    }
    only_the_host_counts(scheme, authority, tail);
    reveal_strlit("https://");
    reveal_strlit("http://");
    lemma_first_stop_after(authority, Seq::empty(), stops);
    assert(authority + Seq::<char>::empty() == authority);
    let short = scheme + authority;
    assert(short.skip(scheme.len() as int) == authority);
    assert(authority.take(authority.len() as int) == authority);
    assert(short.subrange(0, scheme.len() as int) == scheme);
    if scheme == "http://"@ {
        assert(!chars::begins(short, "https://"@)) by {
            if chars::begins(short, "https://"@) {
                assert(short.subrange(0, 8)[4] == short[4]);
            }
        }
    }
}

/// The host of an address is its name in small letters, whatever stands behind it, with or without a
/// port and with or without someone's name and password before it. What does not begin as a web
/// address has no host.
pub proof fn the_host_is_the_name(
    scheme: Seq<char>,
    user: Seq<char>,
    name: Seq<char>,
    port: Seq<char>,
    tail: Seq<char>,
    other: Seq<char>,
)
    requires
        scheme == "https://"@ || scheme == "http://"@,
        forall|i: int|
            0 <= i < user.len() ==> {
                &&& #[trigger] user[i] != '/'
                &&& user[i] != '?'
                &&& user[i] != '#'
            },
        is_plain_part(name),
        name.len() > 0,
        name.last() != ']',
        is_plain_part(port),
        is_tail(tail),
        !chars::begins(other, "https://"@),
        !chars::begins(other, "http://"@),
    ensures
        host(scheme + name + tail) == Some(chars::ascii_lower(name)),
        host(scheme + (name + seq![':'] + port) + tail) == Some(chars::ascii_lower(name)),
        host(scheme + (user + seq!['@'] + name) + tail) == Some(chars::ascii_lower(name)),
        host(scheme + (user + seq!['@'] + (name + seq![':'] + port)) + tail) == Some(
            chars::ascii_lower(name),
        ),
        host(other) is None,
{
    let ported = name + seq![':'] + port;
    let owned = user + seq!['@'] + name;
    let both = user + seq!['@'] + ported;
    assert forall|i: int| 0 <= i < ported.len() implies {
        &&& #[trigger] ported[i] != '/'
        &&& ported[i] != '?'
        &&& ported[i] != '#'
        &&& ported[i] != '@'
    } by {
        if i < name.len() {
            assert(ported[i] == name[i]);
        } else if i > name.len() {
            assert(ported[i] == port[i - name.len() - 1]);
        }
    }
    assert forall|i: int| 0 <= i < owned.len() implies {
        &&& #[trigger] owned[i] != '/'
        &&& owned[i] != '?'
        &&& owned[i] != '#'
    } by {
        if i < user.len() {
            assert(owned[i] == user[i]);
        } else if i > user.len() {
            assert(owned[i] == name[i - user.len() - 1]);
        }
    }
    assert forall|i: int| 0 <= i < both.len() implies {
        &&& #[trigger] both[i] != '/'
        &&& both[i] != '?'
        &&& both[i] != '#'
    } by {
        if i < user.len() {
            assert(both[i] == user[i]);
        } else if i > user.len() {
            assert(both[i] == ported[i - user.len() - 1]);
        }
    }
    lemma_authority(scheme, name, tail);
    lemma_authority(scheme, ported, tail);
    lemma_authority(scheme, owned, tail);
    lemma_authority(scheme, both, tail);
    lemma_split_last(user, '@', name);
    lemma_split_last(user, '@', ported);
    lemma_split_last(name, ':', port);
    lemma_split_last(name, ':', name);
    assert(name.skip(0) == name);
    assert(ported.skip(0) == ported);
    assert(owned.skip(user.len() as int + 1) == name);
    assert(both.skip(user.len() as int + 1) == ported);
    assert(ported.take(name.len() as int) == name);
    assert(ported[name.len() - 1] == name.last());
}

/// An address leads to Niconico exactly where its host is one of the two names of the site or a name
/// below the longer one.
pub proof fn niconico_is_its_hosts(url: Seq<char>)
    ensures
        leads_to_nicovideo(url) <==> host(url) == Some("nicovideo.jp"@) || host(url) == Some(
            "nico.ms"@,
        ) || exists|below: Seq<char>| host(url) == Some(#[trigger] (below + ".nicovideo.jp"@)),
{
    if let Some(name) = host(url) {
        let end = ".nicovideo.jp"@;
        if chars::ends(name, end) {
            let below = name.take(name.len() - end.len());
            assert(below + end =~= name) by {
                assert(name.subrange(name.len() - end.len(), name.len() as int) == end);
            }
        }
        if exists|below: Seq<char>| host(url) == Some(#[trigger] (below + end)) {
            let below = choose|below: Seq<char>| host(url) == Some(#[trigger] (below + end));
            assert(name.subrange(name.len() - end.len(), name.len() as int) =~= end);
        }
    }
}

/// The address comes last in what `yt-dlp` is started with, and is all there is without cookies. A file of
/// cookies is named right behind its switch.
pub proof fn cookies_come_before_the_address(cookies: Option<Seq<char>>, url: Seq<char>)
    ensures
        aimed_at(cookies, url).last() == url,
        cookies is None ==> aimed_at(cookies, url).len() == 1,
        cookies is Some ==> {
            &&& aimed_at(cookies, url).len() == 3
            &&& aimed_at(cookies, url)[0] == "--cookies"@
            &&& aimed_at(cookies, url)[1] == cookies->0
        },
{
}

} // verus!
