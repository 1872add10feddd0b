//! Queueing a whole playlist, track by track.

use vstd::prelude::*;

use crate::music;
use crate::music::FlatEntry;
use crate::music::Manager;
use crate::music::PlaylistQueued;
use crate::music::TrackInfo;
use crate::music::PLAYLIST_LIMIT;
use crate::nicovideo;
use crate::nicovideo::Metadata;

verus! {

/// What is said of a playlist without tracks.
pub const EMPTY_PLAYLIST: &'static str = "再生リストが空か、取得できませんでした";

/// How many tracks of a list of so many are looked at.
pub open spec fn considered(total: nat) -> nat {
    if total < PLAYLIST_LIMIT {
        total
    } else {
        PLAYLIST_LIMIT as nat
    }
}

/// How many lines of a list have no address.
pub open spec fn without_address(entries: Seq<FlatEntry>, nicovideo: bool) -> nat
    decreases entries.len(),
{
    if entries.len() == 0 {
        0
    } else {
        without_address(entries.drop_last(), nicovideo) + if entries.last().address(
            nicovideo,
        ) is None {
            1nat
        } else {
            0nat
        }
    }
}

/// The first line from `at` on that has an address, or `end`.
pub open spec fn upcoming(entries: Seq<FlatEntry>, nicovideo: bool, at: nat, end: nat) -> nat
    decreases end - at,
{
    if at >= end || entries[at as int].address(nicovideo) is Some {
        at
    } else {
        upcoming(entries, nicovideo, at + 1, end)
    }
}

/// What is kept about a track that the list alone describes.
pub open spec fn as_listed(entry: FlatEntry, url: Seq<char>) -> music::InfoModel {
    music::InfoModel {
        title: match entry.title {
            Some(title) => title@,
            None => url,
        },
        duration: entry.duration,
        url: Some(url),
    }
}

/// What is kept about a track that was tried beforehand.
pub open spec fn as_probed(
    entry: FlatEntry,
    url: Seq<char>,
    found: nicovideo::MetadataModel,
) -> music::InfoModel {
    music::InfoModel {
        title: match (found.title, entry.title) {
            (Some(title), _) => title,
            (None, Some(title)) => title@,
            (None, None) => url,
        },
        duration: found.duration,
        url: match found.source_url {
            Some(page) => Some(page),
            None => Some(url),
        },
    }
}

/// What to do next to queue a playlist.
#[derive(Debug)]
pub enum Step {
    /// Find out whether the track at this address can be played, and hand in the outcome.
    Probe { url: String },
    /// Queue the track at this address.
    Queue { url: String, info: TrackInfo },
    /// All is done.
    Done(PlaylistQueued),
}

/// A playlist that is being queued.
#[derive(Debug)]
pub struct PlaylistImport {
    nicovideo: bool,
    entries: Vec<FlatEntry>,
    at: usize,
    queued: usize,
    unplayable: usize,
}

/// The mathematical counterpart of [`PlaylistImport`].
pub struct ImportModel {
    /// Whether the list is one of Niconico, whose tracks are tried beforehand.
    pub nicovideo: bool,
    pub entries: Seq<FlatEntry>,
    /// The line that comes next.
    pub at: nat,
    pub queued: nat,
    pub unplayable: nat,
}

impl ImportModel {
    /// Every line so far was queued, found not to be playable, or had no address. Only Niconico
    /// tracks are found not to be playable.
    pub open spec fn accounts(self) -> bool {
        &&& self.at <= considered(self.entries.len())
        &&& self.queued + self.unplayable + without_address(
            self.entries.take(self.at as int),
            self.nicovideo,
        ) == self.at
        &&& !self.nicovideo ==> self.unplayable == 0
    }

    /// The line that comes next of those that have an address.
    pub open spec fn next(self) -> nat {
        upcoming(self.entries, self.nicovideo, self.at, considered(self.entries.len()))
    }

    /// Whether the line that comes next is one whose track is tried.
    pub open spec fn probes(self) -> bool {
        &&& self.nicovideo
        &&& self.at < considered(self.entries.len())
        &&& self.entries[self.at as int].address(self.nicovideo) is Some
    }
}

impl View for PlaylistImport {
    type V = ImportModel;

    closed spec fn view(&self) -> ImportModel {
        ImportModel {
            nicovideo: self.nicovideo,
            entries: self.entries@,
            at: self.at as nat,
            queued: self.queued as nat,
            unplayable: self.unplayable as nat,
        }
    }
}

/// One more line counts towards those without an address if it has none.
proof fn lemma_count(entries: Seq<FlatEntry>, nicovideo: bool, at: int)
    requires
        0 <= at < entries.len(),
    ensures
        without_address(entries.take(at + 1), nicovideo) == without_address(
            entries.take(at),
            nicovideo,
        ) + if entries[at].address(nicovideo) is None {
            1nat
        } else {
            0nat
        },
{
    assert(entries.take(at + 1).drop_last() == entries.take(at));
}

impl Manager {
    /// Starts to queue the playlist at `url`, given its lines.
    pub fn enqueue_playlist(url: &str, entries: Vec<FlatEntry>) -> (out: Result<PlaylistImport, String>)
        ensures
            out is Err <==> entries@.len() == 0,
            match out {
                Ok(import) => {
                    &&& import@ == (ImportModel {
                        nicovideo: nicovideo::leads_to_nicovideo(url@),
                        entries: entries@,
                        at: 0,
                        queued: 0,
                        unplayable: 0,
                    })
                    &&& import@.accounts()
                },
                Err(reason) => reason@ == EMPTY_PLAYLIST@,
            },
    {
        if entries.len() == 0 {
            return Err(EMPTY_PLAYLIST.to_owned());
        }
        Ok(
            PlaylistImport {
                nicovideo: nicovideo::is_nicovideo(url),
                entries,
                at: 0,
                queued: 0,
                unplayable: 0,
            },
        )
    }
}

impl PlaylistImport {
    /// Goes on to the next track that has an address.
    pub fn step(&mut self) -> (out: Step)
        requires
            old(self)@.accounts(),
        ensures
            final(self)@.accounts(),
            match out {
                Step::Probe { url } => {
                    &&& old(self)@.nicovideo
                    &&& old(self)@.next() < considered(old(self)@.entries.len())
                    &&& Some(url@) == old(self)@.entries[old(self)@.next() as int].address(true)
                    &&& final(self)@ == (ImportModel { at: old(self)@.next(), ..old(self)@ })
                    &&& final(self)@.probes()
                },
                Step::Queue { url, info } => {
                    &&& !old(self)@.nicovideo
                    &&& old(self)@.next() < considered(old(self)@.entries.len())
                    &&& Some(url@) == old(self)@.entries[old(self)@.next() as int].address(false)
                    &&& info@ == as_listed(old(self)@.entries[old(self)@.next() as int], url@)
                    &&& final(self)@ == (ImportModel {
                        at: old(self)@.next() + 1,
                        queued: old(self)@.queued + 1,
                        ..old(self)@
                    })
                },
                Step::Done(outcome) => {
                    &&& old(self)@.next() == considered(old(self)@.entries.len())
                    &&& final(self)@ == (ImportModel { at: old(self)@.next(), ..old(self)@ })
                    &&& outcome.queued == old(self)@.queued
                    &&& outcome.unplayable == old(self)@.unplayable
                    &&& outcome.skipped == old(self)@.entries.len() - considered(
                        old(self)@.entries.len(),
                    )
                },
            },
    {
        let total: usize = self.entries.len();
        let end: usize = if total < PLAYLIST_LIMIT {
            total
        } else {
            PLAYLIST_LIMIT
        };
        while self.at < end
            invariant
                self@.accounts(),
                self@ == (ImportModel { at: self@.at, ..old(self)@ }),
                self@.next() == old(self)@.next(),
                end == considered(self@.entries.len()),
                total == self@.entries.len(),
            decreases end - self.at,
        {
            let at: usize = self.at;
            let url = self.entries[at].resolve_url(self.nicovideo);
            proof {
                lemma_count(self@.entries, self@.nicovideo, at as int);
            }
            let url = match url {
                Some(url) => url,
                None => {
                    self.at = at + 1;
                    continue ;
                },
            };
            if self.nicovideo {
                return Step::Probe { url };
            }
            let title = match &self.entries[at].title {
                Some(title) => title.clone(),
                None => url.clone(),
            };
            let info = TrackInfo {
                title,
                duration: self.entries[at].duration,
                url: Some(url.clone()),
            };
            self.queued = self.queued + 1;
            self.at = at + 1;
            return Step::Queue { url, info };
        }
        Step::Done(
            PlaylistQueued {
                queued: self.queued,
                skipped: total - end,
                unplayable: self.unplayable,
            },
        )
    }

    /// Takes in what was found out about the track that was to be tried. Says what is kept about
    /// it, if it can be played and is to be queued.
    pub fn probed(&mut self, outcome: Option<Metadata>) -> (out: Option<TrackInfo>)
        requires
            old(self)@.accounts(),
            old(self)@.probes(),
        ensures
            final(self)@.accounts(),
            out is Some <==> outcome is Some,
            match (out, outcome) {
                (Some(info), Some(found)) => {
                    &&& info@ == as_probed(
                        old(self)@.entries[old(self)@.at as int],
                        old(self)@.entries[old(self)@.at as int].address(true)->0,
                        found@,
                    )
                    &&& final(self)@ == (ImportModel {
                        at: old(self)@.at + 1,
                        queued: old(self)@.queued + 1,
                        ..old(self)@
                    })
                },
                _ => final(self)@ == (ImportModel {
                    at: old(self)@.at + 1,
                    unplayable: old(self)@.unplayable + 1,
                    ..old(self)@
                }),
            },
    {
        let at: usize = self.at;
        proof {
            lemma_count(self@.entries, self@.nicovideo, at as int);
        }
        self.at = at + 1;
        let found = match outcome {
            Some(found) => found,
            None => {
                self.unplayable = self.unplayable + 1;
                return None;
            },
        };
        self.queued = self.queued + 1;
        let url = self.entries[at].resolve_url(self.nicovideo);
        let title = match (found.title, &self.entries[at].title, &url) {
            (Some(title), _, _) => title,
            (None, Some(title), _) => title.clone(),
            (None, None, Some(url)) => url.clone(),
            (None, None, None) => String::new(),
        };
        let page = match found.source_url {
            Some(page) => Some(page),
            None => url,
        };
        Some(TrackInfo { title, duration: found.duration, url: page })
    }
}

/// Of a list that was queued to the end every track is accounted for: queued, not playable,
/// without an address, or left out because of the limit.
pub proof fn no_track_is_lost(import: ImportModel)
    requires
        import.accounts(),
        import.at == considered(import.entries.len()),
    ensures
        import.queued + import.unplayable + without_address(
            import.entries.take(import.at as int),
            import.nicovideo,
        ) + (import.entries.len() - considered(import.entries.len())) == import.entries.len(),
        import.queued <= PLAYLIST_LIMIT,
{
}

/// At most fifty tracks of a list are looked at, and all of a shorter one.
pub proof fn at_most_fifty_are_looked_at(total: nat)
    ensures
        considered(total) <= 50,
        considered(total) <= total,
        total <= 50 ==> considered(total) == total,
        total > 50 ==> considered(total) == 50,
{
}

/// The line that comes next is the first that has an address: every line before it has none, and where
/// there is no such line, all is done.
pub proof fn no_line_with_an_address_is_passed_over(
    entries: Seq<FlatEntry>,
    nicovideo: bool,
    at: nat,
    end: nat,
)
    requires
        at <= end <= entries.len(),
    ensures
        at <= upcoming(entries, nicovideo, at, end) <= end,
        forall|i: int|
            at <= i < upcoming(entries, nicovideo, at, end) ==> (#[trigger] entries[i]).address(
                nicovideo,
            ) is None,
        upcoming(entries, nicovideo, at, end) < end ==> entries[upcoming(
            entries,
            nicovideo,
            at,
            end,
        ) as int].address(nicovideo) is Some,
    decreases end - at,
{
    if at < end && entries[at as int].address(nicovideo) is None {
        no_line_with_an_address_is_passed_over(entries, nicovideo, at + 1, end);
    }
}

/// As many lines have no address as are counted: one more for each line that has none.
pub proof fn lines_without_an_address_are_counted(
    entries: Seq<FlatEntry>,
    entry: FlatEntry,
    nicovideo: bool,
)
    ensures
        without_address(Seq::empty(), nicovideo) == 0,
        entry.address(nicovideo) is None ==> without_address(entries.push(entry), nicovideo)
            == without_address(entries, nicovideo) + 1,
        entry.address(nicovideo) is Some ==> without_address(entries.push(entry), nicovideo)
            == without_address(entries, nicovideo),
{
    assert(entries.push(entry).drop_last() == entries);
}

/// A track that was not tried is kept with the title and the length of its line; one that was tried,
/// with what was found, then with what the line says. A title that nothing says is the address, and so
/// is a page.
pub proof fn a_track_of_a_list_is_kept(
    entry: FlatEntry,
    url: Seq<char>,
    found: nicovideo::MetadataModel,
)
    ensures
        ({
            let listed = as_listed(entry, url);
            let probed = as_probed(entry, url, found);
            let title = nicovideo::text_of(entry.title);
            &&& title is Some ==> listed.title == title->0
            &&& title is None ==> listed.title == url
            &&& listed.duration == entry.duration
            &&& listed.url == Some(url)
            &&& found.title is Some ==> probed.title == found.title->0
            &&& found.title is None && title is Some ==> probed.title == title->0
            &&& found.title is None && title is None ==> probed.title == url
            &&& probed.duration == found.duration
            &&& found.source_url is Some ==> probed.url == found.source_url
            &&& found.source_url is None ==> probed.url == Some(url)
        }),
{
}

} // verus!
