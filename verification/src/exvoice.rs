//! Recorded voices.
//!
//! What a user with a certain style writes is played from a recording where there is one of the
//! same words. The recordings are found by the names of their files, `<number>_<words>.wav`.

use std::path::PathBuf;

use vstd::prelude::*;

use crate::chars;
use crate::chars::Edge;

verus! {

/// The style that has the recordings.
pub const STYLE: u32 = 14;

/// How deep below the first directory the recordings may be.
pub const MAX_DEPTH: usize = 4;

/// A path, which is only handed on.
#[verifier::external_type_specification]
#[verifier::external_body]
pub struct ExPathBuf(std::path::PathBuf);

/// `PathBuf::clone` of std gives the same path.
pub assume_specification[ <std::path::PathBuf as Clone>::clone ](p: &std::path::PathBuf) -> (out:
    std::path::PathBuf)
    ensures
        out == *p,
;

/// A file that was found.
#[derive(Debug)]
pub struct Recording {
    /// How many directories below the first one the file's directory is.
    pub depth: usize,
    /// The name of the file, without its directories.
    pub name: String,
    pub path: PathBuf,
}

/// A file's name without its extension, which is what stands behind the last dot. A dot at the
/// beginning starts no extension.
pub open spec fn stem(name: Seq<char>) -> Seq<char> {
    let dot = chars::last_index(name, '.');
    if dot > 0 {
        name.take(dot)
    } else {
        name
    }
}

/// Whether a file's name has the extension of a recording, in small or capital letters.
pub open spec fn is_wav(name: Seq<char>) -> bool {
    let dot = chars::last_index(name, '.');
    dot > 0 && chars::ascii_lower(name.skip(dot + 1)) == "wav"@
}

/// The words of a recording: the name of its file without a number and an underscore at the
/// beginning.
pub open spec fn words(stem: Seq<char>) -> Seq<char> {
    let mark = chars::first_stop(stem, seq!['_']);
    if 0 < mark < stem.len() && chars::all_digits(stem.take(mark)) {
        stem.skip(mark + 1)
    } else {
        stem
    }
}

impl Recording {
    /// The words that the file is a recording of, if it is one.
    pub open spec fn key(self) -> Option<Seq<char>> {
        if self.depth <= MAX_DEPTH && is_wav(self.name@) {
            Some(words(stem(self.name@)))
        } else {
            None
        }
    }
}

/// What a list of files holds, by their words. Of several recordings of the same words the first
/// one counts.
pub open spec fn indexed(files: Seq<Recording>) -> Map<Seq<char>, PathBuf>
    decreases files.len(),
{
    if files.len() == 0 {
        Map::empty()
    } else {
        let before = indexed(files.drop_last());
        match files.last().key() {
            Some(key) if !before.contains_key(key) => before.insert(key, files.last().path),
            _ => before,
        }
    }
}

/// Recordings by their words.
#[derive(Debug)]
pub struct Library {
    entries: Vec<(String, PathBuf)>,
}

/// What entries hold.
spec fn held(entries: Seq<(String, PathBuf)>) -> Map<Seq<char>, PathBuf>
    decreases entries.len(),
{
    if entries.len() == 0 {
        Map::empty()
    } else {
        held(entries.drop_last()).insert(entries.last().0@, entries.last().1)
    }
}

/// Whether no words occur twice.
spec fn distinct(entries: Seq<(String, PathBuf)>) -> bool {
    forall|i: int, j: int|
        0 <= i < j < entries.len() ==> (#[trigger] entries[i]).0@ != (#[trigger] entries[j]).0@
}

/// An entry is what its words lead to.
proof fn lemma_entry(entries: Seq<(String, PathBuf)>, i: int)
    requires
        distinct(entries),
        0 <= i < entries.len(),
    ensures
        held(entries).contains_key(entries[i].0@),
        held(entries)[entries[i].0@] == entries[i].1,
    decreases entries.len(),
{
    if i < entries.len() - 1 {
        let rest = entries.drop_last();
        assert(rest[i] == entries[i]);
        assert(distinct(rest));
        lemma_entry(rest, i);
    }
}

/// Only the words of an entry lead anywhere.
proof fn lemma_absent(entries: Seq<(String, PathBuf)>, key: Seq<char>)
    requires
        forall|i: int| 0 <= i < entries.len() ==> (#[trigger] entries[i]).0@ != key,
    ensures
        !held(entries).contains_key(key),
    decreases entries.len(),
{
    if entries.len() > 0 {
        let rest = entries.drop_last();
        assert forall|i: int| 0 <= i < rest.len() implies (#[trigger] rest[i]).0@ != key by {
            assert(rest[i] == entries[i]);
        }
        lemma_absent(rest, key);
        assert(entries[entries.len() - 1].0@ != key);
    }
}

/// There are as many entries as words.
proof fn lemma_size(entries: Seq<(String, PathBuf)>)
    requires
        distinct(entries),
    ensures
        held(entries).dom().finite(),
        held(entries).dom().len() == entries.len(),
    decreases entries.len(),
{
    if entries.len() > 0 {
        let rest = entries.drop_last();
        assert(distinct(rest));
        lemma_size(rest);
        assert forall|i: int| 0 <= i < rest.len() implies (#[trigger] rest[i]).0@
            != entries.last().0@ by {
            assert(rest[i] == entries[i]);
        }
        lemma_absent(rest, entries.last().0@);
        assert(held(entries).dom() =~= held(rest).dom().insert(entries.last().0@));
    }
}

impl View for Library {
    type V = Map<Seq<char>, PathBuf>;

    closed spec fn view(&self) -> Map<Seq<char>, PathBuf> {
        held(self.entries@)
    }
}

impl Default for Library {
    fn default() -> (out: Library)
        ensures
            out.well_formed(),
            out@ == Map::<Seq<char>, PathBuf>::empty(),
    {
        Library { entries: Vec::new() }
    }
}

/// Whether all characters are digits.
fn is_number(text: &[char]) -> (out: bool)
    ensures
        out == chars::all_digits(text@),
{
    let mut i: usize = 0;
    while i < text.len()
        invariant
            i <= text@.len(),
            forall|j: int| 0 <= j < i ==> chars::is_digit(#[trigger] text@[j]),
        decreases text@.len() - i,
    {
        let c = text[i];
        if !('0' <= c && c <= '9') {
            assert(!chars::is_digit(text@[i as int]));
            return false;
        }
        i = i + 1;
    }
    true
}

/// The words of a recording, given its file's name.
fn key_of(depth: usize, name: &str) -> (out: Option<String>)
    ensures
        match out {
            Some(key) => depth <= MAX_DEPTH && is_wav(name@) && key@ == words(stem(name@)),
            None => !(depth <= MAX_DEPTH && is_wav(name@)),
        },
{
    if depth > MAX_DEPTH {
        return None;
    }
    let all = chars::to_chars(name);
    let all = all.as_slice();
    let dot: usize = match chars::find_last(all, '.') {
        Some(dot) if dot > 0 => dot,
        _ => return None,
    };
    proof {
        chars::lemma_last_index(name@, '.');
    }
    let extension = vstd::slice::slice_subrange(all, dot + 1, all.len());
    assert(extension@ == name@.skip(dot + 1));
    let extension = chars::ascii_lower_text(extension);
    if !chars::same(extension.as_str(), "wav") {
        return None;
    }
    let stem = vstd::slice::slice_subrange(all, 0, dot);
    assert(stem@ == name@.take(dot as int));
    let marks: [char; 1] = ['_'];
    assert(marks@ == seq!['_']);
    let mark: usize = chars::find_stop(stem, &marks);
    if 0 < mark && mark < stem.len() {
        let head = vstd::slice::slice_subrange(stem, 0, mark);
        assert(head@ == stem@.take(mark as int));
        if is_number(head) {
            let rest = vstd::slice::slice_subrange(stem, mark + 1, stem.len());
            assert(rest@ == stem@.skip(mark + 1));
            return Some(chars::from_chars(rest));
        }
    }
    Some(chars::from_chars(stem))
}

impl Library {
    /// No words occur twice.
    pub closed spec fn well_formed(self) -> bool {
        distinct(self.entries@)
    }

    /// The recordings among the files that were found. Without any file there are none, which is
    /// no error.
    pub fn load(files: &Vec<Recording>) -> (out: Library)
        ensures
            out.well_formed(),
            out@ == indexed(files@),
    {
        let mut out = Library { entries: Vec::new() };
        let mut i: usize = 0;
        while i < files.len()
            invariant
                i <= files@.len(),
                out.well_formed(),
                out@ == indexed(files@.take(i as int)),
            decreases files@.len() - i,
        {
            let file = &files[i];
            proof {
                assert(files@.take(i + 1).drop_last() == files@.take(i as int));
                assert(files@.take(i + 1).last() == files@[i as int]);
            }
            if let Some(key) = key_of(file.depth, file.name.as_str()) {
                let known = out.position(key.as_str());
                if known.is_none() {
                    let ghost before = out.entries@;
                    out.entries.push((key, file.path.clone()));
                    assert(out.entries@.drop_last() == before);
                    assert(distinct(out.entries@)) by {
                        assert forall|a: int, b: int| 0 <= a < b < out.entries@.len() implies (
                        #[trigger] out.entries@[a]).0@ != (#[trigger] out.entries@[b]).0@ by {
                            assert(out.entries@[a] == before[a]);
                            if b < before.len() {
                                assert(out.entries@[b] == before[b]);
                            }
                        }
                    }
                }
            }
            i = i + 1;
        }
        assert(files@.take(i as int) == files@);
        out
    }

    /// The entry with the words.
    fn position(&self, key: &str) -> (out: Option<usize>)
        requires
            self.well_formed(),
        ensures
            match out {
                Some(i) => i < self.entries@.len() && self.entries@[i as int].0@ == key@
                    && self@.contains_key(key@) && self@[key@] == self.entries@[i as int].1,
                None => !self@.contains_key(key@) && forall|i: int|
                    0 <= i < self.entries@.len() ==> (#[trigger] self.entries@[i]).0@ != key@,
            },
    {
        let mut i: usize = 0;
        while i < self.entries.len()
            invariant
                self.well_formed(),
                i <= self.entries@.len(),
                forall|j: int| 0 <= j < i ==> (#[trigger] self.entries@[j]).0@ != key@,
            decreases self.entries@.len() - i,
        {
            if chars::same(self.entries[i].0.as_str(), key) {
                proof {
                    lemma_entry(self.entries@, i as int);
                }
                return Some(i);
            }
            i = i + 1;
        }
        proof {
            lemma_absent(self.entries@, key@);
        }
        None
    }

    /// How many recordings there are.
    pub fn len(&self) -> (out: usize)
        requires
            self.well_formed(),
        ensures
            self@.dom().finite(),
            out == self@.dom().len(),
    {
        proof {
            lemma_size(self.entries@);
        }
        self.entries.len()
    }

    /// Whether there are no recordings.
    pub fn is_empty(&self) -> (out: bool)
        requires
            self.well_formed(),
        ensures
            out == (self@ == Map::<Seq<char>, PathBuf>::empty()),
    {
        proof {
            lemma_size(self.entries@);
            if self.entries@.len() > 0 {
                lemma_entry(self.entries@, 0);
            }
        }
        self.entries.len() == 0
    }

    /// The recording of `text`, blanks at its ends aside.
    pub fn find(&self, text: &str) -> (out: Option<PathBuf>)
        requires
            self.well_formed(),
        ensures
            out == (if self@.contains_key(chars::trimmed(Edge::Space, text@)) {
                Some(self@[chars::trimmed(Edge::Space, text@)])
            } else {
                None
            }),
    {
        let key = chars::trim_text(Edge::Space, text);
        match self.position(key.as_str()) {
            Some(i) => Some(self.entries[i].1.clone()),
            None => None,
        }
    }
}

/// Every recording is found by its words, and of several recordings of the same words the first.
pub proof fn the_first_recording_counts(files: Seq<Recording>, i: int)
    requires
        0 <= i < files.len(),
        files[i].key() is Some,
        forall|j: int| 0 <= j < i ==> (#[trigger] files[j]).key() != files[i].key(),
    ensures
        indexed(files).contains_key(files[i].key()->0),
        indexed(files)[files[i].key()->0] == files[i].path,
    decreases files.len(),
{
    let rest = files.drop_last();
    if i < files.len() - 1 {
        assert(rest[i] == files[i]);
        assert forall|j: int| 0 <= j < i implies (#[trigger] rest[j]).key() != rest[i].key() by {
            assert(rest[j] == files[j]);
        }
        the_first_recording_counts(rest, i);
    } else {
        assert forall|j: int| 0 <= j < rest.len() implies (#[trigger] rest[j]).key()
            != files[i].key() by {
            assert(rest[j] == files[j]);
        }
        lemma_unknown(rest, files[i].key()->0);
    }
}

/// Words that no file is a recording of lead nowhere.
proof fn lemma_unknown(files: Seq<Recording>, key: Seq<char>)
    requires
        forall|j: int| 0 <= j < files.len() ==> (#[trigger] files[j]).key() != Some(key),
    ensures
        !indexed(files).contains_key(key),
    decreases files.len(),
{
    if files.len() > 0 {
        let rest = files.drop_last();
        assert forall|j: int| 0 <= j < rest.len() implies (#[trigger] rest[j]).key() != Some(
            key,
        ) by {
            assert(rest[j] == files[j]);
        }
        lemma_unknown(rest, key);
        assert(files[files.len() - 1].key() != Some(key));
    }
}

/// Words that no file is a recording of lead nowhere.
pub proof fn words_without_a_recording_lead_nowhere(files: Seq<Recording>, key: Seq<char>)
    requires
        forall|j: int| 0 <= j < files.len() ==> (#[trigger] files[j]).key() != Some(key),
    ensures
        !indexed(files).contains_key(key),
{
    lemma_unknown(files, key);
}

/// Whether a text is the extension of a recording: the three letters in any case.
pub open spec fn is_extension(s: Seq<char>) -> bool {
    &&& s.len() == 3
    &&& s[0] == 'w' || s[0] == 'W'
    &&& s[1] == 'a' || s[1] == 'A'
    &&& s[2] == 'v' || s[2] == 'V'
}

/// A name parts at the dot before its extension.
proof fn lemma_extension(front: Seq<char>, extension: Seq<char>)
    requires
        front.len() > 0,
        forall|i: int| 0 <= i < extension.len() ==> #[trigger] extension[i] != '.',
    ensures
        stem(front + seq!['.'] + extension) == front,
        is_wav(front + seq!['.'] + extension) <==> chars::ascii_lower(extension) == "wav"@,
{
    let name = front + seq!['.'] + extension;
    let n = front.len() as int;
    chars::lemma_last_index(name, '.');
    assert(name[n] == '.');
    assert forall|i: int| n < i < name.len() implies #[trigger] name[i] != '.' by {
        assert(name[i] == extension[i - n - 1]);
    }
    assert(name.take(n) =~= front);
    assert(name.skip(n + 1) =~= extension);
}

/// The three letters in any case, and nothing else, are the extension.
proof fn lemma_three_letters(extension: Seq<char>)
    ensures
        chars::ascii_lower(extension) == "wav"@ <==> is_extension(extension),
{
    reveal_strlit("wav");
    let low = chars::ascii_lower(extension);
    if is_extension(extension) {
        assert(low =~= "wav"@);
    }
    if low == "wav"@ {
        assert(low.len() == extension.len());
        assert(low.len() == 3);
        assert(low[0] == 'w' && low[1] == 'a' && low[2] == 'v');
        assert(low[0] == chars::ascii_lower_char(extension[0]));
        assert(low[1] == chars::ascii_lower_char(extension[1]));
        assert(low[2] == chars::ascii_lower_char(extension[2]));
    }
}

/// A file with a number, an underscore, words and the extension in its name is a recording of the
/// words, whatever they hold; without a number before an underscore, of the whole name. Files with
/// another extension, and those too deep below, are no recordings.
pub proof fn a_file_is_named_after_its_words(
    number: Seq<char>,
    said: Seq<char>,
    plain: Seq<char>,
    extension: Seq<char>,
)
    requires
        number.len() > 0,
        chars::all_digits(number),
        plain.len() > 0,
        forall|i: int| 0 <= i < plain.len() ==> #[trigger] plain[i] != '_',
        forall|i: int| 0 <= i < extension.len() ==> #[trigger] extension[i] != '.',
    ensures
        words(stem(number + seq!['_'] + said + seq!['.'] + extension)) == said,
        words(stem(plain + seq!['.'] + extension)) == plain,
        is_wav(number + seq!['_'] + said + seq!['.'] + extension) <==> is_extension(extension),
        is_wav(plain + seq!['.'] + extension) <==> is_extension(extension),
        !is_wav(Seq::empty()),
{
    let full = number + seq!['_'] + said;
    let marks = seq!['_'];
    lemma_extension(full, extension);
    lemma_extension(plain, extension);
    lemma_three_letters(extension);
    chars::lemma_first_stop(full, marks);
    assert(marks[0] == '_');
    assert(full[number.len() as int] == '_');
    assert(marks.contains('_'));
    assert forall|i: int| 0 <= i < number.len() implies #[trigger] full[i] != '_' by {
        assert(full[i] == number[i]);
        assert(chars::is_digit(number[i]));
    }
    let mark = chars::first_stop(full, marks);
    assert(mark == number.len());
    assert(full.take(mark) =~= number);
    assert(full.skip(mark + 1) =~= said);
    chars::lemma_first_stop(plain, marks);
    let end = chars::first_stop(plain, marks);
    if end < plain.len() {
        assert(plain[end] != '_');
    }
}

/// Words before an underscore that are no number belong to the words.
pub proof fn only_a_number_is_left_out(front: Seq<char>, back: Seq<char>, at: int)
    requires
        0 <= at < front.len(),
        !chars::is_digit(front[at]),
        forall|i: int| 0 <= i < front.len() ==> #[trigger] front[i] != '_',
    ensures
        words(front + seq!['_'] + back) == front + seq!['_'] + back,
        words(seq!['_'] + back) == seq!['_'] + back,
{
    let marks = seq!['_'];
    let s = front + seq!['_'] + back;
    let t = seq!['_'] + back;
    assert(marks[0] == '_');
    assert(marks.contains('_'));
    chars::lemma_first_stop(s, marks);
    assert(s[front.len() as int] == '_');
    assert forall|i: int| 0 <= i < front.len() implies #[trigger] s[i] != '_' by {
        assert(s[i] == front[i]);
    }
    let mark = chars::first_stop(s, marks);
    assert(mark == front.len());
    assert(s.take(mark) =~= front);
    assert(t[0] == '_');
}

/// Recordings are looked for in the first directory and up to four below it, and only among the files
/// with their extension. How deep a file is does not change its words.
pub proof fn recordings_are_found_four_below(a: Recording, b: Recording)
    requires
        a.name@ == b.name@,
    ensures
        a.key() is Some <==> a.depth <= 4 && is_wav(a.name@),
        a.key() is Some && b.key() is Some ==> a.key() == b.key(),
{
}

} // verus!
