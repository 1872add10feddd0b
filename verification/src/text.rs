//! Turning a chat message into text that can be read aloud.
//!
//! What Discord knows (display names and so on) comes in through [`Names`].

use std::collections::HashMap;

use vstd::prelude::*;

use crate::chars;
use crate::pattern;
use crate::pattern::{Reading, ReadingModel};

verus! {

/// The reading of a user whose name is not known.
pub const UNKNOWN_USER: &'static str = "誰か";

/// The reading of a role whose name is not known.
pub const UNKNOWN_ROLE: &'static str = "ロール";

/// The reading of a channel whose name is not known.
pub const UNKNOWN_CHANNEL: &'static str = "どこか";

/// What stands before the name of a channel.
pub const CHANNEL_PREFIX: &'static str = "#";

/// The reading of a fenced code block.
pub const CODE_BLOCK_READING: &'static str = "コード省略";

/// The reading of a web address.
pub const URL_READING: &'static str = "URL省略";

/// The reading of laughter.
pub const LAUGH_READING: &'static str = "わら";

/// The reading of a message that has attachments and nothing else to read.
pub const ATTACHMENT_READING: &'static str = "ファイル";

/// What stands at the end of a text that was cut short.
pub const TRUNCATED_SUFFIX: &'static str = "以下略";

/// How often the same character may stand in a row.
pub const MAX_REPEAT: usize = 3;

/// How many characters of a message are read unless a server says otherwise.
pub const DEFAULT_MAX_LENGTH: usize = 100;

/// The names that Discord has for identifiers. What is missing gets a stock reading.
#[derive(Debug, Clone)]
pub struct Names {
    pub users: HashMap<u64, String>,
    pub roles: HashMap<u64, String>,
    pub channels: HashMap<u64, String>,
}

/// The mathematical counterpart of [`Names`].
pub struct NamesModel {
    pub users: Map<u64, Seq<char>>,
    pub roles: Map<u64, Seq<char>>,
    pub channels: Map<u64, Seq<char>>,
}

/// No names at all.
pub open spec fn no_names() -> NamesModel {
    NamesModel { users: Map::empty(), roles: Map::empty(), channels: Map::empty() }
}

impl View for Names {
    type V = NamesModel;

    open spec fn view(&self) -> NamesModel {
        NamesModel {
            users: pattern::texts(self.users@),
            roles: pattern::texts(self.roles@),
            channels: pattern::texts(self.channels@),
        }
    }
}

impl Default for Names {
    fn default() -> (out: Names)
        ensures
            out@ == no_names(),
    {
        broadcast use vstd::std_specs::hash::group_hash_axioms;

        let out = Names { users: HashMap::new(), roles: HashMap::new(), channels: HashMap::new() };
        assert(out@.users == no_names().users);
        assert(out@.roles == no_names().roles);
        assert(out@.channels == no_names().channels);
        out
    }
}

/// The conditions under which a message is normalized.
#[derive(Debug, Clone, Copy)]
pub struct Options<'a> {
    /// How many characters are read at most.
    pub max_length: usize,
    /// The known names, if any.
    pub names: Option<&'a Names>,
    /// The dictionary of the server, from spelling to reading.
    pub dictionary: &'a [(String, String)],
    /// The number of attachments. A message with nothing but these is announced as a file.
    pub attachments: usize,
}

/// A dictionary as pairs of texts.
pub open spec fn entries(dictionary: Seq<(String, String)>) -> Seq<(Seq<char>, Seq<char>)> {
    Seq::new(dictionary.len(), |i: int| (dictionary[i].0@, dictionary[i].1@))
}

impl<'a> Options<'a> {
    /// The names that are known.
    pub open spec fn known_names(self) -> NamesModel {
        match self.names {
            Some(names) => names@,
            None => no_names(),
        }
    }
}

impl<'a> Default for Options<'a> {
    fn default() -> (out: Options<'a>)
        ensures
            out.max_length == DEFAULT_MAX_LENGTH,
            out.names is None,
            out.dictionary@.len() == 0,
            out.attachments == 0,
    {
        Options { max_length: DEFAULT_MAX_LENGTH, names: None, dictionary: &[], attachments: 0 }
    }
}

/// The entries whose spelling has `n` characters, in their order.
pub open spec fn of_length(dictionary: Seq<(Seq<char>, Seq<char>)>, n: int) -> Seq<
    (Seq<char>, Seq<char>),
>
    decreases dictionary.len(),
{
    if dictionary.len() == 0 {
        Seq::empty()
    } else if dictionary[0].0.len() == n {
        seq![dictionary[0]] + of_length(dictionary.skip(1), n)
    } else {
        of_length(dictionary.skip(1), n)
    }
}

/// The entries whose spelling has at most `n` characters: the longest spellings first, and those
/// of the same length in their order.
pub open spec fn up_to_length(dictionary: Seq<(Seq<char>, Seq<char>)>, n: int) -> Seq<
    (Seq<char>, Seq<char>),
>
    decreases n + 1,
{
    if n < 0 {
        Seq::empty()
    } else {
        of_length(dictionary, n) + up_to_length(dictionary, n - 1)
    }
}

/// The length of the longest spelling.
pub open spec fn longest(dictionary: Seq<(Seq<char>, Seq<char>)>) -> int
    decreases dictionary.len(),
{
    if dictionary.len() == 0 {
        0
    } else {
        let before = longest(dictionary.drop_last());
        let last = dictionary.last().0.len() as int;
        if last > before {
            last
        } else {
            before
        }
    }
}

/// The entries, the longest spellings first, and those of the same length in their order.
pub open spec fn longest_first(dictionary: Seq<(Seq<char>, Seq<char>)>) -> Seq<
    (Seq<char>, Seq<char>),
> {
    up_to_length(dictionary, longest(dictionary))
}

/// `s` with the spelling of `entry` replaced by its reading. An empty spelling is ignored.
pub open spec fn respelled_once(s: Seq<char>, entry: (Seq<char>, Seq<char>)) -> Seq<char> {
    if entry.0.len() == 0 {
        s
    } else {
        chars::substituted(s, entry.0, entry.1)
    }
}

/// `s` after the replacements of `ordered`, one entry after the other.
pub open spec fn respelled(s: Seq<char>, ordered: Seq<(Seq<char>, Seq<char>)>) -> Seq<char>
    decreases ordered.len(),
{
    if ordered.len() == 0 {
        s
    } else {
        respelled(respelled_once(s, ordered[0]), ordered.skip(1))
    }
}

/// No spelling is longer than the longest.
pub(crate) proof fn lemma_longest(dictionary: Seq<(Seq<char>, Seq<char>)>)
    ensures
        longest(dictionary) >= 0,
        forall|i: int|
            0 <= i < dictionary.len() ==> (#[trigger] dictionary[i]).0.len() <= longest(dictionary),
    decreases dictionary.len(),
{
    if dictionary.len() > 0 {
        lemma_longest(dictionary.drop_last());
        assert forall|i: int| 0 <= i < dictionary.len() implies (
        #[trigger] dictionary[i]).0.len() <= longest(dictionary) by {
            if i < dictionary.len() - 1 {
                assert(dictionary.drop_last()[i] == dictionary[i]);
            }
        }
    }
}

/// The entries of one length all have that length.
proof fn lemma_of_length(dictionary: Seq<(Seq<char>, Seq<char>)>, n: int)
    ensures
        forall|i: int|
            0 <= i < of_length(dictionary, n).len() ==> (
            #[trigger] of_length(dictionary, n)[i]).0.len() == n,
    decreases dictionary.len(),
{
    if dictionary.len() > 0 {
        let rest = dictionary.skip(1);
        lemma_of_length(rest, n);
        let all = of_length(dictionary, n);
        assert forall|i: int| 0 <= i < all.len() implies (#[trigger] all[i]).0.len() == n by {
            if dictionary[0].0.len() == n {
                if i > 0 {
                    assert(all[i] == of_length(rest, n)[i - 1]);
                }
            } else {
                assert(all[i] == of_length(rest, n)[i]);
            }
        }
    }
}

/// The ordered entries have non-increasing lengths, all at most `n`.
proof fn lemma_up_to_length(dictionary: Seq<(Seq<char>, Seq<char>)>, n: int)
    ensures
        forall|i: int|
            0 <= i < up_to_length(dictionary, n).len() ==> (
            #[trigger] up_to_length(dictionary, n)[i]).0.len() <= n,
        forall|i: int, j: int|
            0 <= i <= j < up_to_length(dictionary, n).len() ==> (
            #[trigger] up_to_length(dictionary, n)[i]).0.len() >= (
            #[trigger] up_to_length(dictionary, n)[j]).0.len(),
    decreases n + 1,
{
    if n >= 0 {
        lemma_up_to_length(dictionary, n - 1);
        lemma_of_length(dictionary, n);
        let head = of_length(dictionary, n);
        let tail = up_to_length(dictionary, n - 1);
        let all = up_to_length(dictionary, n);
        assert forall|i: int| 0 <= i < all.len() implies (#[trigger] all[i]).0.len() <= n && (i
            < head.len() ==> all[i].0.len() == n) by {
            if i < head.len() {
                assert(all[i] == head[i]);
            } else {
                assert(all[i] == tail[i - head.len()]);
            }
        }
        assert forall|i: int, j: int| 0 <= i <= j < all.len() implies (
        #[trigger] all[i]).0.len() >= (#[trigger] all[j]).0.len() by {
            if i >= head.len() {
                assert(all[i] == tail[i - head.len()]);
                assert(all[j] == tail[j - head.len()]);
            }
        }
    }
}

/// How often an entry occurs among those of one length.
proof fn lemma_of_length_counts(
    dictionary: Seq<(Seq<char>, Seq<char>)>,
    n: int,
    entry: (Seq<char>, Seq<char>),
)
    ensures
        of_length(dictionary, n).to_multiset().count(entry) == if entry.0.len() == n {
            dictionary.to_multiset().count(entry)
        } else {
            0
        },
    decreases dictionary.len(),
{
    broadcast use vstd::seq_lib::group_to_multiset_ensures;
    broadcast use vstd::multiset::group_multiset_axioms;

    if dictionary.len() > 0 {
        let rest = dictionary.skip(1);
        lemma_of_length_counts(rest, n, entry);
        assert(dictionary == seq![dictionary[0]] + rest);
        vstd::seq_lib::lemma_multiset_commutative(seq![dictionary[0]], rest);
        vstd::seq_lib::lemma_multiset_commutative(seq![dictionary[0]], of_length(rest, n));
        assert(seq![dictionary[0]] == Seq::empty().push(dictionary[0]));
        assert(seq![dictionary[0]].to_multiset().count(entry) == if entry == dictionary[0] {
            1nat
        } else {
            0nat
        });
    }
}

/// How often an entry occurs in the ordered entries.
proof fn lemma_up_to_length_counts(
    dictionary: Seq<(Seq<char>, Seq<char>)>,
    n: int,
    entry: (Seq<char>, Seq<char>),
)
    ensures
        up_to_length(dictionary, n).to_multiset().count(entry) == if entry.0.len() <= n {
            dictionary.to_multiset().count(entry)
        } else {
            0
        },
    decreases n + 1,
{
    broadcast use vstd::seq_lib::group_to_multiset_ensures;
    broadcast use vstd::multiset::group_multiset_axioms;

    if n >= 0 {
        lemma_up_to_length_counts(dictionary, n - 1, entry);
        lemma_of_length_counts(dictionary, n, entry);
        vstd::seq_lib::lemma_multiset_commutative(
            of_length(dictionary, n),
            up_to_length(dictionary, n - 1),
        );
    }
}

/// The order in which a dictionary is applied is a rearrangement of the dictionary in which no
/// entry comes before one with a longer spelling.
pub proof fn longer_spellings_come_first(dictionary: Seq<(Seq<char>, Seq<char>)>)
    ensures
        longest_first(dictionary).to_multiset() == dictionary.to_multiset(),
        forall|i: int, j: int|
            0 <= i <= j < longest_first(dictionary).len() ==> (
            #[trigger] longest_first(dictionary)[i]).0.len() >= (
            #[trigger] longest_first(dictionary)[j]).0.len(),
{
    broadcast use vstd::seq_lib::group_to_multiset_ensures;
    broadcast use vstd::multiset::group_multiset_axioms;

    lemma_longest(dictionary);
    lemma_up_to_length(dictionary, longest(dictionary));
    let ordered = longest_first(dictionary).to_multiset();
    let given = dictionary.to_multiset();
    assert forall|entry: (Seq<char>, Seq<char>)| ordered.count(entry) == given.count(entry) by {
        lemma_up_to_length_counts(dictionary, longest(dictionary), entry);
        if entry.0.len() > longest(dictionary) {
            assert(!dictionary.contains(entry));
        }
    }
    assert(ordered =~= given);
}

/// The length of the longest spelling.
fn longest_spelling(dictionary: &[(String, String)]) -> (out: usize)
    ensures
        out == longest(entries(dictionary@)),
{
    let ghost all = entries(dictionary@);
    let mut out: usize = 0;
    let mut i: usize = 0;
    while i < dictionary.len()
        invariant
            i <= dictionary.len(),
            all == entries(dictionary@),
            out == longest(all.take(i as int)),
        decreases dictionary.len() - i,
    {
        let length: usize = dictionary[i].0.as_str().unicode_len();
        i = i + 1;
        assert(all.take(i as int).drop_last() == all.take(i - 1));
        assert(all.take(i as int).last() == all[i - 1]);
        if length > out {
            out = length;
        }
    }
    assert(all.take(i as int) == all);
    out
}

/// `input` with the spellings of `dictionary` replaced by their readings. Long spellings go first,
/// so that a short one cannot break up a long one.
pub fn apply_dictionary(input: &str, dictionary: &[(String, String)]) -> (out: String)
    ensures
        out@ == respelled(input@, longest_first(entries(dictionary@))),
{
    let ghost all = entries(dictionary@);
    let mut text = input.to_owned();
    let mut n: usize = longest_spelling(dictionary);
    loop
        invariant_except_break
            respelled(text@, up_to_length(all, n as int)) == respelled(input@, longest_first(all)),
        invariant
            all == entries(dictionary@),
        ensures
            text@ == respelled(input@, longest_first(all)),
        decreases n,
    {
        let ghost shorter = up_to_length(all, n - 1);
        let mut i: usize = 0;
        assert(all.skip(0) == all);
        while i < dictionary.len()
            invariant
                i <= dictionary.len(),
                all == entries(dictionary@),
                shorter == up_to_length(all, n - 1),
                respelled(text@, of_length(all.skip(i as int), n as int) + shorter) == respelled(
                    input@,
                    longest_first(all),
                ),
            decreases dictionary.len() - i,
        {
            let ghost rest = all.skip(i as int);
            let spelling = dictionary[i].0.as_str();
            assert(rest.skip(1) == all.skip(i + 1));
            assert(rest[0] == all[i as int]);
            if spelling.unicode_len() == n {
                let ghost remaining = of_length(rest, n as int) + shorter;
                assert(remaining.skip(1) == of_length(all.skip(i + 1), n as int) + shorter);
                assert(remaining[0] == rest[0]);
                if n > 0 {
                    text = chars::replace_text(text.as_str(), spelling, dictionary[i].1.as_str());
                }
            }
            i = i + 1;
        }
        assert(all.skip(i as int) == Seq::<(Seq<char>, Seq<char>)>::empty());
        assert(of_length(all.skip(i as int), n as int) + shorter == shorter);
        if n == 0 {
            assert(shorter == Seq::<(Seq<char>, Seq<char>)>::empty());
            break;
        }
        n = n - 1;
    }
    text
}

/// Whether `c` ends a line.
pub open spec fn is_break(c: char) -> bool {
    c == '\n' || c == '\r'
}

/// `s` with every unbroken run of line ends replaced by one ideographic comma.
pub open spec fn on_one_line(s: Seq<char>) -> Seq<char>
    decreases s.len(),
{
    if s.len() == 0 {
        s
    } else {
        let before = on_one_line(s.drop_last());
        if !is_break(s.last()) {
            before.push(s.last())
        } else if s.len() > 1 && is_break(s[s.len() - 2]) {
            before
        } else {
            before.push('、')
        }
    }
}

/// `input` with line ends read as a pause. Several in a row are one pause.
pub fn collapse_newlines(input: &str) -> (out: String)
    ensures
        out@ == on_one_line(input@),
{
    let text = chars::to_chars(input);
    let mut out = String::new();
    let mut in_break = false;
    let mut i: usize = 0;
    while i < text.len()
        invariant
            i <= text.len(),
            out@ == on_one_line(text@.take(i as int)),
            in_break == (i > 0 && is_break(text@[i - 1])),
        decreases text.len() - i,
    {
        let c = text[i];
        assert(text@.take(i + 1).drop_last() == text@.take(i as int));
        if c == '\n' || c == '\r' {
            if !in_break {
                out.push('、');
                in_break = true;
            }
        } else {
            in_break = false;
            out.push(c);
        }
        i = i + 1;
    }
    assert(text@.take(i as int) == text@);
    out
}

/// How often the last character of `s` stands in a row at its end.
pub open spec fn last_run(s: Seq<char>) -> int
    decreases s.len(),
{
    if s.len() == 0 {
        0
    } else if s.len() > 1 && s[s.len() - 2] == s.last() {
        last_run(s.drop_last()) + 1
    } else {
        1
    }
}

/// `s` with every run of one character cut to the repeat limit.
pub open spec fn compressed(s: Seq<char>) -> Seq<char>
    decreases s.len(),
{
    if s.len() == 0 {
        s
    } else if last_run(s) <= MAX_REPEAT {
        compressed(s.drop_last()).push(s.last())
    } else {
        compressed(s.drop_last())
    }
}

/// `input` with every run of one character cut to [`MAX_REPEAT`].
pub fn compress_repeats(input: &str) -> (out: String)
    ensures
        out@ == compressed(input@),
{
    let text = chars::to_chars(input);
    let mut out = String::new();
    let mut run: usize = 0;
    let mut i: usize = 0;
    while i < text.len()
        invariant
            i <= text.len(),
            run <= i,
            out@ == compressed(text@.take(i as int)),
            run == last_run(text@.take(i as int)),
        decreases text.len() - i,
    {
        let c = text[i];
        assert(text@.take(i + 1).drop_last() == text@.take(i as int));
        if i > 0 && text[i - 1] == c {
            run = run + 1;
        } else {
            run = 1;
        }
        if run <= MAX_REPEAT {
            out.push(c);
        }
        i = i + 1;
    }
    assert(text@.take(i as int) == text@);
    out
}

/// `s`, or its first `max` characters and the mark of a text cut short.
pub open spec fn shortened(s: Seq<char>, max: nat) -> Seq<char> {
    if s.len() <= max {
        s
    } else {
        s.take(max as int) + TRUNCATED_SUFFIX@
    }
}

/// `input` cut to `max_length` characters, with [`TRUNCATED_SUFFIX`] where something was cut.
pub fn truncate(input: &str, max_length: usize) -> (out: String)
    ensures
        out@ == shortened(input@, max_length as nat),
{
    let text = chars::to_chars(input);
    if text.len() <= max_length {
        return input.to_owned();
    }
    let head = vstd::slice::slice_subrange(text.as_slice(), 0, max_length);
    assert(head@ == input@.take(max_length as int));
    let mut out = chars::from_chars(head);
    out.append(TRUNCATED_SUFFIX);
    out
}

/// `s` with its markup replaced by something readable. Code blocks go first, so that nothing is
/// looked for inside them.
pub open spec fn without_markup(s: Seq<char>, names: NamesModel) -> Seq<char> {
    let s = pattern::rewritten(pattern::CODE_BLOCK@, s, ReadingModel::Text(CODE_BLOCK_READING@));
    let s = pattern::rewritten(pattern::INLINE_CODE@, s, ReadingModel::Group);
    let s = pattern::rewritten(pattern::URL@, s, ReadingModel::Text(URL_READING@));
    let s = pattern::rewritten(pattern::CUSTOM_EMOJI@, s, ReadingModel::Group);
    let s = pattern::rewritten(
        pattern::USER_MENTION@,
        s,
        ReadingModel::Name { names: names.users, prefix: Seq::empty(), unknown: UNKNOWN_USER@ },
    );
    let s = pattern::rewritten(
        pattern::ROLE_MENTION@,
        s,
        ReadingModel::Name { names: names.roles, prefix: Seq::empty(), unknown: UNKNOWN_ROLE@ },
    );
    pattern::rewritten(
        pattern::CHANNEL_MENTION@,
        s,
        ReadingModel::Name {
            names: names.channels,
            prefix: CHANNEL_PREFIX@,
            unknown: UNKNOWN_CHANNEL@,
        },
    )
}

/// `s` on one line: laughter as a word, line ends as pauses, long runs cut, the ends trimmed.
pub open spec fn smoothed(s: Seq<char>) -> Seq<char> {
    let s = pattern::rewritten(pattern::LAUGH@, s, ReadingModel::Text(LAUGH_READING@));
    chars::trimmed(chars::Edge::SpaceOrComma, compressed(on_one_line(s)))
}

/// What is left of a message to read, before it is cut to length.
pub open spec fn readable(
    s: Seq<char>,
    names: NamesModel,
    dictionary: Seq<(Seq<char>, Seq<char>)>,
) -> Seq<char> {
    smoothed(respelled(without_markup(s, names), longest_first(dictionary)))
}

/// The reading of a message, if there is anything to read.
pub open spec fn normalized(
    s: Seq<char>,
    max_length: nat,
    names: NamesModel,
    dictionary: Seq<(Seq<char>, Seq<char>)>,
    attachments: nat,
) -> Option<Seq<char>> {
    let body = readable(s, names, dictionary);
    if body.len() > 0 {
        Some(shortened(body, max_length))
    } else if attachments > 0 {
        Some(ATTACHMENT_READING@)
    } else {
        None
    }
}

impl<'a> Options<'a> {
    /// The reading of `s` under these conditions, if there is anything to read.
    pub open spec fn reading_of(self, s: Seq<char>) -> Option<Seq<char>> {
        normalized(
            s,
            self.max_length as nat,
            self.known_names(),
            entries(self.dictionary@),
            self.attachments as nat,
        )
    }
}

/// Replaces the markup in `input`.
fn replace_markup(input: &str, names: &Names) -> (out: String)
    ensures
        out@ == without_markup(input@, names@),
{
    proof {
        reveal_strlit("");
        assert(""@ == Seq::<char>::empty());
    }
    let text = pattern::replace_matches(
        pattern::CODE_BLOCK,
        input,
        &Reading::Text(CODE_BLOCK_READING),
    );
    let text = pattern::replace_matches(pattern::INLINE_CODE, text.as_str(), &Reading::Group);
    let text = pattern::replace_matches(pattern::URL, text.as_str(), &Reading::Text(URL_READING));
    let text = pattern::replace_matches(pattern::CUSTOM_EMOJI, text.as_str(), &Reading::Group);
    let text = pattern::replace_matches(
        pattern::USER_MENTION,
        text.as_str(),
        &Reading::Name { names: &names.users, prefix: "", unknown: UNKNOWN_USER },
    );
    let text = pattern::replace_matches(
        pattern::ROLE_MENTION,
        text.as_str(),
        &Reading::Name { names: &names.roles, prefix: "", unknown: UNKNOWN_ROLE },
    );
    pattern::replace_matches(
        pattern::CHANNEL_MENTION,
        text.as_str(),
        &Reading::Name {
            names: &names.channels,
            prefix: CHANNEL_PREFIX,
            unknown: UNKNOWN_CHANNEL,
        },
    )
}

/// Turns a message into text to read aloud. `None` if there is nothing to read.
pub fn normalize(input: &str, options: &Options<'_>) -> (out: Option<String>)
    ensures
        out is Some <==> options.reading_of(input@) is Some,
        out matches Some(text) ==> options.reading_of(input@) == Some(text@),
{
    let nobody = Names::default();
    let names = match options.names {
        Some(names) => names,
        None => &nobody,
    };
    let text = replace_markup(input, names);
    let text = apply_dictionary(text.as_str(), options.dictionary);
    let text = pattern::replace_matches(
        pattern::LAUGH,
        text.as_str(),
        &Reading::Text(LAUGH_READING),
    );
    let text = collapse_newlines(text.as_str());
    let text = compress_repeats(text.as_str());
    let text = chars::trim_text(chars::Edge::SpaceOrComma, text.as_str());
    if text.as_str().is_empty() {
        if options.attachments > 0 {
            return Some(ATTACHMENT_READING.to_owned());
        }
        return None;
    }
    Some(truncate(text.as_str(), options.max_length))
}

} // verus!
