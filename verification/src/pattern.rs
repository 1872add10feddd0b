//! The markup that a chat message can hold, and its replacement by something readable.
//!
//! The markup is written down as regular expressions and found by the `regex` crate. Every pattern
//! here matches in at most one way at a given place, so what it matches can be stated directly.

use std::collections::HashMap;

use vstd::prelude::*;

use crate::chars;

verus! {

/// A fenced code block, across lines, up to the nearest closing fence.
pub const CODE_BLOCK: &'static str = "(?s)```.*?```";

/// Inline code; the group is what stands between the backticks.
pub const INLINE_CODE: &'static str = "`([^`]*)`";

/// A web address, up to the next white space.
pub const URL: &'static str = "https?://\\S+";

/// A custom emoji, animated or not; the group is its name.
pub const CUSTOM_EMOJI: &'static str = "<a?:([^:>]+):\\d+>";

/// A mention of a user, in the current or the older nickname form; the group is the identifier.
pub const USER_MENTION: &'static str = "<@!?(\\d+)>";

/// A mention of a role; the group is the identifier.
pub const ROLE_MENTION: &'static str = "<@&(\\d+)>";

/// A mention of a channel; the group is the identifier.
pub const CHANNEL_MENTION: &'static str = "<#(\\d+)>";

/// Laughter: two or more of the letter w, half or full width.
pub const LAUGH: &'static str = "[wｗ]{2,}";

/// Whether `pattern` is one of the patterns of this module.
pub open spec fn is_known(pattern: Seq<char>) -> bool {
    ||| pattern == CODE_BLOCK@
    ||| pattern == INLINE_CODE@
    ||| pattern == URL@
    ||| pattern == CUSTOM_EMOJI@
    ||| pattern == USER_MENTION@
    ||| pattern == ROLE_MENTION@
    ||| pattern == CHANNEL_MENTION@
    ||| pattern == LAUGH@
}

/// What a pattern matches at the start of a text: how many characters, and its group.
pub struct Found {
    pub length: int,
    pub group: Seq<char>,
}

/// The characters with the Unicode general category Nd.
#[verifier::opaque]
pub open spec fn is_decimal_digit(c: char) -> bool {
    ||| 0x30 <= c as u32 <= 0x39
    ||| 0x660 <= c as u32 <= 0x669
    ||| 0x6f0 <= c as u32 <= 0x6f9
    ||| 0x7c0 <= c as u32 <= 0x7c9
    ||| 0x966 <= c as u32 <= 0x96f
    ||| 0x9e6 <= c as u32 <= 0x9ef
    ||| 0xa66 <= c as u32 <= 0xa6f
    ||| 0xae6 <= c as u32 <= 0xaef
    ||| 0xb66 <= c as u32 <= 0xb6f
    ||| 0xbe6 <= c as u32 <= 0xbef
    ||| 0xc66 <= c as u32 <= 0xc6f
    ||| 0xce6 <= c as u32 <= 0xcef
    ||| 0xd66 <= c as u32 <= 0xd6f
    ||| 0xde6 <= c as u32 <= 0xdef
    ||| 0xe50 <= c as u32 <= 0xe59
    ||| 0xed0 <= c as u32 <= 0xed9
    ||| 0xf20 <= c as u32 <= 0xf29
    ||| 0x1040 <= c as u32 <= 0x1049
    ||| 0x1090 <= c as u32 <= 0x1099
    ||| 0x17e0 <= c as u32 <= 0x17e9
    ||| 0x1810 <= c as u32 <= 0x1819
    ||| 0x1946 <= c as u32 <= 0x194f
    ||| 0x19d0 <= c as u32 <= 0x19d9
    ||| 0x1a80 <= c as u32 <= 0x1a89
    ||| 0x1a90 <= c as u32 <= 0x1a99
    ||| 0x1b50 <= c as u32 <= 0x1b59
    ||| 0x1bb0 <= c as u32 <= 0x1bb9
    ||| 0x1c40 <= c as u32 <= 0x1c49
    ||| 0x1c50 <= c as u32 <= 0x1c59
    ||| 0xa620 <= c as u32 <= 0xa629
    ||| 0xa8d0 <= c as u32 <= 0xa8d9
    ||| 0xa900 <= c as u32 <= 0xa909
    ||| 0xa9d0 <= c as u32 <= 0xa9d9
    ||| 0xa9f0 <= c as u32 <= 0xa9f9
    ||| 0xaa50 <= c as u32 <= 0xaa59
    ||| 0xabf0 <= c as u32 <= 0xabf9
    ||| 0xff10 <= c as u32 <= 0xff19
    ||| 0x104a0 <= c as u32 <= 0x104a9
    ||| 0x10d30 <= c as u32 <= 0x10d39
    ||| 0x10d40 <= c as u32 <= 0x10d49
    ||| 0x11066 <= c as u32 <= 0x1106f
    ||| 0x110f0 <= c as u32 <= 0x110f9
    ||| 0x11136 <= c as u32 <= 0x1113f
    ||| 0x111d0 <= c as u32 <= 0x111d9
    ||| 0x112f0 <= c as u32 <= 0x112f9
    ||| 0x11450 <= c as u32 <= 0x11459
    ||| 0x114d0 <= c as u32 <= 0x114d9
    ||| 0x11650 <= c as u32 <= 0x11659
    ||| 0x116c0 <= c as u32 <= 0x116c9
    ||| 0x116d0 <= c as u32 <= 0x116e3
    ||| 0x11730 <= c as u32 <= 0x11739
    ||| 0x118e0 <= c as u32 <= 0x118e9
    ||| 0x11950 <= c as u32 <= 0x11959
    ||| 0x11bf0 <= c as u32 <= 0x11bf9
    ||| 0x11c50 <= c as u32 <= 0x11c59
    ||| 0x11d50 <= c as u32 <= 0x11d59
    ||| 0x11da0 <= c as u32 <= 0x11da9
    ||| 0x11f50 <= c as u32 <= 0x11f59
    ||| 0x16130 <= c as u32 <= 0x16139
    ||| 0x16a60 <= c as u32 <= 0x16a69
    ||| 0x16ac0 <= c as u32 <= 0x16ac9
    ||| 0x16b50 <= c as u32 <= 0x16b59
    ||| 0x16d70 <= c as u32 <= 0x16d79
    ||| 0x1ccf0 <= c as u32 <= 0x1ccf9
    ||| 0x1d7ce <= c as u32 <= 0x1d7ff
    ||| 0x1e140 <= c as u32 <= 0x1e149
    ||| 0x1e2f0 <= c as u32 <= 0x1e2f9
    ||| 0x1e4f0 <= c as u32 <= 0x1e4f9
    ||| 0x1e5f1 <= c as u32 <= 0x1e5fa
    ||| 0x1e950 <= c as u32 <= 0x1e959
    ||| 0x1fbf0 <= c as u32 <= 0x1fbf9
}

/// How many characters at the start of `s` satisfy `class`.
pub open spec fn run(s: Seq<char>, class: spec_fn(char) -> bool) -> int
    decreases s.len(),
{
    if s.len() > 0 && class(s[0]) {
        1 + run(s.skip(1), class)
    } else {
        0
    }
}

/// The first index at which `p` stands in `s`.
pub open spec fn first_index(s: Seq<char>, p: Seq<char>) -> Option<int>
    decreases s.len(),
{
    if chars::begins(s, p) {
        Some(0)
    } else if s.len() == 0 {
        None
    } else {
        match first_index(s.skip(1), p) {
            Some(i) => Some(i + 1),
            None => None,
        }
    }
}

/// The fence of a code block.
pub open spec fn fence() -> Seq<char> {
    seq!['`', '`', '`']
}

pub open spec fn code_block_at(s: Seq<char>) -> Option<Found> {
    if chars::begins(s, fence()) {
        match first_index(s.skip(3), fence()) {
            Some(i) => Some(Found { length: i + 6, group: Seq::empty() }),
            None => None,
        }
    } else {
        None
    }
}

pub open spec fn inline_code_at(s: Seq<char>) -> Option<Found> {
    let n = run(s.skip(1), |c: char| c != '`');
    if s.len() > 0 && s[0] == '`' && 1 + n < s.len() {
        Some(Found { length: n + 2, group: s.subrange(1, 1 + n) })
    } else {
        None
    }
}

pub open spec fn url_at(s: Seq<char>) -> Option<Found> {
    let head: int = if chars::begins(s, seq!['h', 't', 't', 'p', 's', ':', '/', '/']) {
        8
    } else {
        7
    };
    let n = run(s.skip(head), |c: char| !chars::is_space(c));
    if (head == 8 || chars::begins(s, seq!['h', 't', 't', 'p', ':', '/', '/'])) && n > 0 {
        Some(Found { length: head + n, group: Seq::empty() })
    } else {
        None
    }
}

pub open spec fn custom_emoji_at(s: Seq<char>) -> Option<Found> {
    let head: int = if chars::begins(s, seq!['<', 'a', ':']) {
        3
    } else {
        2
    };
    let n = run(s.skip(head), |c: char| c != ':' && c != '>');
    let d = run(s.skip(head + n + 1), |c: char| is_decimal_digit(c));
    let end = head + n + 1 + d;
    if (head == 3 || chars::begins(s, seq!['<', ':'])) && n > 0 && d > 0 && end < s.len() && s[head + n]
        == ':' && s[end] == '>' {
        Some(Found { length: end + 1, group: s.subrange(head, head + n) })
    } else {
        None
    }
}

/// A mention whose identifier begins after `head` characters.
pub open spec fn mention_at(s: Seq<char>, head: int) -> Option<Found> {
    let d = run(s.skip(head), |c: char| is_decimal_digit(c));
    if d > 0 && head + d < s.len() && s[head + d] == '>' {
        Some(Found { length: head + d + 1, group: s.subrange(head, head + d) })
    } else {
        None
    }
}

pub open spec fn user_mention_at(s: Seq<char>) -> Option<Found> {
    if chars::begins(s, seq!['<', '@', '!']) {
        mention_at(s, 3)
    } else if chars::begins(s, seq!['<', '@']) {
        mention_at(s, 2)
    } else {
        None
    }
}

pub open spec fn role_mention_at(s: Seq<char>) -> Option<Found> {
    if chars::begins(s, seq!['<', '@', '&']) {
        mention_at(s, 3)
    } else {
        None
    }
}

pub open spec fn channel_mention_at(s: Seq<char>) -> Option<Found> {
    if chars::begins(s, seq!['<', '#']) {
        mention_at(s, 2)
    } else {
        None
    }
}

pub open spec fn laugh_at(s: Seq<char>) -> Option<Found> {
    let n = run(s, |c: char| c == 'w' || c == 'ｗ');
    if n >= 2 {
        Some(Found { length: n, group: Seq::empty() })
    } else {
        None
    }
}

/// What `pattern` matches at the start of `s`.
#[verifier::opaque]
pub open spec fn match_at(pattern: Seq<char>, s: Seq<char>) -> Option<Found> {
    if pattern == CODE_BLOCK@ {
        code_block_at(s)
    } else if pattern == INLINE_CODE@ {
        inline_code_at(s)
    } else if pattern == URL@ {
        url_at(s)
    } else if pattern == CUSTOM_EMOJI@ {
        custom_emoji_at(s)
    } else if pattern == USER_MENTION@ {
        user_mention_at(s)
    } else if pattern == ROLE_MENTION@ {
        role_mention_at(s)
    } else if pattern == CHANNEL_MENTION@ {
        channel_mention_at(s)
    } else if pattern == LAUGH@ {
        laugh_at(s)
    } else {
        None
    }
}

/// What a match is replaced by.
pub enum Reading<'a> {
    /// A fixed text.
    Text(&'a str),
    /// The group of the match.
    Group,
    /// The name behind the identifier in the group, after a prefix.
    Name { names: &'a HashMap<u64, String>, prefix: &'a str, unknown: &'a str },
}

/// The mathematical counterpart of [`Reading`].
pub enum ReadingModel {
    Text(Seq<char>),
    Group,
    Name { names: Map<u64, Seq<char>>, prefix: Seq<char>, unknown: Seq<char> },
}

/// The texts that a map of strings holds.
pub open spec fn texts(map: Map<u64, String>) -> Map<u64, Seq<char>> {
    Map::new(|id: u64| map.contains_key(id), |id: u64| map[id]@)
}

/// The name that `names` has for the identifier written as `raw`, or `unknown`.
pub open spec fn name_of(names: Map<u64, Seq<char>>, raw: Seq<char>, unknown: Seq<char>) -> Seq<
    char,
> {
    match chars::parsed_u64(raw) {
        Some(id) => if names.contains_key(id as u64) {
            names[id as u64]
        } else {
            unknown
        },
        None => unknown,
    }
}

impl ReadingModel {
    /// What a match with `group` is replaced by.
    pub open spec fn shown(self, group: Seq<char>) -> Seq<char> {
        match self {
            ReadingModel::Text(text) => text,
            ReadingModel::Group => group,
            ReadingModel::Name { names, prefix, unknown } => prefix + name_of(
                names,
                group,
                unknown,
            ),
        }
    }
}

impl<'a> View for Reading<'a> {
    type V = ReadingModel;

    open spec fn view(&self) -> ReadingModel {
        match *self {
            Reading::Text(text) => ReadingModel::Text(text@),
            Reading::Group => ReadingModel::Group,
            Reading::Name { names, prefix, unknown } => ReadingModel::Name {
                names: texts(names@),
                prefix: prefix@,
                unknown: unknown@,
            },
        }
    }
}

/// The name that `map` has for the identifier written as `raw_id`, or `fallback`.
pub fn lookup(map: &HashMap<u64, String>, raw_id: &str, fallback: &str) -> (out: String)
    ensures
        out@ == name_of(texts(map@), raw_id@, fallback@),
        forall|id: u64|
            raw_id@ == #[trigger] chars::decimal(id as nat) ==> out@ == if map@.contains_key(id) {
                map@[id]@
            } else {
                fallback@
            },
{
    proof {
        assert forall|id: u64| raw_id@ == #[trigger] chars::decimal(id as nat) implies
            chars::parsed_u64(raw_id@) == Some(id as nat) by {
            chars::decimal_reads_back(id);
        }
    }
    broadcast use vstd::std_specs::hash::group_hash_axioms;

    match chars::parse_u64(raw_id) {
        Some(id) => match map.get(&id) {
            Some(name) => name.clone(),
            None => fallback.to_owned(),
        },
        None => fallback.to_owned(),
    }
}

impl<'a> Reading<'a> {
    /// What a match with `group` is replaced by.
    pub fn render(&self, group: &str) -> (out: String)
        ensures
            out@ == self@.shown(group@),
    {
        match self {
            Reading::Text(text) => (*text).to_owned(),
            Reading::Group => group.to_owned(),
            Reading::Name { names, prefix, unknown } => {
                let mut out = (*prefix).to_owned();
                let name = lookup(*names, group, *unknown);
                out.append(name.as_str());
                out
            },
        }
    }
}

/// `s` with every match of `pattern` replaced: the leftmost one first, then on behind it.
pub open spec fn rewritten(pattern: Seq<char>, s: Seq<char>, reading: ReadingModel) -> Seq<char>
    decreases s.len(),
{
    if s.len() == 0 {
        s
    } else {
        match match_at(pattern, s) {
            Some(found) => {
                proof {
                    lemma_match_fits(pattern, s);
                }
                reading.shown(found.group) + rewritten(pattern, s.skip(found.length), reading)
            },
            None => seq![s[0]] + rewritten(pattern, s.skip(1), reading),
        }
    }
}

/// `Regex::replace_all` of the `regex` crate, with a replacement that depends on the first group.
/// It replaces the successive, non-overlapping, leftmost matches, each by what `reading` makes of
/// its group, which is empty where the pattern has none. The claim covers the patterns of this
/// module, all of which compile.
#[verifier::external_body]
pub(crate) fn replace_matches(pattern: &str, text: &str, reading: &Reading<'_>) -> (out: String)
    requires
        is_known(pattern@),
    ensures
        out@ == rewritten(pattern@, text@, reading@),
{
    let compiled = regex::Regex::new(pattern).expect("the pattern compiles");
    let replaced = compiled.replace_all(
        text,
        |found: &regex::Captures<'_>|
            reading.render(found.get(1).map_or("", |group| group.as_str())),
    );
    replaced.into_owned()
}

/// A run is no longer than the text.
pub proof fn lemma_run(s: Seq<char>, class: spec_fn(char) -> bool)
    ensures
        0 <= run(s, class) <= s.len(),
        forall|i: int| 0 <= i < run(s, class) ==> class(#[trigger] s[i]),
        run(s, class) < s.len() ==> !class(s[run(s, class)]),
    decreases s.len(),
{
    if s.len() > 0 && class(s[0]) {
        lemma_run(s.skip(1), class);
        let n = run(s.skip(1), class);
        assert forall|i: int| 0 <= i < n + 1 implies class(#[trigger] s[i]) by {
            if i > 0 {
                assert(s.skip(1)[i - 1] == s[i]);
            }
        }
        if n + 1 < s.len() {
            assert(s.skip(1)[n] == s[n + 1]);
        }
    }
}

/// The first index of a text is one at which it stands.
pub proof fn lemma_first_index(s: Seq<char>, p: Seq<char>)
    ensures
        first_index(s, p) matches Some(i) ==> {
            &&& chars::stands_at(s, p, i)
            &&& forall|j: int| 0 <= j < i ==> !chars::stands_at(s, p, j)
        },
        first_index(s, p) is None ==> forall|j: int| !chars::stands_at(s, p, j),
    decreases s.len(),
{
    if !chars::begins(s, p) {
        if s.len() > 0 {
            let t = s.skip(1);
            lemma_first_index(t, p);
            assert forall|j: int| 0 < j implies chars::stands_at(s, p, j) == chars::stands_at(
                t,
                p,
                j - 1,
            ) by {
                if j + p.len() <= s.len() {
                    assert(s.subrange(j, j + p.len()) == t.subrange(j - 1, j - 1 + p.len()));
                }
            }
            if let Some(i) = first_index(t, p) {
                assert(chars::stands_at(t, p, i));
            }
        }
    }
}

/// A match takes at least one character, and no more than there are.
pub proof fn lemma_match_fits(pattern: Seq<char>, s: Seq<char>)
    ensures
        match_at(pattern, s) matches Some(found) ==> 0 < found.length <= s.len(),
{
    reveal(match_at);
    if pattern == CODE_BLOCK@ {
        lemma_first_index(s.skip(3), fence());
    } else if pattern == INLINE_CODE@ {
        lemma_run(s.skip(1), |c: char| c != '`');
    } else if pattern == URL@ {
        lemma_run(s.skip(8), |c: char| !chars::is_space(c));
        lemma_run(s.skip(7), |c: char| !chars::is_space(c));
    } else if pattern == LAUGH@ {
        lemma_run(s, |c: char| c == 'w' || c == 'ｗ');
    }
}

} // verus!
