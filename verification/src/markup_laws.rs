//! How each kind of markup in a message is read: as what it stands for would be read in its place.

use vstd::prelude::*;

use crate::chars;
use crate::pattern;
use crate::pattern::Found;
use crate::pattern::ReadingModel;
use crate::text;
use crate::text::NamesModel;
use crate::text_laws;

verus! {

/// Whether a text holds none of the characters that all markup needs one of.
pub open spec fn is_bare(s: Seq<char>) -> bool {
    forall|i: int| 0 <= i < s.len() ==> #[trigger] s[i] != '`' && s[i] != '<' && s[i] != ':'
}

/// Bare texts together are bare.
pub(crate) proof fn lemma_bare_join(a: Seq<char>, b: Seq<char>)
    requires
        is_bare(a),
        is_bare(b),
    ensures
        is_bare(a + b),
{
    assert forall|i: int| 0 <= i < (a + b).len() implies #[trigger] (a + b)[i] != '`' && (a + b)[i]
        != '<' && (a + b)[i] != ':' by {
        if i < a.len() {
            assert((a + b)[i] == a[i]);
        } else {
            assert((a + b)[i] == b[i - a.len()]);
        }
    }
}

/// No two patterns are the same, so each is looked for as what it is.
#[verifier::rlimit(40)]
#[verifier::spinoff_prover]
pub(crate) proof fn lemma_kinds(s: Seq<char>)
    ensures
        pattern::match_at(pattern::CODE_BLOCK@, s) == pattern::code_block_at(s),
        pattern::match_at(pattern::INLINE_CODE@, s) == pattern::inline_code_at(s),
        pattern::match_at(pattern::URL@, s) == pattern::url_at(s),
        pattern::match_at(pattern::CUSTOM_EMOJI@, s) == pattern::custom_emoji_at(s),
        pattern::match_at(pattern::USER_MENTION@, s) == pattern::user_mention_at(s),
        pattern::match_at(pattern::ROLE_MENTION@, s) == pattern::role_mention_at(s),
        pattern::match_at(pattern::CHANNEL_MENTION@, s) == pattern::channel_mention_at(s),
        pattern::match_at(pattern::LAUGH@, s) == pattern::laugh_at(s),
{
    reveal(pattern::match_at);
    reveal_strlit("(?s)```.*?```");
    reveal_strlit("`([^`]*)`");
    reveal_strlit("https?://\\S+");
    reveal_strlit("<a?:([^:>]+):\\d+>");
    reveal_strlit("<@!?(\\d+)>");
    reveal_strlit("<@&(\\d+)>");
    reveal_strlit("<#(\\d+)>");
    reveal_strlit("[wｗ]{2,}");
    assert(pattern::CODE_BLOCK@.len() == 13);
    assert(pattern::INLINE_CODE@.len() == 9);
    assert(pattern::URL@.len() == 12);
    assert(pattern::CUSTOM_EMOJI@.len() == 17);
    assert(pattern::USER_MENTION@.len() == 10);
    assert(pattern::ROLE_MENTION@.len() == 9);
    assert(pattern::INLINE_CODE@[0] != pattern::ROLE_MENTION@[0]);
    assert(pattern::CHANNEL_MENTION@[0] != pattern::LAUGH@[0]);
}

/// What a text begins with stands at its first places.
proof fn lemma_begins(s: Seq<char>, p: Seq<char>)
    ensures
        chars::begins(s, p) <==> p.len() <= s.len() && forall|i: int|
            0 <= i < p.len() ==> #[trigger] s[i] == p[i],
{
    if chars::begins(s, p) {
        assert forall|i: int| 0 <= i < p.len() implies #[trigger] s[i] == p[i] by {
            assert(s.subrange(0, p.len() as int)[i] == s[i]);
        }
    }
    if p.len() <= s.len() && forall|i: int| 0 <= i < p.len() ==> #[trigger] s[i] == p[i] {
        assert(s.subrange(0, p.len() as int) =~= p);
    }
}

/// A text without backticks holds no code.
proof fn lemma_no_code(s: Seq<char>, reading: ReadingModel)
    requires
        forall|i: int| 0 <= i < s.len() ==> #[trigger] s[i] != '`',
    ensures
        pattern::rewritten(pattern::CODE_BLOCK@, s, reading) == s,
        pattern::rewritten(pattern::INLINE_CODE@, s, reading) == s,
{
    assert forall|i: int| 0 <= i < s.len() implies pattern::match_at(
        pattern::CODE_BLOCK@,
        #[trigger] s.skip(i),
    ) is None && pattern::match_at(pattern::INLINE_CODE@, s.skip(i)) is None by {
        lemma_kinds(s.skip(i));
        lemma_begins(s.skip(i), pattern::fence());
        assert(s.skip(i)[0] == s[i]);
        assert(s[i] != '`');
        assert(pattern::fence()[0] == '`');
    }
    text_laws::lemma_unmatched(pattern::CODE_BLOCK@, s, reading);
    text_laws::lemma_unmatched(pattern::INLINE_CODE@, s, reading);
}

/// A text holds no web address where no colon stands between the end of a scheme and a slash.
proof fn lemma_no_url(s: Seq<char>, reading: ReadingModel)
    requires
        forall|k: int|
            0 < k && k + 1 < s.len() && #[trigger] s[k] == ':' ==> s[k + 1] != '/' || (s[k - 1]
                != 'p' && s[k - 1] != 's'),
    ensures
        pattern::rewritten(pattern::URL@, s, reading) == s,
{
    assert forall|i: int| 0 <= i < s.len() implies pattern::match_at(
        pattern::URL@,
        #[trigger] s.skip(i),
    ) is None by {
        let t = s.skip(i);
        lemma_kinds(t);
        let long = seq!['h', 't', 't', 'p', 's', ':', '/', '/'];
        let short = seq!['h', 't', 't', 'p', ':', '/', '/'];
        lemma_begins(t, long);
        lemma_begins(t, short);
        if chars::begins(t, long) {
            assert(t[4] == long[4] && t[5] == long[5] && t[6] == long[6]);
            assert(s[i + 5] == ':' && s[i + 4] == 's' && s[i + 6] == '/');
        }
        if chars::begins(t, short) {
            assert(t[3] == short[3] && t[4] == short[4] && t[5] == short[5]);
            assert(s[i + 4] == ':' && s[i + 3] == 'p' && s[i + 5] == '/');
        }
    }
    text_laws::lemma_unmatched(pattern::URL@, s, reading);
}

/// A text without colons holds no custom emoji.
proof fn lemma_no_emoji(s: Seq<char>, reading: ReadingModel)
    requires
        forall|i: int| 0 <= i < s.len() ==> #[trigger] s[i] != ':',
    ensures
        pattern::rewritten(pattern::CUSTOM_EMOJI@, s, reading) == s,
{
    assert forall|i: int| 0 <= i < s.len() implies pattern::match_at(
        pattern::CUSTOM_EMOJI@,
        #[trigger] s.skip(i),
    ) is None by {
        let t = s.skip(i);
        lemma_kinds(t);
        let long = seq!['<', 'a', ':'];
        let short = seq!['<', ':'];
        lemma_begins(t, long);
        lemma_begins(t, short);
        if chars::begins(t, long) {
            assert(t[2] == long[2]);
            assert(s[i + 2] == ':');
        }
        if chars::begins(t, short) {
            assert(t[1] == short[1]);
            assert(s[i + 1] == ':');
        }
    }
    text_laws::lemma_unmatched(pattern::CUSTOM_EMOJI@, s, reading);
}

/// A text that does not open with an angle bracket opens with no mention.
proof fn lemma_not_a_mention(t: Seq<char>)
    requires
        t.len() > 0,
        t[0] != '<',
    ensures
        pattern::match_at(pattern::USER_MENTION@, t) is None,
        pattern::match_at(pattern::ROLE_MENTION@, t) is None,
        pattern::match_at(pattern::CHANNEL_MENTION@, t) is None,
        pattern::match_at(pattern::CUSTOM_EMOJI@, t) is None,
{
    lemma_kinds(t);
    lemma_begins(t, seq!['<', '@', '!']);
    lemma_begins(t, seq!['<', '@', '&']);
    lemma_begins(t, seq!['<', '@']);
    lemma_begins(t, seq!['<', '#']);
    lemma_begins(t, seq!['<', 'a', ':']);
    lemma_begins(t, seq!['<', ':']);
    assert(seq!['<', '@', '!'][0] == '<');
    assert(seq!['<', '@', '&'][0] == '<');
    assert(seq!['<', '@'][0] == '<');
    assert(seq!['<', '#'][0] == '<');
    assert(seq!['<', 'a', ':'][0] == '<');
    assert(seq!['<', ':'][0] == '<');
}

/// A text without opening angle brackets holds no mention.
proof fn lemma_no_mention(s: Seq<char>, reading: ReadingModel)
    requires
        forall|i: int| 0 <= i < s.len() ==> #[trigger] s[i] != '<',
    ensures
        pattern::rewritten(pattern::USER_MENTION@, s, reading) == s,
        pattern::rewritten(pattern::ROLE_MENTION@, s, reading) == s,
        pattern::rewritten(pattern::CHANNEL_MENTION@, s, reading) == s,
        pattern::rewritten(pattern::CUSTOM_EMOJI@, s, reading) == s,
{
    assert forall|i: int| 0 <= i < s.len() implies {
        &&& pattern::match_at(pattern::USER_MENTION@, #[trigger] s.skip(i)) is None
        &&& pattern::match_at(pattern::ROLE_MENTION@, s.skip(i)) is None
        &&& pattern::match_at(pattern::CHANNEL_MENTION@, s.skip(i)) is None
        &&& pattern::match_at(pattern::CUSTOM_EMOJI@, s.skip(i)) is None
    } by {
        assert(s.skip(i)[0] == s[i]);
        lemma_not_a_mention(s.skip(i));
    }
    text_laws::lemma_unmatched(pattern::USER_MENTION@, s, reading);
    text_laws::lemma_unmatched(pattern::ROLE_MENTION@, s, reading);
    text_laws::lemma_unmatched(pattern::CHANNEL_MENTION@, s, reading);
    text_laws::lemma_unmatched(pattern::CUSTOM_EMOJI@, s, reading);
}

/// Bare text holds no markup.
pub(crate) proof fn lemma_bare(s: Seq<char>, names: NamesModel)
    requires
        is_bare(s),
    ensures
        text::without_markup(s, names) == s,
{
    lemma_no_code(s, ReadingModel::Text(text::CODE_BLOCK_READING@));
    lemma_no_code(s, ReadingModel::Group);
    lemma_no_url(s, ReadingModel::Text(text::URL_READING@));
    lemma_no_emoji(s, ReadingModel::Group);
    lemma_no_mention(
        s,
        ReadingModel::Name {
            names: names.users,
            prefix: Seq::empty(),
            unknown: text::UNKNOWN_USER@,
        },
    );
    lemma_no_mention(
        s,
        ReadingModel::Name {
            names: names.roles,
            prefix: Seq::empty(),
            unknown: text::UNKNOWN_ROLE@,
        },
    );
    lemma_no_mention(
        s,
        ReadingModel::Name {
            names: names.channels,
            prefix: text::CHANNEL_PREFIX@,
            unknown: text::UNKNOWN_CHANNEL@,
        },
    );
}

/// A match in the midst of a text gives way to its reading, and what follows is treated on its own.
#[verifier::rlimit(40)]
#[verifier::spinoff_prover]
proof fn lemma_spliced(
    p: Seq<char>,
    before: Seq<char>,
    token: Seq<char>,
    after: Seq<char>,
    group: Seq<char>,
    reading: ReadingModel,
)
    requires
        token.len() > 0,
        pattern::match_at(p, token + after) == Some(Found { length: token.len() as int, group }),
        forall|i: int|
            0 <= i < before.len() ==> pattern::match_at(
                p,
                #[trigger] (before + token + after).skip(i),
            ) is None,
    ensures
        pattern::rewritten(p, before + token + after, reading) == before + reading.shown(group)
            + pattern::rewritten(p, after, reading),
    decreases before.len(),
{
    let s = before + token + after;
    let end = pattern::rewritten(p, after, reading);
    let shown = reading.shown(group);
    if before.len() == 0 {
        assert(s =~= token + after);
        assert(s.skip(token.len() as int) =~= after);
        assert(pattern::rewritten(p, s, reading) == shown + end);
        assert(before + shown + end =~= shown + end);
    } else {
        let tail = before.skip(1);
        assert(s.skip(0) == s);
        assert(s.skip(1) == tail + token + after);
        assert forall|i: int| 0 <= i < tail.len() implies pattern::match_at(
            p,
            #[trigger] (tail + token + after).skip(i),
        ) is None by {
            assert((tail + token + after).skip(i) == s.skip(i + 1));
        }
        lemma_spliced(p, tail, token, after, group, reading);
        assert(seq![s[0]] + (tail + shown + end) == before + shown + end);
    }
}

/// A run of a kind ends where something else follows.
proof fn lemma_run_exact(head: Seq<char>, rest: Seq<char>, class: spec_fn(char) -> bool)
    requires
        forall|i: int| 0 <= i < head.len() ==> class(#[trigger] head[i]),
        rest.len() > 0 ==> !class(rest[0]),
    ensures
        pattern::run(head + rest, class) == head.len(),
{
    let s = head + rest;
    let n = pattern::run(s, class);
    pattern::lemma_run(s, class);
    if n < head.len() {
        assert(s[n] == head[n]);
        assert(class(head[n]));
    }
    if n > head.len() {
        assert(s[head.len() as int] == rest[0]);
    }
}

/// Whether all characters are digits, of ordinary or of full width.
pub open spec fn is_numeral(s: Seq<char>) -> bool {
    forall|i: int|
        0 <= i < s.len() ==> '0' <= #[trigger] s[i] <= '9' || '０' <= s[i] <= '９'
}

/// Digits are digits to the patterns, and the bracket behind them is not.
proof fn lemma_numeral(s: Seq<char>)
    requires
        is_numeral(s),
    ensures
        forall|i: int| 0 <= i < s.len() ==> pattern::is_decimal_digit(#[trigger] s[i]),
        !pattern::is_decimal_digit('>'),
        !pattern::is_decimal_digit('&'),
        !pattern::is_decimal_digit('!'),
{
    reveal(pattern::is_decimal_digit);
    assert forall|i: int| 0 <= i < s.len() implies pattern::is_decimal_digit(#[trigger] s[i]) by {
        assert('0' <= s[i] <= '9' || '０' <= s[i] <= '９');
    }
}

/// A head, digits and a closing bracket are what a mention is made of.
proof fn lemma_mention(head: Seq<char>, digits: Seq<char>, after: Seq<char>)
    requires
        digits.len() > 0,
        is_numeral(digits),
    ensures
        pattern::mention_at(head + digits + seq!['>'] + after, head.len() as int) == Some(
            Found { length: head.len() + digits.len() as int + 1, group: digits },
        ),
{
    let s = head + digits + seq!['>'] + after;
    let rest = seq!['>'] + after;
    let at = head.len() as int;
    assert(s.skip(at) == digits + rest);
    lemma_numeral(digits);
    lemma_run_exact(digits, rest, |c: char| pattern::is_decimal_digit(c));
    assert(s[at + digits.len()] == '>');
    assert(s.subrange(at, at + digits.len()) == digits);
}

/// What kind of mention is meant by what stands before the digits.
pub enum Kind {
    User,
    Nickname,
    Role,
    Channel,
}

impl Kind {
    /// What stands before the digits.
    pub open spec fn head(self) -> Seq<char> {
        match self {
            Kind::User => seq!['<', '@'],
            Kind::Nickname => seq!['<', '@', '!'],
            Kind::Role => seq!['<', '@', '&'],
            Kind::Channel => seq!['<', '#'],
        }
    }

    /// The names that are known of the kind.
    pub open spec fn known(self, names: NamesModel) -> Map<u64, Seq<char>> {
        match self {
            Kind::User => names.users,
            Kind::Nickname => names.users,
            Kind::Role => names.roles,
            Kind::Channel => names.channels,
        }
    }

    /// What is read of a name of the kind.
    pub open spec fn read(self, name: Seq<char>) -> Seq<char> {
        match self {
            Kind::Channel => seq!['#'] + name,
            _ => name,
        }
    }

    /// The stock reading.
    pub open spec fn stock(self) -> Seq<char> {
        match self {
            Kind::User => "誰か"@,
            Kind::Nickname => "誰か"@,
            Kind::Role => "ロール"@,
            Kind::Channel => "#どこか"@,
        }
    }
}

/// The kind of a mention is told by its head.
#[verifier::rlimit(40)]
#[verifier::spinoff_prover]
proof fn lemma_kind(kind: Kind, digits: Seq<char>, after: Seq<char>)
    requires
        digits.len() > 0,
        is_numeral(digits),
    ensures
        ({
            let s = kind.head() + digits + seq!['>'] + after;
            let found = Some(
                Found { length: kind.head().len() + digits.len() as int + 1, group: digits },
            );
            &&& pattern::match_at(pattern::USER_MENTION@, s) == match kind {
                Kind::User | Kind::Nickname => found,
                _ => None,
            }
            &&& pattern::match_at(pattern::ROLE_MENTION@, s) == match kind {
                Kind::Role => found,
                _ => None,
            }
            &&& pattern::match_at(pattern::CHANNEL_MENTION@, s) == match kind {
                Kind::Channel => found,
                _ => None,
            }
            &&& pattern::match_at(pattern::CUSTOM_EMOJI@, s) is None
        }),
{
    let head = kind.head();
    let s = head + digits + seq!['>'] + after;
    lemma_mention(head, digits, after);
    lemma_numeral(digits);
    lemma_kinds(s);
    let nick = seq!['<', '@', '!'];
    let role = seq!['<', '@', '&'];
    let user = seq!['<', '@'];
    let channel = seq!['<', '#'];
    let moving = seq!['<', 'a', ':'];
    let still = seq!['<', ':'];
    lemma_begins(s, nick);
    lemma_begins(s, role);
    lemma_begins(s, user);
    lemma_begins(s, channel);
    lemma_begins(s, moving);
    lemma_begins(s, still);
    assert(nick[0] == '<' && nick[1] == '@' && nick[2] == '!');
    assert(role[0] == '<' && role[1] == '@' && role[2] == '&');
    assert(user[0] == '<' && user[1] == '@');
    assert(channel[0] == '<' && channel[1] == '#');
    assert(moving[1] == 'a');
    assert(still[1] == ':');
    assert(s[0] == head[0] && s[1] == head[1]);
    assert('0' <= digits[0] <= '9' || '０' <= digits[0] <= '９');
    if head.len() == 3 {
        assert(s[2] == head[2]);
    } else {
        assert(s[2] == digits[0]);
    }
    if kind is Role {
        assert(s.skip(2)[0] == '&');
        assert(!pattern::is_decimal_digit('&'));
    }
}

/// A mention among bare text gives way to its reading.
#[verifier::rlimit(40)]
#[verifier::spinoff_prover]
proof fn lemma_mention_read(
    kind: Kind,
    before: Seq<char>,
    digits: Seq<char>,
    after: Seq<char>,
    names: NamesModel,
    reading: Seq<char>,
)
    requires
        is_bare(before),
        is_bare(after),
        digits.len() > 0,
        is_numeral(digits),
        reading == kind.read(
            pattern::name_of(
                kind.known(names),
                digits,
                match kind {
                    Kind::User | Kind::Nickname => text::UNKNOWN_USER@,
                    Kind::Role => text::UNKNOWN_ROLE@,
                    Kind::Channel => text::UNKNOWN_CHANNEL@,
                },
            ),
        ),
        is_bare(reading),
    ensures
        text::without_markup(before + (kind.head() + digits + seq!['>']) + after, names) == before
            + reading + after,
{
    let token = kind.head() + digits + seq!['>'];
    let s = before + token + after;
    let result = before + reading + after;
    let users = ReadingModel::Name {
        names: names.users,
        prefix: Seq::empty(),
        unknown: text::UNKNOWN_USER@,
    };
    let roles = ReadingModel::Name {
        names: names.roles,
        prefix: Seq::empty(),
        unknown: text::UNKNOWN_ROLE@,
    };
    let channels = ReadingModel::Name {
        names: names.channels,
        prefix: text::CHANNEL_PREFIX@,
        unknown: text::UNKNOWN_CHANNEL@,
    };
    reveal_strlit("#");
    assert(text::CHANNEL_PREFIX@ =~= seq!['#']);
    assert forall|i: int| 0 <= i < token.len() implies #[trigger] token[i] != '`' && token[i] != ':'
        && (i > 0 ==> token[i] != '<') by {
        if i < kind.head().len() {
            assert(token[i] == kind.head()[i]);
        } else if i < kind.head().len() + digits.len() {
            assert(token[i] == digits[i - kind.head().len()]);
            assert('0' <= token[i] <= '9' || '０' <= token[i] <= '９');
        }
    }
    assert forall|i: int| 0 <= i < s.len() implies #[trigger] s[i] != '`' && s[i] != ':' && (i
        != before.len() ==> s[i] != '<') by {
        if i < before.len() {
            assert(s[i] == before[i]);
        } else if i < before.len() + token.len() {
            assert(s[i] == token[i - before.len()]);
        } else {
            assert(s[i] == after[i - before.len() - token.len()]);
        }
    }
    lemma_no_code(s, ReadingModel::Text(text::CODE_BLOCK_READING@));
    lemma_no_code(s, ReadingModel::Group);
    lemma_no_url(s, ReadingModel::Text(text::URL_READING@));
    lemma_no_emoji(s, ReadingModel::Group);
    lemma_bare_join(before, reading);
    lemma_bare_join(before + reading, after);
    assert forall|i: int| 0 <= i < s.len() && i != before.len() implies {
        &&& pattern::match_at(pattern::USER_MENTION@, #[trigger] s.skip(i)) is None
        &&& pattern::match_at(pattern::ROLE_MENTION@, s.skip(i)) is None
        &&& pattern::match_at(pattern::CHANNEL_MENTION@, s.skip(i)) is None
    } by {
        assert(s.skip(i)[0] == s[i]);
        lemma_not_a_mention(s.skip(i));
    }
    lemma_kind(kind, digits, after);
    assert(s.skip(before.len() as int) == kind.head() + digits + seq!['>'] + after);
    assert(token + after == kind.head() + digits + seq!['>'] + after);
    lemma_no_mention(after, users);
    lemma_no_mention(after, roles);
    lemma_no_mention(after, channels);
    lemma_no_mention(result, roles);
    lemma_no_mention(result, channels);
    match kind {
        Kind::User | Kind::Nickname => {
            lemma_spliced(pattern::USER_MENTION@, before, token, after, digits, users);
            assert(users.shown(digits) =~= reading);
        },
        Kind::Role => {
            text_laws::lemma_unmatched(pattern::USER_MENTION@, s, users);
            lemma_spliced(pattern::ROLE_MENTION@, before, token, after, digits, roles);
            assert(roles.shown(digits) =~= reading);
        },
        Kind::Channel => {
            text_laws::lemma_unmatched(pattern::USER_MENTION@, s, users);
            text_laws::lemma_unmatched(pattern::ROLE_MENTION@, s, roles);
            lemma_spliced(pattern::CHANNEL_MENTION@, before, token, after, digits, channels);
            assert(channels.shown(digits) =~= reading);
        },
    }
}

/// A mention of a user, in either form, of a role or of a channel is read as the name that is known
/// for its identifier, whatever 64-bit number that is: the message is read as if the name stood in
/// its place, behind a number sign for a channel.
pub proof fn a_mention_is_read_as_the_name(
    kind: Kind,
    before: Seq<char>,
    id: u64,
    after: Seq<char>,
    max_length: nat,
    names: NamesModel,
    dictionary: Seq<(Seq<char>, Seq<char>)>,
    attachments: nat,
)
    requires
        kind.known(names).contains_key(id),
        is_bare(before),
        is_bare(after),
        is_bare(kind.known(names)[id]),
    ensures
        ({
            let mention = kind.head() + chars::decimal(id as nat) + seq!['>'];
            let name = kind.read(kind.known(names)[id]);
            &&& text::without_markup(before + mention + after, names) == before + name + after
            &&& text::normalized(
                before + mention + after,
                max_length,
                names,
                dictionary,
                attachments,
            ) == text::normalized(
                before + name + after,
                max_length,
                names,
                dictionary,
                attachments,
            )
        }),
{
    let digits = chars::decimal(id as nat);
    let name = kind.read(kind.known(names)[id]);
    chars::lemma_decimal_digits(id as nat);
    chars::decimal_reads_back(id);
    assert(is_numeral(digits)) by {
        assert forall|i: int| 0 <= i < digits.len() implies '0' <= #[trigger] digits[i] <= '9'
            || '０' <= digits[i] <= '９' by {
            assert(chars::is_digit(digits[i]));
        }
    }
    lemma_bare_join(seq!['#'], kind.known(names)[id]);
    lemma_mention_read(kind, before, digits, after, names, name);
    lemma_bare_join(before, name);
    lemma_bare_join(before + name, after);
    lemma_bare(before + name + after, names);
}

/// A mention whose digits write no 64-bit number, or one for which no name is known, is read as
/// someone, some role or somewhere: the stock reading appears then and, as names are read where they
/// are known, only then.
pub proof fn an_unknown_mention_has_a_stock_reading(
    kind: Kind,
    before: Seq<char>,
    digits: Seq<char>,
    after: Seq<char>,
    max_length: nat,
    names: NamesModel,
    dictionary: Seq<(Seq<char>, Seq<char>)>,
    attachments: nat,
)
    requires
        digits.len() > 0,
        is_numeral(digits),
        chars::all_digits(digits) && chars::number(digits) <= u64::MAX ==> !kind.known(
            names,
        ).contains_key(chars::number(digits) as u64),
        is_bare(before),
        is_bare(after),
    ensures
        ({
            let mention = kind.head() + digits + seq!['>'];
            &&& text::without_markup(before + mention + after, names) == before + kind.stock()
                + after
            &&& text::normalized(
                before + mention + after,
                max_length,
                names,
                dictionary,
                attachments,
            ) == text::normalized(
                before + kind.stock() + after,
                max_length,
                names,
                dictionary,
                attachments,
            )
        }),
{
    let stock = kind.stock();
    reveal_strlit("誰か");
    reveal_strlit("ロール");
    reveal_strlit("どこか");
    reveal_strlit("#どこか");
    assert(digits[0] != '+') by {
        assert('0' <= digits[0] <= '9' || '０' <= digits[0] <= '９');
    }
    assert(seq!['#'] + "どこか"@ =~= "#どこか"@);
    assert(is_bare(stock));
    lemma_mention_read(kind, before, digits, after, names, stock);
    lemma_bare_join(before, stock);
    lemma_bare_join(before + stock, after);
    lemma_bare(before + stock + after, names);
}

/// A web address among bare text, up to the next white space or the end, is read as the word for an
/// omitted address, whatever stands in it.
#[verifier::rlimit(40)]
#[verifier::spinoff_prover]
pub proof fn an_address_is_not_read_out(
    before: Seq<char>,
    secure: bool,
    rest: Seq<char>,
    after: Seq<char>,
    max_length: nat,
    names: NamesModel,
    dictionary: Seq<(Seq<char>, Seq<char>)>,
    attachments: nat,
)
    requires
        is_bare(before),
        is_bare(after),
        rest.len() > 0,
        forall|i: int|
            0 <= i < rest.len() ==> #[trigger] rest[i] != '`' && !chars::is_space(rest[i]),
        after.len() > 0 ==> chars::is_space(after[0]),
    ensures
        ({
            let scheme = if secure {
                "https://"@
            } else {
                "http://"@
            };
            text::normalized(
                before + (scheme + rest) + after,
                max_length,
                names,
                dictionary,
                attachments,
            ) == text::normalized(
                before + "URL省略"@ + after,
                max_length,
                names,
                dictionary,
                attachments,
            )
        }),
{
    reveal_strlit("https://");
    reveal_strlit("http://");
    reveal_strlit("URL省略");
    let long = seq!['h', 't', 't', 'p', 's', ':', '/', '/'];
    let short = seq!['h', 't', 't', 'p', ':', '/', '/'];
    assert("https://"@ =~= long);
    assert("http://"@ =~= short);
    let scheme = if secure {
        long
    } else {
        short
    };
    let token = scheme + rest;
    let s = before + token + after;
    let omitted = "URL省略"@;
    let result = before + omitted + after;
    let model = ReadingModel::Text(text::URL_READING@);
    assert forall|i: int| 0 <= i < s.len() implies #[trigger] s[i] != '`' by {
        if i < before.len() {
            assert(s[i] == before[i]);
        } else if i < before.len() + token.len() {
            let j = i - before.len();
            assert(s[i] == token[j]);
            if j < scheme.len() {
                assert(token[j] == scheme[j]);
            } else {
                assert(token[j] == rest[j - scheme.len()]);
            }
        } else {
            assert(s[i] == after[i - before.len() - token.len()]);
        }
    }
    lemma_no_code(s, ReadingModel::Text(text::CODE_BLOCK_READING@));
    lemma_no_code(s, ReadingModel::Group);
    lemma_url_found(scheme, rest, after);
    assert(scheme + rest + after =~= token + after);
    assert(token[0] == scheme[0] && token[1] == scheme[1] && token[2] == scheme[2] && token[3]
        == scheme[3]);
    assert forall|i: int| 0 <= i < before.len() implies pattern::match_at(
        pattern::URL@,
        #[trigger] s.skip(i),
    ) is None by {
        lemma_url_not_before(before, token, after, i);
    }
    lemma_spliced(pattern::URL@, before, token, after, Seq::empty(), model);
    lemma_no_url(after, model);
    assert(is_bare(omitted));
    lemma_bare_join(before, omitted);
    lemma_bare_join(before + omitted, after);
    lemma_bare(result, names);
    lemma_rest_is_bare(result, names);
    assert(text::without_markup(s, names) == result);
    lemma_read_alike(s, result, max_length, names, dictionary, attachments);
}

/// Texts that are the same without their markup are read the same.
proof fn lemma_read_alike(
    s: Seq<char>,
    t: Seq<char>,
    max_length: nat,
    names: NamesModel,
    dictionary: Seq<(Seq<char>, Seq<char>)>,
    attachments: nat,
)
    requires
        text::without_markup(s, names) == text::without_markup(t, names),
    ensures
        text::normalized(s, max_length, names, dictionary, attachments) == text::normalized(
            t,
            max_length,
            names,
            dictionary,
            attachments,
        ),
{
}

/// A scheme and what follows it up to white space are a web address.
#[verifier::rlimit(40)]
#[verifier::spinoff_prover]
proof fn lemma_url_found(scheme: Seq<char>, rest: Seq<char>, after: Seq<char>)
    requires
        scheme == seq!['h', 't', 't', 'p', 's', ':', '/', '/'] || scheme == seq![
            'h',
            't',
            't',
            'p',
            ':',
            '/',
            '/',
        ],
        rest.len() > 0,
        forall|i: int| 0 <= i < rest.len() ==> !chars::is_space(#[trigger] rest[i]),
        after.len() > 0 ==> chars::is_space(after[0]),
    ensures
        pattern::match_at(pattern::URL@, scheme + rest + after) == Some(
            Found { length: scheme.len() + rest.len() as int, group: Seq::empty() },
        ),
{
    let long = seq!['h', 't', 't', 'p', 's', ':', '/', '/'];
    let short = seq!['h', 't', 't', 'p', ':', '/', '/'];
    let t = scheme + rest + after;
    lemma_kinds(t);
    lemma_begins(t, long);
    lemma_begins(t, short);
    assert(t.skip(scheme.len() as int) =~= rest + after);
    assert(forall|i: int| 0 <= i < scheme.len() ==> #[trigger] t[i] == scheme[i]);
    if scheme == short {
        assert(t[4] == short[4]);
        assert(long[4] == 's');
    }
    lemma_run_exact(rest, after, |c: char| !chars::is_space(c));
}

/// No web address begins in bare text before another.
#[verifier::rlimit(40)]
#[verifier::spinoff_prover]
proof fn lemma_url_not_before(before: Seq<char>, token: Seq<char>, after: Seq<char>, i: int)
    requires
        is_bare(before),
        0 <= i < before.len(),
        token.len() > 3,
        token[0] == 'h',
        token[1] == 't',
        token[2] == 't',
        token[3] == 'p',
    ensures
        pattern::match_at(pattern::URL@, (before + token + after).skip(i)) is None,
{
    let long = seq!['h', 't', 't', 'p', 's', ':', '/', '/'];
    let short = seq!['h', 't', 't', 'p', ':', '/', '/'];
    let s = before + token + after;
    let u = s.skip(i);
    let n = before.len() as int;
    lemma_kinds(u);
    lemma_begins(u, long);
    lemma_begins(u, short);
    assert(forall|j: int| 0 <= j < n ==> #[trigger] s[j] == before[j]);
    assert(s[n] == token[0] && s[n + 1] == token[1] && s[n + 2] == token[2] && s[n + 3]
        == token[3]);
    if chars::begins(u, long) {
        assert(u[0] == long[0] && u[1] == long[1] && u[2] == long[2] && u[3] == long[3] && u[4]
            == long[4] && u[5] == long[5]);
        assert(s[i] == 'h' && s[i + 1] == 't' && s[i + 2] == 't' && s[i + 3] == 'p' && s[i + 4]
            == 's' && s[i + 5] == ':');
        assert(i + 5 >= n);
    }
    if chars::begins(u, short) {
        assert(u[0] == short[0] && u[1] == short[1] && u[2] == short[2] && u[3] == short[3] && u[4]
            == short[4]);
        assert(s[i] == 'h' && s[i + 1] == 't' && s[i + 2] == 't' && s[i + 3] == 'p' && s[i + 4]
            == ':');
        assert(i + 4 >= n);
    }
}

/// What is bare after the addresses were omitted holds no other markup.
proof fn lemma_rest_is_bare(s: Seq<char>, names: NamesModel)
    requires
        is_bare(s),
    ensures
        pattern::rewritten(pattern::CUSTOM_EMOJI@, s, ReadingModel::Group) == s,
        pattern::rewritten(
            pattern::USER_MENTION@,
            s,
            ReadingModel::Name {
                names: names.users,
                prefix: Seq::empty(),
                unknown: text::UNKNOWN_USER@,
            },
        ) == s,
        pattern::rewritten(
            pattern::ROLE_MENTION@,
            s,
            ReadingModel::Name {
                names: names.roles,
                prefix: Seq::empty(),
                unknown: text::UNKNOWN_ROLE@,
            },
        ) == s,
        pattern::rewritten(
            pattern::CHANNEL_MENTION@,
            s,
            ReadingModel::Name {
                names: names.channels,
                prefix: text::CHANNEL_PREFIX@,
                unknown: text::UNKNOWN_CHANNEL@,
            },
        ) == s,
{
    lemma_no_emoji(s, ReadingModel::Group);
    lemma_no_mention(
        s,
        ReadingModel::Name {
            names: names.users,
            prefix: Seq::empty(),
            unknown: text::UNKNOWN_USER@,
        },
    );
    lemma_no_mention(
        s,
        ReadingModel::Name {
            names: names.roles,
            prefix: Seq::empty(),
            unknown: text::UNKNOWN_ROLE@,
        },
    );
    lemma_no_mention(
        s,
        ReadingModel::Name {
            names: names.channels,
            prefix: text::CHANNEL_PREFIX@,
            unknown: text::UNKNOWN_CHANNEL@,
        },
    );
}

/// A custom emoji among bare text, moving or not, is read as its name, whatever its number is.
#[verifier::rlimit(40)]
#[verifier::spinoff_prover]
pub proof fn an_emoji_is_read_as_its_name(
    before: Seq<char>,
    moving: bool,
    name: Seq<char>,
    digits: Seq<char>,
    after: Seq<char>,
    max_length: nat,
    names: NamesModel,
    dictionary: Seq<(Seq<char>, Seq<char>)>,
    attachments: nat,
)
    requires
        is_bare(before),
        is_bare(after),
        is_bare(name),
        name.len() > 0,
        forall|i: int| 0 <= i < name.len() ==> #[trigger] name[i] != '>',
        digits.len() > 0,
        is_numeral(digits),
    ensures
        ({
            let head = if moving {
                seq!['<', 'a', ':']
            } else {
                seq!['<', ':']
            };
            text::normalized(
                before + (head + name + seq![':'] + digits + seq!['>']) + after,
                max_length,
                names,
                dictionary,
                attachments,
            ) == text::normalized(
                before + name + after,
                max_length,
                names,
                dictionary,
                attachments,
            )
        }),
{
    let long = seq!['<', 'a', ':'];
    let short = seq!['<', ':'];
    let head = if moving {
        long
    } else {
        short
    };
    let token = head + name + seq![':'] + digits + seq!['>'];
    let s = before + token + after;
    let result = before + name + after;
    let h = head.len() as int;
    let colon = h + name.len();
    let n = before.len() as int;
    lemma_numeral(digits);
    assert forall|i: int| 0 <= i < token.len() implies {
        &&& #[trigger] token[i] != '`'
        &&& i > 0 ==> token[i] != '<'
        &&& token[i] == ':' <==> i == h - 1 || i == colon
    } by {
        if i < h {
            assert(token[i] == head[i]);
        } else if i < colon {
            assert(token[i] == name[i - h]);
        } else if i > colon && i < colon + 1 + digits.len() {
            assert(token[i] == digits[i - colon - 1]);
            assert('0' <= token[i] <= '9' || '０' <= token[i] <= '９');
        }
    }
    assert(token[0] == '<');
    assert(token[h - 2] == head[h - 2]);
    assert(token[colon + 1] == digits[0]);
    assert('0' <= digits[0] <= '9' || '０' <= digits[0] <= '９');
    assert forall|i: int| 0 <= i < s.len() implies {
        &&& #[trigger] s[i] != '`'
        &&& i != n ==> s[i] != '<'
        &&& s[i] == ':' <==> i == n + h - 1 || i == n + colon
    } by {
        if i < n {
            assert(s[i] == before[i]);
        } else if i < n + token.len() {
            assert(s[i] == token[i - n]);
        } else {
            assert(s[i] == after[i - n - token.len()]);
        }
    }
    assert(s[n + h - 2] == token[h - 2]);
    assert(s[n + colon + 1] == token[colon + 1]);
    lemma_no_code(s, ReadingModel::Text(text::CODE_BLOCK_READING@));
    lemma_no_code(s, ReadingModel::Group);
    lemma_no_url(s, ReadingModel::Text(text::URL_READING@));
    let t = token + after;
    lemma_kinds(t);
    lemma_begins(t, long);
    lemma_begins(t, short);
    assert(forall|i: int| 0 <= i < token.len() ==> #[trigger] t[i] == token[i]);
    assert(forall|i: int| 0 <= i < h ==> #[trigger] token[i] == head[i]);
    if !moving {
        assert(t[1] == ':');
        assert(long[1] == 'a');
    }
    let behind = seq![':'] + digits + seq!['>'] + after;
    assert(t.skip(h) =~= name + behind);
    lemma_run_exact(name, behind, |c: char| c != ':' && c != '>');
    let last = seq!['>'] + after;
    assert(t.skip(colon + 1) =~= digits + last);
    lemma_run_exact(digits, last, |c: char| pattern::is_decimal_digit(c));
    let end = colon + 1 + digits.len();
    assert(t[colon] == ':');
    assert(t[end] == '>');
    assert(t.subrange(h, colon) =~= name);
    assert(pattern::match_at(pattern::CUSTOM_EMOJI@, t) == Some(
        Found { length: token.len() as int, group: name },
    ));
    assert forall|i: int| 0 <= i < before.len() implies pattern::match_at(
        pattern::CUSTOM_EMOJI@,
        #[trigger] s.skip(i),
    ) is None by {
        assert(s.skip(i)[0] == s[i]);
        lemma_not_a_mention(s.skip(i));
    }
    lemma_spliced(pattern::CUSTOM_EMOJI@, before, token, after, name, ReadingModel::Group);
    lemma_no_emoji(after, ReadingModel::Group);
    lemma_bare_join(before, name);
    lemma_bare_join(before + name, after);
    lemma_bare(result, names);
    lemma_rest_is_bare(result, names);
    assert(text::without_markup(s, names) == result);
    lemma_read_alike(s, result, max_length, names, dictionary, attachments);
}

/// Inline code among bare text is read as what stands between the backticks.
#[verifier::rlimit(40)]
#[verifier::spinoff_prover]
pub proof fn inline_code_is_read_as_text(
    before: Seq<char>,
    code: Seq<char>,
    after: Seq<char>,
    max_length: nat,
    names: NamesModel,
    dictionary: Seq<(Seq<char>, Seq<char>)>,
    attachments: nat,
)
    requires
        is_bare(before),
        is_bare(code),
        is_bare(after),
    ensures
        text::normalized(
            before + (seq!['`'] + code + seq!['`']) + after,
            max_length,
            names,
            dictionary,
            attachments,
        ) == text::normalized(before + code + after, max_length, names, dictionary, attachments),
{
    let token = seq!['`'] + code + seq!['`'];
    let s = before + token + after;
    let result = before + code + after;
    let n = before.len() as int;
    let m = n + code.len() + 1;
    assert forall|i: int| 0 <= i < s.len() implies (#[trigger] s[i] == '`' <==> i == n || i == m) by {
        if i < n {
            assert(s[i] == before[i]);
        } else if i < n + token.len() {
            assert(s[i] == token[i - n]);
            if n < i < m {
                assert(s[i] == code[i - n - 1]);
            }
        } else {
            assert(s[i] == after[i - n - token.len()]);
        }
    }
    assert forall|i: int| 0 <= i < s.len() implies pattern::match_at(
        pattern::CODE_BLOCK@,
        #[trigger] s.skip(i),
    ) is None by {
        let t = s.skip(i);
        lemma_kinds(t);
        lemma_begins(t, pattern::fence());
        if chars::begins(t, pattern::fence()) {
            assert(t[0] == pattern::fence()[0] && t[1] == pattern::fence()[1] && t[2]
                == pattern::fence()[2]);
            assert(s[i] == '`' && s[i + 1] == '`' && s[i + 2] == '`');
        }
    }
    text_laws::lemma_unmatched(
        pattern::CODE_BLOCK@,
        s,
        ReadingModel::Text(text::CODE_BLOCK_READING@),
    );
    let t = token + after;
    lemma_kinds(t);
    let rest = seq!['`'] + after;
    assert(t.skip(1) =~= code + rest);
    lemma_run_exact(code, rest, |c: char| c != '`');
    assert(t.subrange(1, 1 + code.len() as int) =~= code);
    assert(pattern::match_at(pattern::INLINE_CODE@, t) == Some(
        Found { length: token.len() as int, group: code },
    ));
    assert forall|i: int| 0 <= i < before.len() implies pattern::match_at(
        pattern::INLINE_CODE@,
        #[trigger] s.skip(i),
    ) is None by {
        assert(s.skip(i)[0] == s[i]);
        lemma_kinds(s.skip(i));
    }
    lemma_spliced(pattern::INLINE_CODE@, before, token, after, code, ReadingModel::Group);
    lemma_no_code(after, ReadingModel::Group);
    lemma_bare_join(before, code);
    lemma_bare_join(before + code, after);
    lemma_bare(result, names);
    lemma_no_url(result, ReadingModel::Text(text::URL_READING@));
    lemma_rest_is_bare(result, names);
    assert(text::without_markup(s, names) == result);
    lemma_read_alike(s, result, max_length, names, dictionary, attachments);
}

/// Where a text stands nowhere earlier, it first stands where it was put.
#[verifier::rlimit(40)]
#[verifier::spinoff_prover]
proof fn lemma_nearest(front: Seq<char>, p: Seq<char>)
    requires
        forall|j: int| 0 <= j < front.len() ==> !#[trigger] chars::stands_at(front + p, p, j),
    ensures
        pattern::first_index(front + p, p) == Some(front.len() as int),
{
    let s = front + p;
    let n = front.len() as int;
    pattern::lemma_first_index(s, p);
    assert(chars::stands_at(s, p, n)) by {
        assert(s.subrange(n, n + p.len()) =~= p);
    }
    let found = pattern::first_index(s, p);
    if found is Some {
        let i = found->0;
        assert(chars::stands_at(s, p, i));
        assert(i >= n);
        assert(i <= n);
    }
}

/// A code block among bare text, up to the nearest closing fence, is read as the words for omitted
/// code, whatever stands in it.
#[verifier::rlimit(40)]
#[verifier::spinoff_prover]
pub proof fn a_code_block_is_read_as_omitted(
    before: Seq<char>,
    code: Seq<char>,
    after: Seq<char>,
    max_length: nat,
    names: NamesModel,
    dictionary: Seq<(Seq<char>, Seq<char>)>,
    attachments: nat,
)
    requires
        is_bare(before),
        is_bare(after),
        forall|j: int|
            0 <= j < code.len() ==> !#[trigger] chars::stands_at(
                code + "```"@,
                "```"@,
                j,
            ),
    ensures
        text::normalized(
            before + "```"@ + code + "```"@ + after,
            max_length,
            names,
            dictionary,
            attachments,
        ) == text::normalized(
            before + "コード省略"@ + after,
            max_length,
            names,
            dictionary,
            attachments,
        ),
{
    reveal_strlit("```");
    let fence = "```"@;
    assert(pattern::fence() =~= fence);
    let omitted = "コード省略"@;
    reveal_strlit("コード省略");
    let result = before + omitted + after;
    lemma_nearest(code, fence);
    assert forall|j: int| 0 <= j < before.len() implies !#[trigger] chars::stands_at(
        before + fence,
        fence,
        j,
    ) by {
        if chars::stands_at(before + fence, fence, j) {
            assert((before + fence).subrange(j, j + 3)[0] == before[j]);
        }
    }
    lemma_nearest(before, fence);
    text_laws::lemma_code_block(before, code, after, text::CODE_BLOCK_READING@);
    lemma_no_code(after, ReadingModel::Text(text::CODE_BLOCK_READING@));
    assert(is_bare(omitted));
    lemma_bare_join(before, omitted);
    lemma_bare_join(before + omitted, after);
    lemma_bare(result, names);
    lemma_no_code(result, ReadingModel::Group);
    lemma_no_url(result, ReadingModel::Text(text::URL_READING@));
    lemma_rest_is_bare(result, names);
    let s = before + fence + code + fence + after;
    assert(text::without_markup(s, names) == result);
    lemma_read_alike(s, result, max_length, names, dictionary, attachments);
}

/// Text is read as it stands if it is within the limit and on one line and holds no two backticks, no
/// angle bracket that another closes, no web address, no two letters of laughter next to each other,
/// no character four times in a row, and neither white space nor a pause at its ends.
#[verifier::rlimit(40)]
#[verifier::spinoff_prover]
pub proof fn ordinary_text_is_read_as_it_stands(
    s: Seq<char>,
    max_length: nat,
    names: NamesModel,
    attachments: nat,
)
    requires
        0 < s.len() <= max_length,
        forall|i: int, j: int|
            0 <= i < j < s.len() ==> !(#[trigger] s[i] == '`' && #[trigger] s[j] == '`'),
        forall|i: int, j: int|
            0 <= i < j < s.len() ==> !(#[trigger] s[i] == '<' && #[trigger] s[j] == '>'),
        !chars::occurs(s, "http://"@),
        !chars::occurs(s, "https://"@),
        forall|i: int|
            0 <= i < s.len() - 1 ==> !((#[trigger] s[i] == 'w' || s[i] == 'ｗ') && (s[i + 1] == 'w'
                || s[i + 1] == 'ｗ')),
        forall|i: int| 0 <= i < s.len() ==> #[trigger] s[i] != '\n' && s[i] != '\r',
        text_laws::no_long_run(s),
        !chars::is_space(s[0]) && s[0] != '、',
        !chars::is_space(s.last()) && s.last() != '、',
    ensures
        text::normalized(s, max_length, names, Seq::empty(), attachments) == Some(s),
{
    reveal_strlit("http://");
    reveal_strlit("https://");
    let long = seq!['h', 't', 't', 'p', 's', ':', '/', '/'];
    let short = seq!['h', 't', 't', 'p', ':', '/', '/'];
    assert("https://"@ =~= long);
    assert("http://"@ =~= short);
    assert forall|i: int, p: Seq<char>|
        0 <= i < s.len() && pattern::is_known(p) implies #[trigger] pattern::match_at(
        p,
        s.skip(i),
    ) is None by {
        let t = s.skip(i);
        lemma_kinds(t);
        assert(forall|j: int| 0 <= j < t.len() ==> #[trigger] t[j] == s[i + j]);
        lemma_begins(t, pattern::fence());
        assert(pattern::fence()[0] == '`' && pattern::fence()[1] == '`');
        if chars::begins(t, pattern::fence()) {
            assert(t[0] == '`' && t[1] == '`');
        }
        let n = pattern::run(t.skip(1), |c: char| c != '`');
        pattern::lemma_run(t.skip(1), |c: char| c != '`');
        if t[0] == '`' && 1 + n < t.len() {
            assert(t.skip(1)[n] == t[1 + n]);
            assert(s[i] == '`' && s[i + 1 + n] == '`');
        }
        if chars::begins(t, long) {
            assert(s.subrange(i, i + 8) =~= t.subrange(0, 8));
            assert(chars::stands_at(s, long, i));
        }
        if chars::begins(t, short) {
            assert(s.subrange(i, i + 7) =~= t.subrange(0, 7));
            assert(chars::stands_at(s, short, i));
        }
        assert(pattern::match_at(pattern::USER_MENTION@, t) is None && pattern::match_at(
            pattern::ROLE_MENTION@,
            t,
        ) is None && pattern::match_at(pattern::CHANNEL_MENTION@, t) is None && pattern::match_at(
            pattern::CUSTOM_EMOJI@,
            t,
        ) is None) by {
            if t[0] != '<' {
                lemma_not_a_mention(t);
            } else {
                assert(forall|j: int| 0 < j < t.len() ==> #[trigger] t[j] != '>');
                let d2 = pattern::run(t.skip(2), |c: char| pattern::is_decimal_digit(c));
                let d3 = pattern::run(t.skip(3), |c: char| pattern::is_decimal_digit(c));
                pattern::lemma_run(t.skip(2), |c: char| pattern::is_decimal_digit(c));
                pattern::lemma_run(t.skip(3), |c: char| pattern::is_decimal_digit(c));
                lemma_emoji_closes(t);
            }
        }
        let w = pattern::run(t, |c: char| c == 'w' || c == 'ｗ');
        pattern::lemma_run(t, |c: char| c == 'w' || c == 'ｗ');
        if w >= 2 {
            assert(t[0] == 'w' || t[0] == 'ｗ');
            assert(t[1] == 'w' || t[1] == 'ｗ');
            assert(s[i] == t[0] && s[i + 1] == t[1]);
        }
    }
    text_laws::plain_text_is_unchanged(s, max_length, names, attachments);
}

/// A custom emoji closes with an angle bracket.
proof fn lemma_emoji_closes(t: Seq<char>)
    requires
        forall|j: int| 0 < j < t.len() ==> #[trigger] t[j] != '>',
    ensures
        pattern::custom_emoji_at(t) is None,
{
    let head: int = if chars::begins(t, seq!['<', 'a', ':']) {
        3
    } else {
        2
    };
    let n = pattern::run(t.skip(head), |c: char| c != ':' && c != '>');
    if n > 0 {
        pattern::lemma_run(t.skip(head), |c: char| c != ':' && c != '>');
        let d = pattern::run(t.skip(head + n + 1), |c: char| pattern::is_decimal_digit(c));
        pattern::lemma_run(t.skip(head + n + 1), |c: char| pattern::is_decimal_digit(c));
        assert(head + n + 1 + d > 0);
    }
}

} // verus!
