//! How laughter, line ends, repetitions, the ends of a text and its length are dealt with.

use vstd::prelude::*;

use crate::chars;
use crate::markup_laws;
use crate::pattern;
use crate::pattern::Found;
use crate::pattern::ReadingModel;
use crate::text;
use crate::text::NamesModel;
use crate::text_laws;

verus! {

/// Whether a character is a letter of laughter, of ordinary or of full width.
pub open spec fn is_laugh(c: char) -> bool {
    c == 'w' || c == 'ｗ'
}

/// Whether a character ends a line.
pub open spec fn ends_line(c: char) -> bool {
    c == '\n' || c == '\r'
}

/// The text with its laughter as a word.
pub open spec fn laughed(s: Seq<char>) -> Seq<char> {
    pattern::rewritten(pattern::LAUGH@, s, ReadingModel::Text(text::LAUGH_READING@))
}

/// So many times the same character.
pub open spec fn row(c: char, n: nat) -> Seq<char> {
    Seq::new(n, |i: int| c)
}

/// Laughter is a run of its letters.
proof fn lemma_laugh_at(s: Seq<char>)
    ensures
        ({
            let n = pattern::run(s, |c: char| c == 'w' || c == 'ｗ');
            &&& 0 <= n <= s.len()
            &&& forall|i: int| 0 <= i < n ==> is_laugh(#[trigger] s[i])
            &&& n < s.len() ==> !is_laugh(s[n])
            &&& pattern::match_at(pattern::LAUGH@, s) == if n >= 2 {
                Some(Found { length: n, group: Seq::empty() })
            } else {
                None
            }
        }),
{
    markup_laws::lemma_kinds(s);
    pattern::lemma_run(s, |c: char| c == 'w' || c == 'ｗ');
}

/// Laughter in a text that is put together of two, where none spans both.
proof fn lemma_laughed_join(a: Seq<char>, b: Seq<char>)
    requires
        a.len() > 0 && b.len() > 0 ==> !(is_laugh(a.last()) && is_laugh(b[0])),
    ensures
        laughed(a + b) == laughed(a) + laughed(b),
    decreases a.len(),
{
    let s = a + b;
    if a.len() == 0 {
        assert(s =~= b);
        assert(laughed(a) + laughed(b) =~= laughed(b));
    } else {
        lemma_laugh_at(s);
        lemma_laugh_at(a);
        let n = pattern::run(s, |c: char| c == 'w' || c == 'ｗ');
        let m = pattern::run(a, |c: char| c == 'w' || c == 'ｗ');
        assert(forall|i: int| 0 <= i < a.len() ==> #[trigger] s[i] == a[i]);
        if n < m {
            assert(is_laugh(a[n]));
        }
        if n > m {
            if m < a.len() {
                assert(is_laugh(s[m]));
            } else {
                assert(is_laugh(a[m - 1]));
                assert(is_laugh(s[m]));
                assert(s[m] == b[0]);
            }
        }
        let reading = ReadingModel::Text(text::LAUGH_READING@);
        if n >= 2 {
            let rest = a.skip(n);
            lemma_laughed_join(rest, b);
            assert(s.skip(n) =~= rest + b);
            assert(text::LAUGH_READING@ + laughed(rest) + laughed(b) =~= text::LAUGH_READING@ + (
            laughed(rest) + laughed(b)));
        } else {
            let rest = a.skip(1);
            lemma_laughed_join(rest, b);
            assert(s.skip(1) =~= rest + b);
            assert(seq![a[0]] + laughed(rest) + laughed(b) =~= seq![a[0]] + (laughed(rest)
                + laughed(b)));
        }
    }
}

/// A text without two letters of laughter next to each other holds no laughter.
proof fn lemma_no_laughter(s: Seq<char>)
    requires
        forall|i: int| 0 <= i < s.len() - 1 ==> !(is_laugh(#[trigger] s[i]) && is_laugh(s[i + 1])),
    ensures
        laughed(s) == s,
{
    assert forall|i: int| 0 <= i < s.len() implies pattern::match_at(
        pattern::LAUGH@,
        #[trigger] s.skip(i),
    ) is None by {
        let t = s.skip(i);
        lemma_laugh_at(t);
        let n = pattern::run(t, |c: char| c == 'w' || c == 'ｗ');
        if n >= 2 {
            assert(is_laugh(t[0]) && is_laugh(t[1]));
            assert(s[i] == t[0] && s[i + 1] == t[1]);
        }
    }
    text_laws::lemma_unmatched(
        pattern::LAUGH@,
        s,
        ReadingModel::Text(text::LAUGH_READING@),
    );
}

/// Nothing but letters of laughter, at least two, is one laugh.
proof fn lemma_all_laughter(s: Seq<char>)
    requires
        s.len() >= 2,
        forall|i: int| 0 <= i < s.len() ==> is_laugh(#[trigger] s[i]),
    ensures
        laughed(s) == text::LAUGH_READING@,
{
    lemma_laugh_at(s);
    let n = pattern::run(s, |c: char| c == 'w' || c == 'ｗ');
    assert(n == s.len()) by {
        if n < s.len() {
            assert(is_laugh(s[n]));
        }
    }
    assert(s.skip(n) =~= Seq::<char>::empty());
    assert(laughed(Seq::<char>::empty()) =~= Seq::<char>::empty());
    assert(text::LAUGH_READING@ + Seq::<char>::empty() =~= text::LAUGH_READING@);
}

/// The reading of laughter is no laughter.
proof fn lemma_laugh_reading()
    ensures
        text::LAUGH_READING@.len() == 2,
        forall|i: int|
            0 <= i < 2 ==> !is_laugh(#[trigger] text::LAUGH_READING@[i]) && !ends_line(
                text::LAUGH_READING@[i],
            ),
        laughed(text::LAUGH_READING@) == text::LAUGH_READING@,
        markup_laws::is_bare(text::LAUGH_READING@),
{
    reveal_strlit("わら");
    lemma_no_laughter(text::LAUGH_READING@);
}

/// Laughter neither opens nor closes a text with a line end.
proof fn lemma_laughed_ends(s: Seq<char>)
    ensures
        s.len() == 0 <==> laughed(s).len() == 0,
        s.len() > 0 ==> (ends_line(laughed(s)[0]) <==> ends_line(s[0])),
        s.len() > 0 ==> (ends_line(laughed(s).last()) <==> ends_line(s.last())),
    decreases s.len(),
{
    lemma_laugh_reading();
    if s.len() > 0 {
        lemma_laugh_at(s);
        let n = pattern::run(s, |c: char| c == 'w' || c == 'ｗ');
        let out = laughed(s);
        if n >= 2 {
            let rest = s.skip(n);
            lemma_laughed_ends(rest);
            assert(out == text::LAUGH_READING@ + laughed(rest));
            assert(out[0] == text::LAUGH_READING@[0]);
            assert(is_laugh(s[0]));
            if rest.len() == 0 {
                assert(out.last() == text::LAUGH_READING@[1]);
                assert(is_laugh(s[s.len() - 1]));
            } else {
                assert(out.last() == laughed(rest).last());
                assert(rest.last() == s.last());
            }
        } else {
            let rest = s.skip(1);
            lemma_laughed_ends(rest);
            assert(out == seq![s[0]] + laughed(rest));
            assert(out[0] == s[0]);
            if rest.len() > 0 {
                assert(out.last() == laughed(rest).last());
                assert(rest.last() == s.last());
            }
        }
    }
}

/// Line ends in a text that is put together of two, where no run spans both.
proof fn lemma_line_join(a: Seq<char>, b: Seq<char>)
    requires
        a.len() > 0 && b.len() > 0 ==> !(ends_line(a.last()) && ends_line(b[0])),
    ensures
        text::on_one_line(a + b) == text::on_one_line(a) + text::on_one_line(b),
    decreases b.len(),
{
    let s = a + b;
    if b.len() == 0 {
        assert(s =~= a);
        assert(text::on_one_line(a) + text::on_one_line(b) =~= text::on_one_line(a));
    } else {
        let rest = b.drop_last();
        lemma_line_join(a, rest);
        assert(s.drop_last() =~= a + rest);
        assert(s.last() == b.last());
        if b.len() > 1 {
            assert(s[s.len() - 2] == b[b.len() - 2]);
        } else if a.len() > 0 {
            assert(s[s.len() - 2] == a.last());
        }
        let before = text::on_one_line(a);
        let after = text::on_one_line(rest);
        assert(forall|c: char| (before + after).push(c) =~= before + after.push(c));
    }
}

/// Nothing but line ends is one pause.
proof fn lemma_only_breaks(s: Seq<char>)
    requires
        s.len() > 0,
        forall|i: int| 0 <= i < s.len() ==> ends_line(#[trigger] s[i]),
    ensures
        text::on_one_line(s) == seq!['、'],
    decreases s.len(),
{
    let rest = s.drop_last();
    assert(ends_line(s[s.len() - 1]));
    if s.len() > 1 {
        assert(ends_line(s[s.len() - 2]));
        assert forall|i: int| 0 <= i < rest.len() implies ends_line(#[trigger] rest[i]) by {
            assert(rest[i] == s[i]);
        }
        lemma_only_breaks(rest);
    } else {
        assert(text::on_one_line(rest) =~= Seq::<char>::empty());
        assert(Seq::<char>::empty().push('、') =~= seq!['、']);
    }
}

/// Whether the last four characters are the same decides whether the last one goes.
proof fn lemma_last_goes(s: Seq<char>)
    requires
        s.len() >= 4,
    ensures
        text::last_run(s) > 3 <==> text_laws::four_alike(s, s.len() - 4),
{
    text_laws::lemma_last_run(s);
    let n = text::last_run(s);
    if n > 3 {
        assert(s[s.len() - 4] == s.last() && s[s.len() - 3] == s.last() && s[s.len() - 2]
            == s.last());
    }
}

/// One more of what stands in a row already changes nothing.
proof fn lemma_one_more(x: Seq<char>, c: char, n: nat, y: Seq<char>)
    requires
        n >= 3,
    ensures
        text::compressed(x + row(c, n + 1) + y) == text::compressed(x + row(c, n) + y),
    decreases y.len(),
{
    let s = x + row(c, n + 1) + y;
    let t = x + row(c, n) + y;
    if y.len() == 0 {
        assert(s.drop_last() =~= t);
        assert(s[s.len() - 1] == c && s[s.len() - 2] == c && s[s.len() - 3] == c && s[s.len() - 4]
            == c);
        lemma_last_goes(s);
    } else {
        let z = y.drop_last();
        lemma_one_more(x, c, n, z);
        assert(s.drop_last() =~= x + row(c, n + 1) + z);
        assert(t.drop_last() =~= x + row(c, n) + z);
        lemma_last_goes(s);
        lemma_last_goes(t);
        assert(s[s.len() - 1] == t[t.len() - 1] && s[s.len() - 2] == t[t.len() - 2] && s[s.len()
            - 3] == t[t.len() - 3] && s[s.len() - 4] == t[t.len() - 4]);
    }
}

/// However often a character is repeated, three are as good as all.
proof fn lemma_row(x: Seq<char>, c: char, n: nat, y: Seq<char>)
    requires
        n >= 3,
    ensures
        text::compressed(x + row(c, n) + y) == text::compressed(x + row(c, 3) + y),
    decreases n,
{
    if n > 3 {
        lemma_one_more(x, c, (n - 1) as nat, y);
        lemma_row(x, c, (n - 1) as nat, y);
    }
}

/// What is left to read of bare text without a dictionary.
proof fn lemma_bare_readable(s: Seq<char>, names: NamesModel)
    requires
        markup_laws::is_bare(s),
    ensures
        text::readable(s, names, Seq::empty()) == chars::trimmed(
            chars::Edge::SpaceOrComma,
            text::compressed(text::on_one_line(laughed(s))),
        ),
{
    markup_laws::lemma_bare(s, names);
    let nothing = Seq::<(Seq<char>, Seq<char>)>::empty();
    reveal_with_fuel(text::up_to_length, 2);
    assert(text::longest_first(nothing) =~= nothing);
    assert(text::respelled(s, nothing) == s);
}

/// Bare texts that are the same once they are on one line and compressed are read the same.
proof fn lemma_smooth_alike(
    s: Seq<char>,
    t: Seq<char>,
    max_length: nat,
    names: NamesModel,
    attachments: nat,
)
    requires
        markup_laws::is_bare(s),
        markup_laws::is_bare(t),
        text::compressed(text::on_one_line(laughed(s))) == text::compressed(
            text::on_one_line(laughed(t)),
        ),
    ensures
        text::normalized(s, max_length, names, Seq::empty(), attachments) == text::normalized(
            t,
            max_length,
            names,
            Seq::empty(),
            attachments,
        ),
{
    lemma_bare_readable(s, names);
    lemma_bare_readable(t, names);
}

/// Two or more letters of laughter in a row, small and of full width in any mixture, are read as one
/// word, however many they are. One alone is no laughter.
pub proof fn laughter_is_one_word(
    before: Seq<char>,
    laughter: Seq<char>,
    after: Seq<char>,
    max_length: nat,
    names: NamesModel,
    attachments: nat,
)
    requires
        markup_laws::is_bare(before),
        markup_laws::is_bare(after),
        laughter.len() >= 2,
        forall|i: int| 0 <= i < laughter.len() ==> is_laugh(#[trigger] laughter[i]),
        before.len() > 0 ==> !is_laugh(before.last()),
        after.len() > 0 ==> !is_laugh(after[0]),
    ensures
        text::normalized(
            before + laughter + after,
            max_length,
            names,
            Seq::empty(),
            attachments,
        ) == text::normalized(
            before + "わら"@ + after,
            max_length,
            names,
            Seq::empty(),
            attachments,
        ),
{
    let word = "わら"@;
    lemma_laugh_reading();
    lemma_all_laughter(laughter);
    lemma_laughed_join(before, laughter);
    lemma_laughed_join(before + laughter, after);
    lemma_laughed_join(before, word);
    lemma_laughed_join(before + word, after);
    assert(markup_laws::is_bare(laughter)) by {
        assert forall|i: int| 0 <= i < laughter.len() implies #[trigger] laughter[i] != '`'
            && laughter[i] != '<' && laughter[i] != ':' by {
            assert(is_laugh(laughter[i]));
        }
    }
    markup_laws::lemma_bare_join(before, laughter);
    markup_laws::lemma_bare_join(before + laughter, after);
    markup_laws::lemma_bare_join(before, word);
    markup_laws::lemma_bare_join(before + word, after);
    lemma_smooth_alike(
        before + laughter + after,
        before + word + after,
        max_length,
        names,
        attachments,
    );
}

/// Line ends in a row, of either kind and in any mixture, are read as one pause, however many they are.
pub proof fn line_ends_are_one_pause(
    before: Seq<char>,
    breaks: Seq<char>,
    after: Seq<char>,
    max_length: nat,
    names: NamesModel,
    attachments: nat,
)
    requires
        markup_laws::is_bare(before),
        markup_laws::is_bare(after),
        breaks.len() > 0,
        forall|i: int| 0 <= i < breaks.len() ==> ends_line(#[trigger] breaks[i]),
        before.len() > 0 ==> !ends_line(before.last()),
        after.len() > 0 ==> !ends_line(after[0]),
    ensures
        text::normalized(
            before + breaks + after,
            max_length,
            names,
            Seq::empty(),
            attachments,
        ) == text::normalized(
            before + seq!['、'] + after,
            max_length,
            names,
            Seq::empty(),
            attachments,
        ),
{
    let pause = seq!['、'];
    assert forall|i: int| 0 <= i < breaks.len() implies !is_laugh(#[trigger] breaks[i]) && breaks[i]
        != '`' && breaks[i] != '<' && breaks[i] != ':' by {
        assert(ends_line(breaks[i]));
    }
    lemma_no_laughter(breaks);
    lemma_no_laughter(pause);
    lemma_laughed_join(before, breaks);
    lemma_laughed_join(before + breaks, after);
    lemma_laughed_join(before, pause);
    lemma_laughed_join(before + pause, after);
    lemma_laughed_ends(before);
    lemma_laughed_ends(after);
    let x = laughed(before);
    let y = laughed(after);
    lemma_line_join(x, breaks);
    lemma_line_join(x + breaks, y);
    lemma_line_join(x, pause);
    lemma_line_join(x + pause, y);
    lemma_only_breaks(breaks);
    text_laws::lemma_one_line(pause);
    assert(markup_laws::is_bare(breaks));
    assert(markup_laws::is_bare(pause));
    markup_laws::lemma_bare_join(before, breaks);
    markup_laws::lemma_bare_join(before + breaks, after);
    markup_laws::lemma_bare_join(before, pause);
    markup_laws::lemma_bare_join(before + pause, after);
    lemma_smooth_alike(
        before + breaks + after,
        before + pause + after,
        max_length,
        names,
        attachments,
    );
}

/// A character that is repeated more than three times in a row is read as if it stood there three
/// times.
pub proof fn repetitions_are_read_three_times(
    before: Seq<char>,
    c: char,
    times: nat,
    after: Seq<char>,
    max_length: nat,
    names: NamesModel,
    attachments: nat,
)
    requires
        times >= 3,
        !is_laugh(c),
        !ends_line(c),
        markup_laws::is_bare(before),
        markup_laws::is_bare(seq![c]),
        markup_laws::is_bare(after),
    ensures
        text::normalized(
            before + row(c, times) + after,
            max_length,
            names,
            Seq::empty(),
            attachments,
        ) == text::normalized(
            before + row(c, 3) + after,
            max_length,
            names,
            Seq::empty(),
            attachments,
        ),
{
    lemma_row_alone(before, c, times, after);
    lemma_row_alone(before, c, 3, after);
    lemma_row(
        text::on_one_line(laughed(before)),
        c,
        times,
        text::on_one_line(laughed(after)),
    );
    lemma_smooth_alike(
        before + row(c, times) + after,
        before + row(c, 3) + after,
        max_length,
        names,
        attachments,
    );
}

/// A row of an ordinary character keeps its place while laughter and line ends are dealt with.
proof fn lemma_row_alone(before: Seq<char>, c: char, n: nat, after: Seq<char>)
    requires
        n > 0,
        !is_laugh(c),
        !ends_line(c),
        markup_laws::is_bare(before),
        markup_laws::is_bare(seq![c]),
        markup_laws::is_bare(after),
    ensures
        text::on_one_line(laughed(before + row(c, n) + after)) == text::on_one_line(
            laughed(before),
        ) + row(c, n) + text::on_one_line(laughed(after)),
        markup_laws::is_bare(before + row(c, n) + after),
{
    let middle = row(c, n);
    assert(seq![c][0] == c);
    assert(markup_laws::is_bare(middle));
    lemma_no_laughter(middle);
    lemma_laughed_join(before, middle);
    lemma_laughed_join(before + middle, after);
    let x = laughed(before);
    let y = laughed(after);
    text_laws::lemma_one_line(middle);
    lemma_line_join(x, middle);
    lemma_line_join(x + middle, y);
    markup_laws::lemma_bare_join(before, middle);
    markup_laws::lemma_bare_join(before + middle, after);
}

/// A limit cuts a reading and does nothing else: what is read of a message without attachments under a
/// limit is all of what is read under a greater one that cuts nothing, or as much of it as the limit
/// allows, with the word for what is left out.
pub proof fn a_limit_only_cuts(
    s: Seq<char>,
    limit: nat,
    greater: nat,
    names: NamesModel,
    dictionary: Seq<(Seq<char>, Seq<char>)>,
)
    requires
        text::normalized(s, greater, names, dictionary, 0) matches Some(all) && all.len()
            <= greater,
    ensures
        ({
            let all = text::normalized(s, greater, names, dictionary, 0)->0;
            text::normalized(s, limit, names, dictionary, 0) == Some(
                if all.len() <= limit {
                    all
                } else {
                    all.take(limit as int) + "以下略"@
                },
            )
        }),
{
    reveal_strlit("以下略");
}

/// A message with attachments is read as its text, if there is any to read, and else announced as a
/// file, under any limit. One without attachments and without anything to read is silent.
pub proof fn a_file_is_announced_only_without_text(
    s: Seq<char>,
    max_length: nat,
    names: NamesModel,
    dictionary: Seq<(Seq<char>, Seq<char>)>,
    attachments: nat,
)
    requires
        attachments > 0,
    ensures
        text::normalized(s, max_length, names, dictionary, attachments) == match text::normalized(
            s,
            max_length,
            names,
            dictionary,
            0,
        ) {
            Some(reading) => Some(reading),
            None => Some("ファイル"@),
        },
{
}

/// A message of nothing but white space, line ends and pauses is silent.
pub proof fn blanks_are_silent(s: Seq<char>, max_length: nat, names: NamesModel)
    requires
        is_blank(s),
    ensures
        text::normalized(s, max_length, names, Seq::empty(), 0) is None,
{
    lemma_blanks(s);
    let short = text::compressed(text::on_one_line(s));
    lemma_bare_readable(s, names);
    chars::trimming_takes_the_edges_off(
        chars::Edge::SpaceOrComma,
        short,
        Seq::empty(),
        Seq::empty(),
    );
}

/// Blanks on one line are blanks.
proof fn lemma_line_keeps_blanks(s: Seq<char>)
    requires
        is_blank(s),
    ensures
        forall|i: int|
            0 <= i < text::on_one_line(s).len() ==> chars::Edge::SpaceOrComma.holds(
                #[trigger] text::on_one_line(s)[i],
            ),
    decreases s.len(),
{
    if s.len() > 0 {
        let rest = s.drop_last();
        assert forall|i: int| 0 <= i < rest.len() implies #[trigger] rest[i] == ' ' || rest[i]
            == '　' || rest[i] == '\t' || rest[i] == '\n' || rest[i] == '\r' || rest[i] == '、' by {
            assert(rest[i] == s[i]);
        }
        lemma_line_keeps_blanks(rest);
        let before = text::on_one_line(rest);
        let all = text::on_one_line(s);
        let last = s[s.len() - 1];
        assert(last == ' ' || last == '　' || last == '\t' || last == '\n' || last == '\r' || last
            == '、');
        assert forall|i: int| 0 <= i < all.len() implies chars::Edge::SpaceOrComma.holds(
            #[trigger] all[i],
        ) by {
            if i < before.len() {
                assert(all[i] == before[i]);
            }
        }
    }
}

/// Compressed blanks are blanks.
proof fn lemma_compressed_keeps_blanks(s: Seq<char>)
    requires
        forall|i: int|
            0 <= i < s.len() ==> chars::Edge::SpaceOrComma.holds(#[trigger] s[i]),
    ensures
        forall|i: int|
            0 <= i < text::compressed(s).len() ==> chars::Edge::SpaceOrComma.holds(
                #[trigger] text::compressed(s)[i],
            ),
    decreases s.len(),
{
    if s.len() > 0 {
        let rest = s.drop_last();
        assert forall|i: int| 0 <= i < rest.len() implies chars::Edge::SpaceOrComma.holds(
            #[trigger] rest[i],
        ) by {
            assert(rest[i] == s[i]);
        }
        lemma_compressed_keeps_blanks(rest);
        let before = text::compressed(rest);
        let all = text::compressed(s);
        assert(chars::Edge::SpaceOrComma.holds(s[s.len() - 1]));
        assert forall|i: int| 0 <= i < all.len() implies chars::Edge::SpaceOrComma.holds(
            #[trigger] all[i],
        ) by {
            if i < before.len() {
                assert(all[i] == before[i]);
            }
        }
    }
}

/// Compression in a text that is put together of two, where no run spans both.
proof fn lemma_compressed_join(a: Seq<char>, b: Seq<char>)
    requires
        a.len() > 0 && b.len() > 0 ==> a.last() != b[0],
    ensures
        text::compressed(a + b) == text::compressed(a) + text::compressed(b),
        b.len() > 0 ==> text::last_run(a + b) == text::last_run(b),
    decreases b.len(),
{
    let s = a + b;
    if b.len() == 0 {
        assert(s =~= a);
        assert(text::compressed(a) + text::compressed(b) =~= text::compressed(a));
    } else {
        let rest = b.drop_last();
        lemma_compressed_join(a, rest);
        assert(s.drop_last() =~= a + rest);
        assert(s.last() == b.last());
        if b.len() > 1 {
            assert(s[s.len() - 2] == b[b.len() - 2]);
        } else if a.len() > 0 {
            assert(s[s.len() - 2] == a.last());
        }
        let before = text::compressed(a);
        let after = text::compressed(rest);
        assert((before + after).push(b.last()) =~= before + after.push(b.last()));
    }
}

/// Compression keeps the first and the last character.
proof fn lemma_compressed_ends(s: Seq<char>)
    requires
        s.len() > 0,
    ensures
        text::compressed(s).len() > 0,
        text::compressed(s)[0] == s[0],
        text::compressed(s).last() == s.last(),
    decreases s.len(),
{
    let rest = s.drop_last();
    text_laws::lemma_last_run(s);
    if rest.len() == 0 {
        assert(text::compressed(rest) =~= Seq::<char>::empty());
        assert(text::compressed(s) =~= seq![s[0]]);
    } else {
        lemma_compressed_ends(rest);
        if text::last_run(s) > 3 {
            assert(s[s.len() - 2] == s.last());
        }
    }
}

/// A text on one line opens and closes with an edge exactly if it did before.
proof fn lemma_line_edges(s: Seq<char>)
    requires
        s.len() > 0,
        !chars::Edge::SpaceOrComma.holds(s[0]),
        !chars::Edge::SpaceOrComma.holds(s.last()),
    ensures
        text::on_one_line(s).len() > 0,
        text::on_one_line(s)[0] == s[0],
        text::on_one_line(s).last() == s.last(),
{
    let head = seq![s[0]];
    let tail = s.skip(1);
    assert(s =~= head + tail);
    lemma_line_join(head, tail);
    text_laws::lemma_one_line(head);
    assert(text::on_one_line(s)[0] == head[0]);
}

/// Laughter opens and closes a text with no edge where there was none.
proof fn lemma_laughed_edges(s: Seq<char>)
    requires
        s.len() > 0,
        !chars::Edge::SpaceOrComma.holds(s[0]),
        !chars::Edge::SpaceOrComma.holds(s.last()),
    ensures
        laughed(s).len() > 0,
        !chars::Edge::SpaceOrComma.holds(laughed(s)[0]),
        !chars::Edge::SpaceOrComma.holds(laughed(s).last()),
    decreases s.len(),
{
    reveal_strlit("わら");
    lemma_laugh_at(s);
    let word = text::LAUGH_READING@;
    let n = pattern::run(s, |c: char| c == 'w' || c == 'ｗ');
    let m = if n >= 2 {
        n
    } else {
        1
    };
    let rest = s.skip(m);
    let shown = if n >= 2 {
        word
    } else {
        seq![s[0]]
    };
    assert(laughed(s) == shown + laughed(rest));
    assert(laughed(s)[0] == shown[0]);
    lemma_laughed_last(rest);
    lemma_laughed_ends(rest);
    if rest.len() == 0 {
        assert(laughed(s).last() == shown.last());
    } else {
        assert(rest.last() == s.last());
        assert(laughed(s).last() == laughed(rest).last());
    }
}

/// A text with its laughter as a word closes as it did, or with the word.
proof fn lemma_laughed_last(s: Seq<char>)
    ensures
        s.len() > 0 ==> laughed(s).len() > 0 && (laughed(s).last() == s.last() || laughed(s).last()
            == 'ら'),
    decreases s.len(),
{
    reveal_strlit("わら");
    if s.len() > 0 {
        lemma_laugh_at(s);
        let n = pattern::run(s, |c: char| c == 'w' || c == 'ｗ');
        if n >= 2 {
            let rest = s.skip(n);
            lemma_laughed_last(rest);
            assert(laughed(s) == text::LAUGH_READING@ + laughed(rest));
            if rest.len() == 0 {
                assert(laughed(rest).len() == 0);
                assert(laughed(s).last() == text::LAUGH_READING@[1]);
            } else {
                assert(laughed(s).last() == laughed(rest).last());
                assert(rest.last() == s.last());
            }
        } else {
            let rest = s.skip(1);
            lemma_laughed_last(rest);
            assert(laughed(s) == seq![s[0]] + laughed(rest));
            if rest.len() == 0 {
                assert(laughed(rest).len() == 0);
            } else {
                assert(laughed(s).last() == laughed(rest).last());
                assert(rest.last() == s.last());
            }
        }
    }
}

/// Whether a text is made of white space, line ends and pauses alone.
pub open spec fn is_blank(s: Seq<char>) -> bool {
    forall|i: int|
        0 <= i < s.len() ==> #[trigger] s[i] == ' ' || s[i] == '　' || s[i] == '\t' || s[i] == '\n'
            || s[i] == '\r' || s[i] == '、'
}

/// What blanks leave: nothing but edges.
proof fn lemma_blanks(s: Seq<char>)
    requires
        is_blank(s),
    ensures
        laughed(s) == s,
        forall|i: int|
            0 <= i < text::compressed(text::on_one_line(s)).len()
                ==> chars::Edge::SpaceOrComma.holds(
                #[trigger] text::compressed(text::on_one_line(s))[i],
            ),
        forall|i: int|
            0 <= i < text::on_one_line(s).len() ==> chars::Edge::SpaceOrComma.holds(
                #[trigger] text::on_one_line(s)[i],
            ),
        forall|i: int|
            0 <= i < s.len() ==> chars::Edge::SpaceOrComma.holds(#[trigger] s[i]) && !is_laugh(
                s[i],
            ),
        markup_laws::is_bare(s),
{
    lemma_no_laughter(s);
    lemma_line_keeps_blanks(s);
    lemma_compressed_keeps_blanks(text::on_one_line(s));
}

/// White space, line ends and pauses at the ends of a message are not read: it is read as what stands
/// between them.
pub proof fn blanks_at_the_ends_are_not_read(
    front: Seq<char>,
    s: Seq<char>,
    back: Seq<char>,
    max_length: nat,
    names: NamesModel,
    attachments: nat,
)
    requires
        is_blank(front),
        is_blank(back),
        markup_laws::is_bare(s),
        s.len() > 0,
        !chars::is_space(s[0]) && s[0] != '、',
        !chars::is_space(s.last()) && s.last() != '、',
    ensures
        text::normalized(
            front + s + back,
            max_length,
            names,
            Seq::empty(),
            attachments,
        ) == text::normalized(s, max_length, names, Seq::empty(), attachments),
{
    let edge = chars::Edge::SpaceOrComma;
    let all = front + s + back;
    lemma_blanks(front);
    lemma_blanks(back);
    lemma_laughed_edges(s);
    lemma_laughed_join(front, s);
    lemma_laughed_join(front + s, back);
    let t = laughed(s);
    lemma_line_edges(t);
    lemma_line_join(front, t);
    assert((front + t).last() == t.last());
    lemma_line_join(front + t, back);
    let f = text::on_one_line(front);
    let u = text::on_one_line(t);
    let b = text::on_one_line(back);
    if f.len() > 0 {
        assert(edge.holds(f[f.len() - 1]));
    }
    lemma_compressed_join(f, u);
    assert((f + u).last() == u.last());
    if b.len() > 0 {
        assert(edge.holds(b[0]));
    }
    lemma_compressed_join(f + u, b);
    lemma_compressed_ends(u);
    let v = text::compressed(u);
    chars::trimming_takes_the_edges_off(edge, text::compressed(f), v, text::compressed(b));
    chars::trimming_takes_the_edges_off(edge, Seq::empty(), v, Seq::empty());
    assert(Seq::<char>::empty() + v + Seq::<char>::empty() =~= v);
    markup_laws::lemma_bare_join(front, s);
    markup_laws::lemma_bare_join(front + s, back);
    lemma_bare_readable(all, names);
    lemma_bare_readable(s, names);
    assert(text::readable(all, names, Seq::empty()) == text::readable(s, names, Seq::empty()));
}

} // verus!
