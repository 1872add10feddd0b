//! What holds of every reading that normalization gives.

use vstd::prelude::*;

use crate::chars;
use crate::pattern;
use crate::pattern::ReadingModel;
use crate::text;
use crate::text::NamesModel;

verus! {

/// No line end is left.
proof fn lemma_on_one_line(s: Seq<char>)
    ensures
        forall|i: int|
            0 <= i < text::on_one_line(s).len() ==> !text::is_break(
                #[trigger] text::on_one_line(s)[i],
            ),
    decreases s.len(),
{
    if s.len() > 0 {
        lemma_on_one_line(s.drop_last());
        let before = text::on_one_line(s.drop_last());
        let all = text::on_one_line(s);
        assert forall|i: int| 0 <= i < all.len() implies !text::is_break(#[trigger] all[i]) by {
            if i < before.len() {
                assert(all[i] == before[i]);
            }
        }
    }
}

/// Compression keeps what was true of every character.
proof fn lemma_compressed_unbroken(s: Seq<char>)
    requires
        forall|i: int| 0 <= i < s.len() ==> !text::is_break(#[trigger] s[i]),
    ensures
        forall|i: int|
            0 <= i < text::compressed(s).len() ==> !text::is_break(
                #[trigger] text::compressed(s)[i],
            ),
    decreases s.len(),
{
    if s.len() > 0 {
        let t = s.drop_last();
        assert forall|i: int| 0 <= i < t.len() implies !text::is_break(#[trigger] t[i]) by {
            assert(t[i] == s[i]);
        }
        lemma_compressed_unbroken(t);
        let before = text::compressed(t);
        let all = text::compressed(s);
        assert(!text::is_break(s[s.len() - 1]));
        assert forall|i: int| 0 <= i < all.len() implies !text::is_break(#[trigger] all[i]) by {
            if i < before.len() {
                assert(all[i] == before[i]);
            }
        }
    }
}

/// A trimmed text is a stretch of the text.
proof fn lemma_trimmed_stretch(edge: chars::Edge, s: Seq<char>) -> (from: int)
    ensures
        0 <= from,
        from + chars::trimmed(edge, s).len() <= s.len(),
        chars::trimmed(edge, s) == s.subrange(from, from + chars::trimmed(edge, s).len()),
{
    let t = chars::trim_start(edge, s);
    chars::lemma_trim_start(edge, s);
    chars::lemma_trim_end(edge, t);
    let u = chars::trimmed(edge, s);
    let from = s.len() - t.len();
    assert(u =~= s.subrange(from, from + u.len()));
    from
}

/// Whether the four characters from `i` on are the same.
pub open spec fn four_alike(s: Seq<char>, i: int) -> bool {
    s[i] == s[i + 1] && s[i] == s[i + 2] && s[i] == s[i + 3]
}

/// Whether no character stands four times in a row.
pub open spec fn no_long_run(s: Seq<char>) -> bool {
    forall|i: int| 0 <= i && i + 3 < s.len() ==> !#[trigger] four_alike(s, i)
}

/// A run of the last character is at least one long.
pub(crate) proof fn lemma_last_run(s: Seq<char>)
    ensures
        0 <= text::last_run(s) <= s.len(),
        s.len() > 0 ==> text::last_run(s) >= 1,
        forall|j: int| s.len() - text::last_run(s) <= j < s.len() ==> #[trigger] s[j] == s.last(),
        s.len() > text::last_run(s) && s.len() > 0 ==> s[s.len() - text::last_run(s) - 1]
            != s.last(),
    decreases s.len(),
{
    if s.len() > 0 {
        let t = s.drop_last();
        lemma_last_run(t);
        if s.len() > 1 && s[s.len() - 2] == s.last() {
            assert(t.last() == s.last());
            assert forall|j: int| s.len() - text::last_run(s) <= j < s.len() implies #[trigger] s[j]
                == s.last() by {
                if j < s.len() - 1 {
                    assert(t[j] == s[j]);
                }
            }
            if s.len() > text::last_run(s) {
                assert(t[t.len() - text::last_run(t) - 1] == s[s.len() - text::last_run(s) - 1]);
            }
        }
    }
}

/// Compression leaves at most three of the last run, and no longer run before it.
proof fn lemma_compressed(s: Seq<char>)
    ensures
        no_long_run(text::compressed(s)),
        s.len() > 0 ==> text::compressed(s).len() > 0 && text::compressed(s).last() == s.last(),
        text::last_run(text::compressed(s)) == if text::last_run(s) <= 3 {
            text::last_run(s)
        } else {
            3
        },
    decreases s.len(),
{
    if s.len() > 0 {
        let t = s.drop_last();
        lemma_compressed(t);
        lemma_last_run(s);
        lemma_last_run(t);
        let before = text::compressed(t);
        let all = text::compressed(s);
        lemma_last_run(before);
        if text::last_run(s) <= 3 {
            assert(all.drop_last() == before);
            if s.len() > 1 {
                assert(all[all.len() - 2] == before.last());
            } else {
                assert(before.len() == 0);
            }
            assert forall|i: int| 0 <= i && i + 3 < all.len() implies !#[trigger] four_alike(
                all,
                i,
            ) by {
                if i + 3 < before.len() {
                    assert(!four_alike(before, i));
                    assert(forall|k: int| 0 <= k < before.len() ==> all[k] == before[k]);
                } else if four_alike(all, i) {
                    assert(before[i] == all[i] && before[i + 1] == all[i + 1] && before[i + 2]
                        == all[i + 2]);
                    assert(before.last() == s.last());
                    assert(text::last_run(before) <= 2);
                    assert(before[before.len() - text::last_run(before) - 1] != before.last());
                    assert(false);
                }
            }
        }
    }
}

/// A stretch of a text without long runs has none either.
proof fn lemma_stretch_no_long_run(s: Seq<char>, from: int, to: int)
    requires
        no_long_run(s),
        0 <= from <= to <= s.len(),
    ensures
        no_long_run(s.subrange(from, to)),
{
    let t = s.subrange(from, to);
    assert forall|i: int| 0 <= i && i + 3 < t.len() implies !#[trigger] four_alike(t, i) by {
        assert(!four_alike(s, from + i));
    }
}

/// What is left to read is on one line, has no character four times in a row, and has neither
/// white space nor a pause at either end.
pub proof fn readable_text_is_smooth(
    s: Seq<char>,
    names: NamesModel,
    dictionary: Seq<(Seq<char>, Seq<char>)>,
)
    ensures
        ({
            let body = text::readable(s, names, dictionary);
            &&& forall|i: int| 0 <= i < body.len() ==> !text::is_break(#[trigger] body[i])
            &&& no_long_run(body)
            &&& body.len() > 0 ==> !chars::Edge::SpaceOrComma.holds(body[0])
            &&& body.len() > 0 ==> !chars::Edge::SpaceOrComma.holds(body.last())
        }),
{
    let body = text::readable(s, names, dictionary);
    let laughing = text::respelled(
        text::without_markup(s, names),
        text::longest_first(dictionary),
    );
    let spoken = pattern::rewritten(
        pattern::LAUGH@,
        laughing,
        ReadingModel::Text(text::LAUGH_READING@),
    );
    let line = text::on_one_line(spoken);
    let short = text::compressed(line);
    lemma_on_one_line(spoken);
    lemma_compressed_unbroken(line);
    lemma_compressed(line);
    chars::lemma_trimmed(chars::Edge::SpaceOrComma, short);
    let from = lemma_trimmed_stretch(chars::Edge::SpaceOrComma, short);
    lemma_stretch_no_long_run(short, from, from + body.len());
    assert forall|i: int| 0 <= i < body.len() implies !text::is_break(#[trigger] body[i]) by {
        assert(body[i] == short[from + i]);
    }
}

/// A reading is never empty, is on one line, and is at most the limit and the mark of a text cut
/// short long, or is the announcement of a file. Up to the limit no character stands four times
/// in a row.
pub proof fn readings_are_bounded(
    s: Seq<char>,
    max_length: nat,
    names: NamesModel,
    dictionary: Seq<(Seq<char>, Seq<char>)>,
    attachments: nat,
)
    ensures
        text::normalized(s, max_length, names, dictionary, attachments) matches Some(reading) ==> {
            &&& reading.len() > 0
            &&& forall|i: int| 0 <= i < reading.len() ==> !text::is_break(#[trigger] reading[i])
            &&& reading == text::ATTACHMENT_READING@ || reading.len() <= max_length + 3
            &&& no_long_run(
                reading.take(
                    if reading.len() <= max_length {
                        reading.len() as int
                    } else {
                        max_length as int
                    },
                ),
            )
        },
{
    readable_text_is_smooth(s, names, dictionary);
    reveal_strlit("以下略");
    reveal_strlit("ファイル");
    let body = text::readable(s, names, dictionary);
    let file = text::ATTACHMENT_READING@;
    if body.len() > 0 {
        let reading = text::shortened(body, max_length);
        if body.len() <= max_length {
            assert(reading.take(reading.len() as int) == reading);
        } else {
            assert(reading.take(max_length as int) == body.subrange(0, max_length as int));
            lemma_stretch_no_long_run(body, 0, max_length as int);
            assert forall|i: int| 0 <= i < reading.len() implies !text::is_break(
                #[trigger] reading[i],
            ) by {
                if i < max_length {
                    assert(reading[i] == body[i]);
                } else {
                    assert(reading[i] == text::TRUNCATED_SUFFIX@[i - max_length]);
                }
            }
        }
    } else if attachments > 0 {
        assert forall|i: int| 0 <= i && i + 3 < file.len() implies !#[trigger] four_alike(
            file,
            i,
        ) by {
            assert(file[0] != file[1]);
        }
        assert(no_long_run(file));
        assert(file.take(file.len() as int) == file);
        let n = if file.len() <= max_length {
            file.len() as int
        } else {
            max_length as int
        };
        assert(file.take(n) == file.subrange(0, n));
        lemma_stretch_no_long_run(file, 0, n);
    }
}

/// A message is silent exactly when nothing is left of its text and it has no attachments; what
/// is attached does not matter as long as there is text.
pub proof fn silence_means_nothing_to_read(
    s: Seq<char>,
    max_length: nat,
    names: NamesModel,
    dictionary: Seq<(Seq<char>, Seq<char>)>,
    attachments: nat,
)
    ensures
        text::normalized(s, max_length, names, dictionary, attachments) is None <==> text::readable(
            s,
            names,
            dictionary,
        ).len() == 0 && attachments == 0,
        text::readable(s, names, dictionary).len() > 0 ==> text::normalized(
            s,
            max_length,
            names,
            dictionary,
            attachments,
        ) == text::normalized(s, max_length, names, dictionary, 0),
{
}

/// What follows the first occurrence does not move it.
proof fn lemma_first_index_extends(before: Seq<char>, p: Seq<char>, after: Seq<char>)
    requires
        pattern::first_index(before + p, p) == Some(before.len() as int),
    ensures
        pattern::first_index(before + p + after, p) == Some(before.len() as int),
    decreases before.len(),
{
    let s = before + p;
    let t = before + p + after;
    if before.len() == 0 {
        assert(t.subrange(0, p.len() as int) == p);
    } else {
        assert(s.subrange(0, p.len() as int) == t.subrange(0, p.len() as int));
        assert(s.skip(1) == before.skip(1) + p);
        assert(t.skip(1) == before.skip(1) + p + after);
        lemma_first_index_extends(before.skip(1), p, after);
    }
}

/// A fence, code and the next fence are a code block.
proof fn lemma_block_found(code: Seq<char>, after: Seq<char>)
    requires
        pattern::first_index(code + pattern::fence(), pattern::fence()) == Some(code.len() as int),
    ensures
        pattern::code_block_at(pattern::fence() + code + pattern::fence() + after) == Some(
            pattern::Found { length: code.len() as int + 6, group: Seq::empty() },
        ),
{
    let fence = pattern::fence();
    let s = fence + code + fence + after;
    assert(s.subrange(0, 3) == fence);
    assert(s.skip(3) == code + fence + after);
    lemma_first_index_extends(code, fence, after);
}

/// What stands in front of the first fence has no fence at its start, nor has the rest of it
/// another first fence.
proof fn lemma_before_fence(before: Seq<char>, rest: Seq<char>)
    requires
        before.len() > 0,
        pattern::first_index(before + pattern::fence(), pattern::fence()) == Some(
            before.len() as int,
        ),
    ensures
        !chars::begins(before + pattern::fence() + rest, pattern::fence()),
        pattern::first_index(before.skip(1) + pattern::fence(), pattern::fence()) == Some(
            before.len() - 1,
        ),
{
    let fence = pattern::fence();
    let s = before + fence + rest;
    assert((before + fence).skip(1) == before.skip(1) + fence);
    assert((before + fence).subrange(0, 3) == s.subrange(0, 3));
}

/// Text in front of the first fence stays as it is, the block gives way to its reading, and what
/// follows is treated on its own.
pub(crate) proof fn lemma_code_block(before: Seq<char>, code: Seq<char>, after: Seq<char>, reading: Seq<char>)
    requires
        pattern::first_index(before + pattern::fence(), pattern::fence()) == Some(
            before.len() as int,
        ),
        pattern::first_index(code + pattern::fence(), pattern::fence()) == Some(code.len() as int),
    ensures
        pattern::rewritten(
            pattern::CODE_BLOCK@,
            before + pattern::fence() + code + pattern::fence() + after,
            ReadingModel::Text(reading),
        ) == before + reading + pattern::rewritten(
            pattern::CODE_BLOCK@,
            after,
            ReadingModel::Text(reading),
        ),
    decreases before.len(),
{
    reveal(pattern::match_at);
    let fence = pattern::fence();
    let p = pattern::CODE_BLOCK@;
    let model = ReadingModel::Text(reading);
    let s = before + fence + code + fence + after;
    let end = pattern::rewritten(p, after, model);
    if before.len() == 0 {
        lemma_block_found(code, after);
        assert(s == fence + code + fence + after);
        assert(s.skip(code.len() as int + 6) == after);
        assert(before + reading + end == reading + end);
    } else {
        let tail = before.skip(1);
        lemma_before_fence(before, code + fence + after);
        assert(s == before + fence + (code + fence + after));
        lemma_code_block(tail, code, after, reading);
        assert(s.skip(1) == tail + fence + code + fence + after);
        assert(seq![s[0]] + (tail + reading + end) == before + reading + end);
    }
}

/// Nothing that stands inside a code block has any influence on the reading: neither what it says
/// nor markup in it.
pub proof fn code_blocks_are_not_read(
    before: Seq<char>,
    code: Seq<char>,
    other_code: Seq<char>,
    after: Seq<char>,
    max_length: nat,
    names: NamesModel,
    dictionary: Seq<(Seq<char>, Seq<char>)>,
    attachments: nat,
)
    requires
        pattern::first_index(before + pattern::fence(), pattern::fence()) == Some(
            before.len() as int,
        ),
        pattern::first_index(code + pattern::fence(), pattern::fence()) == Some(code.len() as int),
        pattern::first_index(other_code + pattern::fence(), pattern::fence()) == Some(
            other_code.len() as int,
        ),
    ensures
        text::normalized(
            before + pattern::fence() + code + pattern::fence() + after,
            max_length,
            names,
            dictionary,
            attachments,
        ) == text::normalized(
            before + pattern::fence() + other_code + pattern::fence() + after,
            max_length,
            names,
            dictionary,
            attachments,
        ),
{
    lemma_code_block(before, code, after, text::CODE_BLOCK_READING@);
    lemma_code_block(before, other_code, after, text::CODE_BLOCK_READING@);
}

/// A pattern that matches nowhere changes nothing.
pub(crate) proof fn lemma_unmatched(p: Seq<char>, s: Seq<char>, reading: ReadingModel)
    requires
        forall|i: int|
            0 <= i < s.len() ==> pattern::match_at(p, #[trigger] s.skip(i)) is None,
    ensures
        pattern::rewritten(p, s, reading) == s,
    decreases s.len(),
{
    if s.len() > 0 {
        assert(s.skip(0) == s);
        let t = s.skip(1);
        assert forall|i: int| 0 <= i < t.len() implies pattern::match_at(
            p,
            #[trigger] t.skip(i),
        ) is None by {
            assert(t.skip(i) == s.skip(i + 1));
        }
        lemma_unmatched(p, t, reading);
        assert(seq![s[0]] + t == s);
    }
}

/// A text without line ends stays on its line.
pub(crate) proof fn lemma_one_line(s: Seq<char>)
    requires
        forall|i: int| 0 <= i < s.len() ==> !text::is_break(#[trigger] s[i]),
    ensures
        text::on_one_line(s) == s,
    decreases s.len(),
{
    if s.len() > 0 {
        let t = s.drop_last();
        assert forall|i: int| 0 <= i < t.len() implies !text::is_break(#[trigger] t[i]) by {
            assert(t[i] == s[i]);
        }
        lemma_one_line(t);
        assert(!text::is_break(s[s.len() - 1]));
        assert(t.push(s.last()) == s);
    }
}

/// A text without long runs is not compressed.
proof fn lemma_not_compressed(s: Seq<char>)
    requires
        no_long_run(s),
    ensures
        text::compressed(s) == s,
    decreases s.len(),
{
    if s.len() > 0 {
        let t = s.drop_last();
        lemma_stretch_no_long_run(s, 0, t.len() as int);
        assert(s.subrange(0, t.len() as int) == t);
        lemma_not_compressed(t);
        lemma_last_run(s);
        if text::last_run(s) > 3 {
            assert(four_alike(s, s.len() - 4));
        }
        assert(t.push(s.last()) == s);
    }
}

/// A text without edge characters at its ends is not trimmed.
proof fn lemma_not_trimmed(edge: chars::Edge, s: Seq<char>)
    requires
        s.len() > 0 ==> !edge.holds(s[0]) && !edge.holds(s.last()),
    ensures
        chars::trimmed(edge, s) == s,
{
}

/// A text passes through unchanged if it has something to read, is within the limit and on one
/// line, holds no markup and no laughter, has no character four times in a row and neither white
/// space nor a pause at its ends, and meets an empty dictionary.
pub proof fn plain_text_is_unchanged(
    s: Seq<char>,
    max_length: nat,
    names: NamesModel,
    attachments: nat,
)
    requires
        0 < s.len() <= max_length,
        forall|i: int, p: Seq<char>|
            0 <= i < s.len() && pattern::is_known(p) ==> #[trigger] pattern::match_at(
                p,
                s.skip(i),
            ) is None,
        forall|i: int| 0 <= i < s.len() ==> !text::is_break(#[trigger] s[i]),
        no_long_run(s),
        !chars::Edge::SpaceOrComma.holds(s[0]),
        !chars::Edge::SpaceOrComma.holds(s.last()),
    ensures
        text::normalized(s, max_length, names, Seq::empty(), attachments) == Some(s),
{
    lemma_unmatched(pattern::CODE_BLOCK@, s, ReadingModel::Text(text::CODE_BLOCK_READING@));
    lemma_unmatched(pattern::INLINE_CODE@, s, ReadingModel::Group);
    lemma_unmatched(pattern::URL@, s, ReadingModel::Text(text::URL_READING@));
    lemma_unmatched(pattern::CUSTOM_EMOJI@, s, ReadingModel::Group);
    lemma_unmatched(
        pattern::USER_MENTION@,
        s,
        ReadingModel::Name {
            names: names.users,
            prefix: Seq::empty(),
            unknown: text::UNKNOWN_USER@,
        },
    );
    lemma_unmatched(
        pattern::ROLE_MENTION@,
        s,
        ReadingModel::Name {
            names: names.roles,
            prefix: Seq::empty(),
            unknown: text::UNKNOWN_ROLE@,
        },
    );
    lemma_unmatched(
        pattern::CHANNEL_MENTION@,
        s,
        ReadingModel::Name {
            names: names.channels,
            prefix: text::CHANNEL_PREFIX@,
            unknown: text::UNKNOWN_CHANNEL@,
        },
    );
    assert(text::without_markup(s, names) == s);
    let nothing = Seq::<(Seq<char>, Seq<char>)>::empty();
    reveal_with_fuel(text::up_to_length, 2);
    assert(text::longest_first(nothing) == nothing);
    lemma_unmatched(pattern::LAUGH@, s, ReadingModel::Text(text::LAUGH_READING@));
    lemma_one_line(s);
    lemma_not_compressed(s);
    lemma_not_trimmed(chars::Edge::SpaceOrComma, s);
}

} // verus!
