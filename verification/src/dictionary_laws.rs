//! What a dictionary does to a text.

use vstd::prelude::*;

use crate::chars;
use crate::markup_laws;
use crate::text;
use crate::text::NamesModel;

verus! {

/// A join can be taken apart at its front.
proof fn lemma_joined_front(parts: Seq<Seq<char>>, separator: Seq<char>)
    requires
        parts.len() > 1,
    ensures
        chars::joined(parts, separator) == parts[0] + separator + chars::joined(
            parts.skip(1),
            separator,
        ),
    decreases parts.len(),
{
    let rest = parts.skip(1);
    let short = parts.drop_last();
    if parts.len() == 2 {
        assert(short.len() == 1 && short[0] == parts[0]);
        assert(rest.len() == 1 && rest[0] == parts.last());
        assert(chars::joined(short, separator) == parts[0]);
        assert(chars::joined(rest, separator) == parts.last());
    } else {
        lemma_joined_front(short, separator);
        assert(short.skip(1) =~= rest.drop_last());
        assert(rest.last() == parts.last());
        assert(short[0] == parts[0]);
        let middle = chars::joined(rest.drop_last(), separator);
        assert(chars::joined(parts, separator) == chars::joined(short, separator) + separator
            + parts.last());
        assert(chars::joined(rest, separator) == middle + separator + rest.last());
        assert(parts[0] + separator + middle + separator + parts.last() =~= parts[0] + separator + (
        middle + separator + parts.last()));
    }
}

/// Up to the first occurrence a text stays as it is, the occurrence is replaced, and what follows is
/// treated on its own.
proof fn lemma_first_replaced(front: Seq<char>, p: Seq<char>, tail: Seq<char>, r: Seq<char>)
    requires
        p.len() > 0,
        forall|j: int| 0 <= j < front.len() ==> !#[trigger] chars::stands_at(front + p, p, j),
    ensures
        chars::substituted(front + p + tail, p, r) == front + r + chars::substituted(tail, p, r),
    decreases front.len(),
{
    let s = front + p + tail;
    let end = chars::substituted(tail, p, r);
    if front.len() == 0 {
        assert(s =~= p + tail);
        assert(s.subrange(0, p.len() as int) =~= p);
        assert(s.skip(p.len() as int) =~= tail);
        assert(front + r + end =~= r + end);
    } else {
        let rest = front.skip(1);
        assert(!chars::begins(s, p)) by {
            assert(!chars::stands_at(front + p, p, 0));
            assert(s.subrange(0, p.len() as int) =~= (front + p).subrange(0, p.len() as int));
        }
        assert(s.skip(1) =~= rest + p + tail);
        assert forall|j: int| 0 <= j < rest.len() implies !#[trigger] chars::stands_at(
            rest + p,
            p,
            j,
        ) by {
            assert(!chars::stands_at(front + p, p, j + 1));
            assert((rest + p).subrange(j, j + p.len()) =~= (front + p).subrange(
                j + 1,
                j + 1 + p.len(),
            ));
        }
        lemma_first_replaced(rest, p, tail, r);
        assert(seq![s[0]] + (rest + r + end) =~= front + r + end);
    }
}

/// A text in which the spelling does not occur stays as it is.
proof fn lemma_none_replaced(s: Seq<char>, p: Seq<char>, r: Seq<char>)
    requires
        p.len() > 0,
        !chars::occurs(s, p),
    ensures
        chars::substituted(s, p, r) == s,
    decreases s.len(),
{
    if s.len() > 0 {
        let rest = s.skip(1);
        assert(!chars::stands_at(s, p, 0));
        assert(!chars::occurs(rest, p)) by {
            if chars::occurs(rest, p) {
                let i = choose|i: int| chars::stands_at(rest, p, i);
                assert(s.subrange(i + 1, i + 1 + p.len()) =~= rest.subrange(i, i + p.len()));
                assert(chars::stands_at(s, p, i + 1));
            }
        }
        lemma_none_replaced(rest, p, r);
        assert(seq![s[0]] + rest =~= s);
    }
}

/// Pieces with the spelling between them become pieces with the reading between them.
proof fn lemma_pieces(pieces: Seq<Seq<char>>, p: Seq<char>, r: Seq<char>)
    requires
        p.len() > 0,
        pieces.len() > 0,
        forall|i: int, j: int|
            0 <= i < pieces.len() - 1 && 0 <= j < pieces[i].len() ==> !#[trigger] chars::stands_at(
                pieces[i] + p,
                p,
                j,
            ),
        !chars::occurs(pieces.last(), p),
    ensures
        chars::substituted(chars::joined(pieces, p), p, r) == chars::joined(pieces, r),
    decreases pieces.len(),
{
    if pieces.len() == 1 {
        lemma_none_replaced(pieces[0], p, r);
    } else {
        let rest = pieces.skip(1);
        lemma_joined_front(pieces, p);
        lemma_joined_front(pieces, r);
        assert forall|i: int, j: int|
            0 <= i < rest.len() - 1 && 0 <= j < rest[i].len() implies !#[trigger] chars::stands_at(
            rest[i] + p,
            p,
            j,
        ) by {
            assert(rest[i] == pieces[i + 1]);
            assert(!chars::stands_at(pieces[i + 1] + p, p, j));
        }
        assert(rest.last() == pieces.last());
        lemma_pieces(rest, p, r);
        assert forall|j: int| 0 <= j < pieces[0].len() implies !#[trigger] chars::stands_at(
            pieces[0] + p,
            p,
            j,
        ) by {
            assert(!chars::stands_at(pieces[0] + p, p, j));
        }
        lemma_first_replaced(pieces[0], p, chars::joined(rest, p), r);
    }
}

/// No entry is shorter than the only one.
proof fn lemma_none_shorter(entry: (Seq<char>, Seq<char>), n: int)
    requires
        n < entry.0.len(),
    ensures
        text::up_to_length(seq![entry], n) == Seq::<(Seq<char>, Seq<char>)>::empty(),
    decreases n + 1,
{
    if n >= 0 {
        reveal_with_fuel(text::of_length, 2);
        lemma_none_shorter(entry, n - 1);
        assert(seq![entry].skip(1) =~= Seq::<(Seq<char>, Seq<char>)>::empty());
        assert(text::of_length(seq![entry], n) =~= Seq::<(Seq<char>, Seq<char>)>::empty());
    }
}

/// The order of one entry is that entry.
proof fn lemma_only_entry(entry: (Seq<char>, Seq<char>))
    ensures
        text::longest_first(seq![entry]) == seq![entry],
{
    reveal_with_fuel(text::longest, 2);
    reveal_with_fuel(text::of_length, 2);
    let only = seq![entry];
    assert(only.drop_last() =~= Seq::<(Seq<char>, Seq<char>)>::empty());
    assert(only.skip(1) =~= Seq::<(Seq<char>, Seq<char>)>::empty());
    assert(text::longest(only) == entry.0.len());
    lemma_none_shorter(entry, entry.0.len() - 1);
    assert(text::of_length(only, entry.0.len() as int) =~= only);
}

/// A text after one entry.
proof fn lemma_one_entry(s: Seq<char>, entry: (Seq<char>, Seq<char>))
    ensures
        text::respelled(s, seq![entry]) == text::respelled_once(s, entry),
{
    reveal_with_fuel(text::respelled, 2);
    assert(seq![entry].skip(1) =~= Seq::<(Seq<char>, Seq<char>)>::empty());
}

/// Every occurrence of a spelling gets its reading: a text in which the spelling stands between pieces,
/// each time where it first occurs, becomes the pieces with the reading between them. A text without
/// the spelling stays as it is.
pub proof fn every_occurrence_gets_the_reading(
    pieces: Seq<Seq<char>>,
    spelling: Seq<char>,
    reading: Seq<char>,
)
    requires
        spelling.len() > 0,
        pieces.len() > 0,
        forall|i: int, j: int|
            0 <= i < pieces.len() - 1 && 0 <= j < pieces[i].len() ==> !#[trigger] chars::stands_at(
                pieces[i] + spelling,
                spelling,
                j,
            ),
        !chars::occurs(pieces.last(), spelling),
    ensures
        text::respelled(
            chars::joined(pieces, spelling),
            text::longest_first(seq![(spelling, reading)]),
        ) == chars::joined(pieces, reading),
{
    lemma_only_entry((spelling, reading));
    lemma_one_entry(chars::joined(pieces, spelling), (spelling, reading));
    lemma_pieces(pieces, spelling, reading);
}

/// Whether two texts have no character in common.
pub open spec fn share_nothing(a: Seq<char>, b: Seq<char>) -> bool {
    forall|i: int, j: int|
        0 <= i < a.len() && 0 <= j < b.len() ==> #[trigger] a[i] != #[trigger] b[j]
}

/// What a text begins with after the replacement, without a character of the reading, it began with
/// before.
proof fn lemma_prefix_was_there(s: Seq<char>, p: Seq<char>, r: Seq<char>, q: Seq<char>)
    requires
        p.len() > 0,
        r.len() > 0,
        share_nothing(q, r),
        chars::begins(chars::substituted(s, p, r), q),
    ensures
        chars::begins(s, q),
    decreases s.len(),
{
    let out = chars::substituted(s, p, r);
    if q.len() == 0 {
        assert(s.subrange(0, 0) =~= q);
    } else {
        assert(out.subrange(0, q.len() as int)[0] == out[0]);
        if s.len() > 0 {
            if chars::begins(s, p) {
                assert(out[0] == r[0]);
                assert(q[0] == r[0]);
            } else {
                let rest = s.skip(1);
                let next = chars::substituted(rest, p, r);
                let tail = q.skip(1);
                assert(out[0] == s[0]);
                assert(next.subrange(0, tail.len() as int) =~= tail) by {
                    assert forall|i: int| 0 <= i < tail.len() implies next[i] == #[trigger] tail[i] by {
                        assert(out.subrange(0, q.len() as int)[i + 1] == q[i + 1]);
                        assert(out[i + 1] == next[i]);
                    }
                }
                assert(share_nothing(tail, r)) by {
                    assert forall|i: int, j: int|
                        0 <= i < tail.len() && 0 <= j < r.len() implies #[trigger] tail[i]
                        != #[trigger] r[j] by {
                        assert(q[i + 1] != r[j]);
                    }
                }
                lemma_prefix_was_there(rest, p, r, tail);
                assert(s.subrange(0, q.len() as int) =~= q) by {
                    assert forall|i: int| 0 <= i < q.len() implies s[i] == #[trigger] q[i] by {
                        if i > 0 {
                            assert(rest.subrange(0, tail.len() as int)[i - 1] == tail[i - 1]);
                        }
                    }
                }
            }
        }
    }
}

/// Nowhere is the spelling left.
proof fn lemma_not_left(s: Seq<char>, p: Seq<char>, r: Seq<char>, at: int)
    requires
        p.len() > 0,
        r.len() > 0,
        share_nothing(p, r),
    ensures
        !chars::stands_at(chars::substituted(s, p, r), p, at),
    decreases s.len(),
{
    let out = chars::substituted(s, p, r);
    if s.len() > 0 && chars::stands_at(out, p, at) {
        assert(out.subrange(at, at + p.len())[0] == out[at]);
        if chars::begins(s, p) {
            let rest = chars::substituted(s.skip(p.len() as int), p, r);
            if at < r.len() {
                assert(out[at] == r[at]);
                assert(p[0] != r[at]);
            } else {
                assert(rest.subrange(at - r.len(), at - r.len() + p.len()) =~= out.subrange(
                    at,
                    at + p.len(),
                ));
                lemma_not_left(s.skip(p.len() as int), p, r, at - r.len());
            }
        } else if at > 0 {
            let rest = chars::substituted(s.skip(1), p, r);
            assert(rest.subrange(at - 1, at - 1 + p.len()) =~= out.subrange(at, at + p.len()));
            lemma_not_left(s.skip(1), p, r, at - 1);
        } else {
            lemma_prefix_was_there(s, p, r, p);
        }
    }
}

/// No occurrence is left over: where the reading has no character of the spelling, the spelling does
/// not occur any more.
pub proof fn no_occurrence_is_left(s: Seq<char>, spelling: Seq<char>, reading: Seq<char>)
    requires
        spelling.len() > 0,
        reading.len() > 0,
        share_nothing(spelling, reading),
    ensures
        !chars::occurs(
            text::respelled(s, text::longest_first(seq![(spelling, reading)])),
            spelling,
        ),
{
    lemma_only_entry((spelling, reading));
    lemma_one_entry(s, (spelling, reading));
    let out = chars::substituted(s, spelling, reading);
    if chars::occurs(out, spelling) {
        let at = choose|at: int| chars::stands_at(out, spelling, at);
        lemma_not_left(s, spelling, reading, at);
    }
}

/// The entries are applied one after the other, each to what the ones before it left. An entry without
/// a spelling changes nothing.
pub proof fn entries_are_applied_in_turn(
    s: Seq<char>,
    first: Seq<(Seq<char>, Seq<char>)>,
    then: Seq<(Seq<char>, Seq<char>)>,
    reading: Seq<char>,
)
    ensures
        text::respelled(s, first + then) == text::respelled(text::respelled(s, first), then),
        text::respelled(s, Seq::empty()) == s,
        text::respelled(s, seq![(Seq::<char>::empty(), reading)]) == s,
    decreases first.len(),
{
    lemma_one_entry(s, (Seq::<char>::empty(), reading));
    if first.len() == 0 {
        assert(first + then =~= then);
    } else {
        let next = text::respelled_once(s, first[0]);
        entries_are_applied_in_turn(next, first.skip(1), then, reading);
        assert((first + then).skip(1) =~= first.skip(1) + then);
        assert((first + then)[0] == first[0]);
    }
}

/// Whether the spelling of an entry has so many characters.
pub open spec fn has_length(n: int) -> spec_fn((Seq<char>, Seq<char>)) -> bool {
    |entry: (Seq<char>, Seq<char>)| entry.0.len() == n
}

/// All or none of a sequence are kept.
proof fn lemma_all_or_none(
    s: Seq<(Seq<char>, Seq<char>)>,
    pred: spec_fn((Seq<char>, Seq<char>)) -> bool,
    all: bool,
)
    requires
        forall|i: int| 0 <= i < s.len() ==> pred(#[trigger] s[i]) == all,
    ensures
        s.filter(pred) == if all {
            s
        } else {
            Seq::empty()
        },
    decreases s.len(),
{
    reveal(Seq::filter);
    if s.len() > 0 {
        let rest = s.drop_last();
        assert forall|i: int| 0 <= i < rest.len() implies pred(#[trigger] rest[i]) == all by {
            assert(rest[i] == s[i]);
        }
        lemma_all_or_none(rest, pred, all);
        assert(pred(s[s.len() - 1]) == all);
        assert(rest.push(s.last()) =~= s);
    }
}

/// The entries of one length are those with that length.
proof fn lemma_of_length_is_filter(dictionary: Seq<(Seq<char>, Seq<char>)>, n: int)
    ensures
        text::of_length(dictionary, n) == dictionary.filter(has_length(n)),
        forall|i: int|
            0 <= i < text::of_length(dictionary, n).len() ==> (#[trigger] text::of_length(
                dictionary,
                n,
            )[i]).0.len() == n,
    decreases dictionary.len(),
{
    if dictionary.len() == 0 {
        reveal(Seq::filter);
        assert(text::of_length(dictionary, n) =~= dictionary.filter(has_length(n)));
    } else {
        let first = seq![dictionary[0]];
        let rest = dictionary.skip(1);
        lemma_of_length_is_filter(rest, n);
        assert(dictionary =~= first + rest);
        Seq::filter_distributes_over_add(first, rest, has_length(n));
        lemma_all_or_none(first, has_length(n), dictionary[0].0.len() == n);
        let all = text::of_length(dictionary, n);
        if dictionary[0].0.len() == n {
            assert forall|i: int| 0 <= i < all.len() implies (#[trigger] all[i]).0.len() == n by {
                if i > 0 {
                    assert(all[i] == text::of_length(rest, n)[i - 1]);
                }
            }
        } else {
            assert(Seq::<(Seq<char>, Seq<char>)>::empty() + text::of_length(rest, n)
                =~= text::of_length(rest, n));
        }
    }
}

/// The entries of one length among those up to a length.
proof fn lemma_up_to_length_filter(dictionary: Seq<(Seq<char>, Seq<char>)>, most: int, n: int)
    requires
        n >= 0,
    ensures
        text::up_to_length(dictionary, most).filter(has_length(n)) == if n <= most {
            dictionary.filter(has_length(n))
        } else {
            Seq::empty()
        },
    decreases most + 1,
{
    if most < 0 {
        reveal(Seq::filter);
        assert(text::up_to_length(dictionary, most).filter(has_length(n)) =~= Seq::empty());
    } else {
        let head = text::of_length(dictionary, most);
        let tail = text::up_to_length(dictionary, most - 1);
        lemma_up_to_length_filter(dictionary, most - 1, n);
        lemma_of_length_is_filter(dictionary, most);
        lemma_all_or_none(head, has_length(n), most == n);
        Seq::filter_distributes_over_add(head, tail, has_length(n));
        if most == n {
            assert(head + Seq::<(Seq<char>, Seq<char>)>::empty() =~= head);
        } else {
            assert(Seq::<(Seq<char>, Seq<char>)>::empty() + tail.filter(has_length(n))
                =~= tail.filter(has_length(n)));
        }
    }
}

/// Entries with spellings of the same length are applied in the order in which the dictionary has
/// them.
pub proof fn the_same_length_keeps_its_order(dictionary: Seq<(Seq<char>, Seq<char>)>, n: nat)
    ensures
        text::longest_first(dictionary).filter(has_length(n as int)) == dictionary.filter(
            has_length(n as int),
        ),
{
    let most = text::longest(dictionary);
    lemma_up_to_length_filter(dictionary, most, n as int);
    if n > most {
        text::lemma_longest(dictionary);
        lemma_all_or_none(dictionary, has_length(n as int), false);
    }
}

/// A bare message is read as its text would be after the dictionary, without one, if that text is bare.
pub proof fn the_dictionary_comes_after_the_markup(
    s: Seq<char>,
    max_length: nat,
    names: NamesModel,
    dictionary: Seq<(Seq<char>, Seq<char>)>,
    attachments: nat,
)
    requires
        markup_laws::is_bare(s),
        markup_laws::is_bare(text::respelled(s, text::longest_first(dictionary))),
    ensures
        text::normalized(s, max_length, names, dictionary, attachments) == text::normalized(
            text::respelled(s, text::longest_first(dictionary)),
            max_length,
            names,
            Seq::empty(),
            attachments,
        ),
{
    let after = text::respelled(s, text::longest_first(dictionary));
    markup_laws::lemma_bare(s, names);
    markup_laws::lemma_bare(after, names);
    let nothing = Seq::<(Seq<char>, Seq<char>)>::empty();
    reveal_with_fuel(text::up_to_length, 2);
    assert(text::longest_first(nothing) =~= nothing);
    assert(text::respelled(after, nothing) == after);
}

/// A bare message in which a spelling stands between pieces, each time where it first occurs, is read
/// as if the reading stood there each time.
pub proof fn a_spelling_is_read_as_its_reading(
    pieces: Seq<Seq<char>>,
    spelling: Seq<char>,
    reading: Seq<char>,
    max_length: nat,
    names: NamesModel,
    attachments: nat,
)
    requires
        spelling.len() > 0,
        pieces.len() > 0,
        forall|i: int, j: int|
            0 <= i < pieces.len() - 1 && 0 <= j < pieces[i].len() ==> !#[trigger] chars::stands_at(
                pieces[i] + spelling,
                spelling,
                j,
            ),
        !chars::occurs(pieces.last(), spelling),
        markup_laws::is_bare(chars::joined(pieces, spelling)),
        markup_laws::is_bare(chars::joined(pieces, reading)),
    ensures
        text::normalized(
            chars::joined(pieces, spelling),
            max_length,
            names,
            seq![(spelling, reading)],
            attachments,
        ) == text::normalized(
            chars::joined(pieces, reading),
            max_length,
            names,
            Seq::empty(),
            attachments,
        ),
{
    every_occurrence_gets_the_reading(pieces, spelling, reading);
    the_dictionary_comes_after_the_markup(
        chars::joined(pieces, spelling),
        max_length,
        names,
        seq![(spelling, reading)],
        attachments,
    );
}

} // verus!
