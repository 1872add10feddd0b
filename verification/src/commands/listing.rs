//! Lists of what a guild has put down.

use vstd::prelude::*;

use crate::chars;
use crate::table;

verus! {

/// How many entries are listed.
pub const LIST_LIMIT: usize = 50;

/// A line for each of the first so many entries, with something before and between their parts.
pub open spec fn lines(
    entries: Seq<(Seq<char>, Seq<char>)>,
    before: Seq<char>,
    between: Seq<char>,
    count: nat,
) -> Seq<Seq<char>> {
    Seq::new(count, |i: int| before + entries[i].0 + between + entries[i].1)
}

/// The first entries in a line each, and how many there are if not all are listed.
pub open spec fn listed(
    entries: Seq<(Seq<char>, Seq<char>)>,
    before: Seq<char>,
    between: Seq<char>,
) -> Seq<char> {
    if entries.len() > LIST_LIMIT {
        chars::joined(lines(entries, before, between, LIST_LIMIT as nat), "\n"@) + "\n（"@
            + chars::decimal(entries.len()) + " 件中 "@ + chars::decimal(LIST_LIMIT as nat)
            + " 件を表示）"@
    } else {
        chars::joined(lines(entries, before, between, entries.len()), "\n"@)
    }
}

/// Lists entries.
pub fn list_entries(entries: &Vec<(String, String)>, before: &str, between: &str) -> (out: String)
    ensures
        out@ == listed(table::pairs(entries@), before@, between@),
{
    let total: usize = entries.len();
    let count: usize = if total > LIST_LIMIT {
        LIST_LIMIT
    } else {
        total
    };
    let ghost said = table::pairs(entries@);
    let mut parts: Vec<String> = Vec::new();
    let mut i: usize = 0;
    while i < count
        invariant
            i <= count <= entries@.len(),
            said == table::pairs(entries@),
            parts@.len() == i,
            forall|j: int|
                0 <= j < i ==> (#[trigger] parts@[j])@ == before@ + said[j].0 + between@
                    + said[j].1,
        decreases count - i,
    {
        let line = before.to_owned().concat(entries[i].0.as_str()).concat(between).concat(
            entries[i].1.as_str(),
        );
        assert(said[i as int] == (entries@[i as int].0@, entries@[i as int].1@));
        parts.push(line);
        i = i + 1;
    }
    assert(chars::views(parts@) =~= lines(said, before@, between@, count as nat));
    let body = chars::join(&parts, "\n");
    if total > LIST_LIMIT {
        let total = chars::decimal_text(total as u64);
        let shown = chars::decimal_text(LIST_LIMIT as u64);
        body.concat("\n（").concat(total.as_str()).concat(" 件中 ").concat(shown.as_str()).concat(
            " 件を表示）",
        )
    } else {
        body
    }
}

/// Every entry has a line of its own, in the order of the list, up to fifty. Of a longer list the first
/// fifty are listed, and it is told how many there are.
pub proof fn entries_have_a_line_each(
    entries: Seq<(Seq<char>, Seq<char>)>,
    entry: (Seq<char>, Seq<char>),
    before: Seq<char>,
    between: Seq<char>,
)
    ensures
        listed(seq![entry], before, between) == before + entry.0 + between + entry.1,
        0 < entries.len() < 50 ==> listed(entries.push(entry), before, between) == listed(
            entries,
            before,
            between,
        ) + "\n"@ + (before + entry.0 + between + entry.1),
        entries.len() > 50 ==> listed(entries, before, between) == listed(
            entries.take(50),
            before,
            between,
        ) + "\n（"@ + chars::decimal(entries.len()) + " 件中 50 件を表示）"@,
{
    let one = lines(seq![entry], before, between, 1);
    assert(one.len() == 1);
    if 0 < entries.len() < 50 {
        let longer = lines(entries.push(entry), before, between, entries.len() + 1);
        assert(longer.drop_last() =~= lines(entries, before, between, entries.len()));
        assert(longer.last() == before + entry.0 + between + entry.1);
    }
    if entries.len() > 50 {
        let most = entries.take(50);
        assert(lines(entries, before, between, 50) =~= lines(most, before, between, 50));
        reveal_with_fuel(chars::decimal, 3);
        reveal_strlit(" 件中 ");
        reveal_strlit(" 件を表示）");
        reveal_strlit(" 件中 50 件を表示）");
        assert(chars::decimal(50) =~= seq!['5', '0']);
        let start = chars::joined(lines(most, before, between, 50), "\n"@) + "\n（"@
            + chars::decimal(entries.len());
        assert(start + " 件中 "@ + chars::decimal(50) + " 件を表示）"@ =~= start + (" 件中 "@
            + chars::decimal(50) + " 件を表示）"@));
        assert(" 件中 "@ + chars::decimal(50) + " 件を表示）"@ =~= " 件中 50 件を表示）"@);
    }
}

} // verus!
