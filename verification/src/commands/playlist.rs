//! The favourites of a guild: names with the addresses that they stand for.

use vstd::prelude::*;

use crate::chars;
use crate::chars::Edge;
use crate::commands::listing;
use crate::commands::reply;
use crate::commands::reply::Reply;
use crate::commands::reply::ReplyModel;
use crate::db::Db;
use crate::db::DbModel;
use crate::table;

verus! {

/// How many suggestions Discord shows.
pub const AUTOCOMPLETE_LIMIT: usize = 25;

/// Puts down an address under a name.
pub fn add(db: &mut Db, guild_id: u64, name: &str, url: &str) -> (out: Reply)
    requires
        old(db).well_formed(),
    ensures
        final(db).well_formed(),
        ({
            let label = chars::trimmed(Edge::Space, name@);
            let address = chars::trimmed(Edge::Space, url@);
            if label.len() == 0 || address.len() == 0 {
                &&& *final(db) == *old(db)
                &&& out@ == ReplyModel::Text("名前と URL の両方を指定してください。"@)
            } else {
                &&& final(db)@ == (DbModel {
                    playlist: old(db)@.playlist.insert((guild_id, label), address),
                    ..old(db)@
                })
                &&& out@ == ReplyModel::Text("登録しました: **"@ + label + "** → "@ + address)
            }
        }),
{
    let label = chars::trim_text(Edge::Space, name);
    let address = chars::trim_text(Edge::Space, url);
    if label.as_str().is_empty() || address.as_str().is_empty() {
        return reply::say("名前と URL の両方を指定してください。");
    }
    db.add_playlist_entry(guild_id, label.as_str(), address.as_str());
    Reply::Text(
        "登録しました: **".to_owned().concat(label.as_str()).concat("** → ").concat(
            address.as_str(),
        ),
    )
}

/// Lists the names of a guild with their addresses.
pub fn list(db: &Db, guild_id: u64) -> (out: Reply)
    requires
        db.well_formed(),
    ensures
        out@ == (if db.favourites(guild_id).len() == 0 {
            ReplyModel::Text("お気に入りは空です。`/playlist add` で登録できます。"@)
        } else {
            ReplyModel::Embed {
                title: "🎵 お気に入り"@,
                description: Some(listing::listed(db.favourites(guild_id), "・**"@, "** → "@)),
                fields: Seq::empty(),
            }
        }),
{
    let entries = db.playlist(guild_id);
    assert(table::pairs(entries@).len() == entries@.len());
    if entries.len() == 0 {
        return reply::say("お気に入りは空です。`/playlist add` で登録できます。");
    }
    let body = listing::list_entries(&entries, "・**", "** → ");
    reply::framed("🎵 お気に入り", body, None)
}

/// Forgets a name.
pub fn remove(db: &mut Db, guild_id: u64, name: &str) -> (out: Reply)
    requires
        old(db).well_formed(),
    ensures
        final(db).well_formed(),
        ({
            let label = chars::trimmed(Edge::Space, name@);
            &&& final(db)@ == (DbModel {
                playlist: old(db)@.playlist.remove((guild_id, label)),
                ..old(db)@
            })
            &&& out@ == ReplyModel::Text(
                if old(db)@.playlist.contains_key((guild_id, label)) {
                    "削除しました: **"@ + label + "**"@
                } else {
                    "**"@ + label + "** は登録されていません。"@
                },
            )
        }),
{
    let label = chars::trim_text(Edge::Space, name);
    if db.remove_playlist_entry(guild_id, label.as_str()) {
        Reply::Text("削除しました: **".to_owned().concat(label.as_str()).concat("**"))
    } else {
        Reply::Text("**".to_owned().concat(label.as_str()).concat("** は登録されていません。"))
    }
}

/// The names that hold what was typed, in small or capital letters, given each name with the name in
/// small letters.
pub open spec fn names_with(names: Seq<(Seq<char>, Seq<char>)>, needle: Seq<char>) -> Seq<Seq<char>>
    decreases names.len(),
{
    if names.len() == 0 {
        Seq::empty()
    } else {
        let before = names_with(names.drop_last(), needle);
        if needle.len() == 0 || chars::occurs(names.last().1, needle) {
            before.push(names.last().0)
        } else {
            before
        }
    }
}

/// The names that are suggested.
pub open spec fn selected_names(names: Seq<(Seq<char>, Seq<char>)>, needle: Seq<char>) -> Seq<
    Seq<char>,
> {
    let found = names_with(names, needle);
    if found.len() > AUTOCOMPLETE_LIMIT {
        found.take(AUTOCOMPLETE_LIMIT as int)
    } else {
        found
    }
}

/// The names of entries, each with the name in small letters.
pub open spec fn lowered_names(entries: Seq<(Seq<char>, Seq<char>)>) -> Seq<
    (Seq<char>, Seq<char>),
> {
    entries.map_values(|entry: (Seq<char>, Seq<char>)| (entry.0, chars::lower_case(entry.0)))
}

/// The names that are suggested for what was typed.
pub open spec fn suggested_names(
    entries: Seq<(Seq<char>, Seq<char>)>,
    partial: Seq<char>,
) -> Seq<Seq<char>> {
    selected_names(
        lowered_names(entries),
        chars::lower_case(chars::trimmed(Edge::Space, partial)),
    )
}

/// The names that are suggested for what was typed, in small letters, given each name with the name
/// in small letters.
pub fn suggest_names(names: &Vec<(String, String)>, needle: &str) -> (out: Vec<String>)
    ensures
        chars::views(out@) == selected_names(table::pairs(names@), needle@),
{
    let ghost said = table::pairs(names@);
    let mut out: Vec<String> = Vec::new();
    let mut i: usize = 0;
    assert(chars::views(out@) =~= Seq::<Seq<char>>::empty());
    while i < names.len()
        invariant
            i <= names@.len(),
            said == table::pairs(names@),
            chars::views(out@) == names_with(said.take(i as int), needle@),
        decreases names@.len() - i,
    {
        proof {
            assert(said.take(i + 1).drop_last() == said.take(i as int));
            assert(said.take(i + 1).last() == said[i as int]);
        }
        if needle.is_empty() || chars::contains(names[i].1.as_str(), needle) {
            let ghost before = out@;
            let name = names[i].0.clone();
            out.push(name);
            assert(chars::views(out@) =~= chars::views(before).push(name@));
        }
        i = i + 1;
    }
    assert(said.take(i as int) == said);
    let ghost all = out@;
    if out.len() > AUTOCOMPLETE_LIMIT {
        out.truncate(AUTOCOMPLETE_LIMIT);
        assert(chars::views(out@) =~= chars::views(all).take(AUTOCOMPLETE_LIMIT as int));
    }
    out
}

/// The names of a guild that are suggested for what was typed.
pub fn autocomplete_playlist_name(db: &Db, guild_id: u64, partial: &str) -> (out: Vec<String>)
    requires
        db.well_formed(),
    ensures
        chars::views(out@) == suggested_names(db.favourites(guild_id), partial@),
{
    let entries = db.playlist(guild_id);
    let ghost said = table::pairs(entries@);
    let bare = chars::trim_text(Edge::Space, partial);
    let needle = bare.as_str().to_lowercase();
    let mut names: Vec<(String, String)> = Vec::new();
    let mut i: usize = 0;
    while i < entries.len()
        invariant
            i <= entries@.len(),
            said == table::pairs(entries@),
            names@.len() == i,
            forall|j: int|
                0 <= j < i ==> #[trigger] table::pairs(names@)[j] == lowered_names(said)[j],
        decreases entries@.len() - i,
    {
        let name = entries[i].0.clone();
        let lower = name.as_str().to_lowercase();
        let ghost before = names@;
        names.push((name, lower));
        proof {
            assert(table::pairs(names@) =~= table::pairs(before).push((name@, lower@)));
            assert(said[i as int].0 == name@);
        }
        i = i + 1;
    }
    assert(table::pairs(names@) =~= lowered_names(said));
    suggest_names(&names, needle.as_str())
}

/// The names that hold what was typed are suggested and no others, in their order, as many as Discord
/// shows.
pub proof fn names_that_hold_it_are_suggested(
    names: Seq<(Seq<char>, Seq<char>)>,
    name: (Seq<char>, Seq<char>),
    needle: Seq<char>,
)
    ensures
        names_with(Seq::empty(), needle) == Seq::<Seq<char>>::empty(),
        needle.len() == 0 || chars::occurs(name.1, needle) ==> names_with(names.push(name), needle)
            == names_with(names, needle).push(name.0),
        needle.len() > 0 && !chars::occurs(name.1, needle) ==> names_with(names.push(name), needle)
            == names_with(names, needle),
        names_with(names, needle).len() <= 25 ==> selected_names(names, needle) == names_with(
            names,
            needle,
        ),
        names_with(names, needle).len() > 25 ==> selected_names(names, needle) == names_with(
            names,
            needle,
        ).take(25),
{
    assert(names.push(name).drop_last() =~= names);
}

/// Blanks around what was typed change no suggestion. A name is suggested if it holds what was typed,
/// both in small letters, as long as Discord can show all that do; no other name is.
pub proof fn a_name_is_found_by_its_letters(
    entries: Seq<(Seq<char>, Seq<char>)>,
    entry: (Seq<char>, Seq<char>),
    partial: Seq<char>,
    other: Seq<char>,
)
    requires
        chars::trimmed(Edge::Space, partial) == chars::trimmed(Edge::Space, other),
    ensures
        suggested_names(entries, partial) == suggested_names(entries, other),
        ({
            let needle = chars::lower_case(chars::trimmed(Edge::Space, partial));
            let before = suggested_names(entries, partial);
            suggested_names(entries.push(entry), partial) == if before.len() < 25 && (needle.len()
                == 0 || chars::occurs(chars::lower_case(entry.0), needle)) {
                before.push(entry.0)
            } else {
                before
            }
        }),
{
    let needle = chars::lower_case(chars::trimmed(Edge::Space, partial));
    let names = lowered_names(entries);
    let name = (entry.0, chars::lower_case(entry.0));
    assert(lowered_names(entries.push(entry)) =~= names.push(name));
    names_that_hold_it_are_suggested(names, name, needle);
    names_that_hold_it_are_suggested(names.push(name), name, needle);
    assert(suggested_names(entries.push(entry), partial) =~= if suggested_names(
        entries,
        partial,
    ).len() < 25 && (needle.len() == 0 || chars::occurs(name.1, needle)) {
        suggested_names(entries, partial).push(entry.0)
    } else {
        suggested_names(entries, partial)
    });
}

} // verus!
