//! The dictionary of a guild: spellings with their readings.

use vstd::prelude::*;

use crate::chars;
use crate::chars::Edge;
use crate::commands::listing;
use crate::commands::reply;
use crate::commands::reply::Reply;
use crate::commands::reply::ReplyModel;
use crate::db::Db;
use crate::db::DbModel;
use crate::table;

verus! {

/// Puts down the reading of a spelling.
pub fn add(db: &mut Db, guild_id: u64, surface: &str, reading: &str) -> (out: Reply)
    requires
        old(db).well_formed(),
    ensures
        final(db).well_formed(),
        ({
            let spelling = chars::trimmed(Edge::Space, surface@);
            let spoken = chars::trimmed(Edge::Space, reading@);
            if spelling.len() == 0 || spoken.len() == 0 {
                &&& *final(db) == *old(db)
                &&& out@ == ReplyModel::Text("表記と読みの両方を指定してください。"@)
            } else {
                &&& final(db)@ == (DbModel {
                    dictionary: old(db)@.dictionary.insert((guild_id, spelling), spoken),
                    ..old(db)@
                })
                &&& out@ == ReplyModel::Text(
                    "辞書に登録しました: **"@ + spelling + "** → **"@ + spoken + "**"@,
                )
            }
        }),
{
    let spelling = chars::trim_text(Edge::Space, surface);
    let spoken = chars::trim_text(Edge::Space, reading);
    if spelling.as_str().is_empty() || spoken.as_str().is_empty() {
        return reply::say("表記と読みの両方を指定してください。");
    }
    db.add_dictionary_entry(guild_id, spelling.as_str(), spoken.as_str());
    Reply::Text(
        "辞書に登録しました: **".to_owned().concat(spelling.as_str()).concat("** → **").concat(
            spoken.as_str(),
        ).concat("**"),
    )
}

/// Lists the spellings of a guild with their readings.
pub fn list(db: &Db, guild_id: u64) -> (out: Reply)
    requires
        db.well_formed(),
    ensures
        out@ == ReplyModel::Text(
            if db.dictionary_list(guild_id).len() == 0 {
                "辞書は空です。"@
            } else {
                "**サーバー辞書**\n"@ + listing::listed(db.dictionary_list(guild_id), "・"@, " → "@)
            },
        ),
{
    let entries = db.dictionary(guild_id);
    assert(table::pairs(entries@).len() == entries@.len());
    if entries.len() == 0 {
        return reply::say("辞書は空です。");
    }
    let body = listing::list_entries(&entries, "・", " → ");
    Reply::Text("**サーバー辞書**\n".to_owned().concat(body.as_str()))
}

/// Forgets the reading of a spelling.
pub fn remove(db: &mut Db, guild_id: u64, surface: &str) -> (out: Reply)
    requires
        old(db).well_formed(),
    ensures
        final(db).well_formed(),
        ({
            let spelling = chars::trimmed(Edge::Space, surface@);
            &&& final(db)@ == (DbModel {
                dictionary: old(db)@.dictionary.remove((guild_id, spelling)),
                ..old(db)@
            })
            &&& out@ == ReplyModel::Text(
                if old(db)@.dictionary.contains_key((guild_id, spelling)) {
                    "削除しました: **"@ + spelling + "**"@
                } else {
                    "**"@ + spelling + "** は登録されていません。"@
                },
            )
        }),
{
    let spelling = chars::trim_text(Edge::Space, surface);
    if db.remove_dictionary_entry(guild_id, spelling.as_str()) {
        Reply::Text("削除しました: **".to_owned().concat(spelling.as_str()).concat("**"))
    } else {
        Reply::Text("**".to_owned().concat(spelling.as_str()).concat("** は登録されていません。"))
    }
}

} // verus!
