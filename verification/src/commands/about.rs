//! Credits.

use vstd::prelude::*;

use crate::commands::reply;
use crate::commands::reply::FieldModel;
use crate::commands::reply::Reply;
use crate::commands::reply::ReplyModel;
use crate::commands::settings;
use crate::commands::settings::StyleChoice;
use crate::db::Db;

verus! {

/// What is told of the bot to someone whose voice goes by a name.
pub open spec fn credits(style: Seq<char>) -> ReplyModel {
    ReplyModel::Embed {
        title: "yomiage-bot"@,
        description: Some("Discord のテキストチャンネルを読み上げる Bot"@),
        fields: seq![
            FieldModel {
                name: "音声合成"@,
                value: "**VOICEVOX**\n<https://voicevox.hiroshiba.jp/>"@,
                inline: false,
            },
            FieldModel { name: "あなたが使用中の音声ライブラリ"@, value: style, inline: true },
            FieldModel {
                name: "クレジット表記について"@,
                value:
                    "生成された音声を公開・配布する場合は、**「VOICEVOX:（キャラクター名）」**のクレジット表記と、各キャラクターの利用規約の確認が必要です。\n<https://voicevox.hiroshiba.jp/term/>"@,
                inline: false,
            },
            FieldModel {
                name: "ソース"@,
                value: "<https://github.com/okonomiyak/yomiage>"@,
                inline: false,
            },
        ],
    }
}

/// What stands for the name of a voice that could not be read.
pub const VOICE_UNKNOWN: &'static str = "（取得できませんでした）";

/// Tells what the bot is to someone whose voice goes by a name.
fn tell(style: String) -> (out: Reply)
    ensures
        out@ == credits(style@),
{
    let engine = reply::field(
        "音声合成",
        "**VOICEVOX**\n<https://voicevox.hiroshiba.jp/>".to_owned(),
        false,
    );
    let library = reply::field("あなたが使用中の音声ライブラリ", style, true);
    let terms = reply::field(
        "クレジット表記について",
        "生成された音声を公開・配布する場合は、**「VOICEVOX:（キャラクター名）」**のクレジット表記と、各キャラクターの利用規約の確認が必要です。\n<https://voicevox.hiroshiba.jp/term/>".to_owned(),
        false,
    );
    let source = reply::field(
        "ソース",
        "<https://github.com/okonomiyak/yomiage>".to_owned(),
        false,
    );
    let fields = vec![engine, library, terms, source];
    assert(reply::field_views(fields@) =~= seq![engine@, library@, terms@, source@]);
    reply::board(
        "yomiage-bot",
        Some("Discord のテキストチャンネルを読み上げる Bot".to_owned()),
        fields,
    )
}

/// Tells a user what the bot is and whose voice it lends them. The terms of use differ from
/// character to character.
pub fn about(db: &Db, user_id: u64, styles: &Vec<StyleChoice>) -> (out: Reply)
    requires
        db.well_formed(),
    ensures
        out@ == credits(
            settings::label_of(
                settings::choice_views(styles@),
                db@.voice_of(user_id).style.0,
            ),
        ),
{
    let voice = db.voice(user_id);
    tell(settings::style_label(styles, voice.style.0))
}

/// Tells a user whose voice could not be read what the bot is. The credits are owed all the same.
pub fn about_without_voice() -> (out: Reply)
    ensures
        out@ == credits("（取得できませんでした）"@),
{
    tell(VOICE_UNKNOWN.to_owned())
}

} // verus!
