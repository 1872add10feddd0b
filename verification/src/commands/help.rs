//! How to use the music bot.

use vstd::prelude::*;

use crate::commands::reply;
use crate::commands::reply::FieldModel;
use crate::commands::reply::Reply;
use crate::commands::reply::ReplyModel;

verus! {

/// What is told of the commands.
pub const COMMANDS: &'static str =
    "`/join` … 参加中の VC に接続する / `/leave` … 切断してキューを空にする\n`/play <URL または検索語>` … キューに積む。空いていればすぐ流す\n　（YouTube とニコニコ動画の URL に対応。検索語のときは YouTube から探す）\n　（YouTube の再生リスト・ニコニコのマイリスト/シリーズの URL は、まとめて最大 50 曲キューに積む）\n`/queue` … 再生中と待機中を見る\n`/next` … 次の曲へ / `/stop` … 止めてキューを空にする\n`/volume <0-100>` … 音量（サーバー単位）\n`/dashboard` … シークバー付きの操作パネルを出す。⏪ ⏩ で 10 秒／60 秒ずつ動かせる\n　（バーは 5 秒ごとに自動で進む。しばらく何も流れないと止まるが、ボタンを押せば再開する）\n`/playlist add <名前> <URL>` … よく聴く URL を名前で登録（サーバー共有）\n`/playlist list` / `/playlist remove` … お気に入りの確認・削除\n　（登録した名前は `/play <名前>` でそのまま呼び出せる）\n`/feature <有効/無効>` … 音楽機能を on/off";

/// What is good to know.
pub const HINTS: &'static str =
    "・VC から全員いなくなると自動で退出する\n・Bot を再起動すると VC から抜けるので `/join` からやり直す\n・読み上げ Bot とは別の Bot なので、読み上げの設定は読み上げ Bot 側の `/help` を見る";

/// Tells how to use the music bot.
pub fn help() -> (out: Reply)
    ensures
        out@ == (ReplyModel::Embed {
            title: "使い方"@,
            description: None,
            fields: seq![
                FieldModel { name: "音楽"@, value: COMMANDS@, inline: false },
                FieldModel { name: "覚えておくと楽なこと"@, value: HINTS@, inline: false },
            ],
        }),
{
    let commands = reply::field("音楽", COMMANDS.to_owned(), false);
    let hints = reply::field("覚えておくと楽なこと", HINTS.to_owned(), false);
    let fields = vec![commands, hints];
    assert(reply::field_views(fields@) =~= seq![commands@, hints@]);
    reply::board("使い方", None, fields)
}

} // verus!
