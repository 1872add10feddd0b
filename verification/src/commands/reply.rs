//! Answers to commands.

use vstd::prelude::*;

use crate::chars;
use crate::music;
use crate::music::QueuedTrack;

verus! {

/// A part of an embed.
#[derive(Debug)]
pub struct EmbedField {
    pub name: String,
    pub value: String,
    pub inline: bool,
}

/// A framed answer.
#[derive(Debug)]
pub struct Embed {
    pub title: String,
    pub description: Option<String>,
    pub fields: Vec<EmbedField>,
}

/// An answer.
#[derive(Debug)]
pub enum Reply {
    Text(String),
    Embed(Embed),
}

/// The mathematical counterpart of [`EmbedField`].
pub struct FieldModel {
    pub name: Seq<char>,
    pub value: Seq<char>,
    pub inline: bool,
}

/// The mathematical counterpart of [`Reply`].
pub enum ReplyModel {
    Text(Seq<char>),
    Embed { title: Seq<char>, description: Option<Seq<char>>, fields: Seq<FieldModel> },
}

impl View for EmbedField {
    type V = FieldModel;

    open spec fn view(&self) -> FieldModel {
        FieldModel { name: self.name@, value: self.value@, inline: self.inline }
    }
}

/// The mathematical counterparts of fields.
pub open spec fn field_views(fields: Seq<EmbedField>) -> Seq<FieldModel> {
    fields.map_values(|field: EmbedField| field@)
}

impl View for Reply {
    type V = ReplyModel;

    open spec fn view(&self) -> ReplyModel {
        match self {
            Reply::Text(text) => ReplyModel::Text(text@),
            Reply::Embed(embed) => ReplyModel::Embed {
                title: embed.title@,
                description: match embed.description {
                    Some(description) => Some(description@),
                    None => None,
                },
                fields: field_views(embed.fields@),
            },
        }
    }
}

/// An answer in plain text.
pub fn say(text: &str) -> (out: Reply)
    ensures
        out@ == ReplyModel::Text(text@),
{
    Reply::Text(text.to_owned())
}

/// A part of an embed.
pub fn field(name: &str, value: String, inline: bool) -> (out: EmbedField)
    ensures
        out@ == (FieldModel { name: name@, value: value@, inline }),
{
    EmbedField { name: name.to_owned(), value, inline }
}

/// A framed answer with a description and at most one field.
pub fn framed(title: &str, description: String, extra: Option<EmbedField>) -> (out: Reply)
    ensures
        out@ == (ReplyModel::Embed {
            title: title@,
            description: Some(description@),
            fields: match extra {
                Some(extra) => seq![extra@],
                None => Seq::empty(),
            },
        }),
{
    let mut fields: Vec<EmbedField> = Vec::new();
    let ghost mut shown: Seq<FieldModel> = Seq::empty();
    if let Some(extra) = extra {
        proof {
            shown = seq![extra@];
        }
        fields.push(extra);
    }
    assert(field_views(fields@) =~= shown);
    board(title, Some(description), fields)
}

/// A framed answer with fields.
pub fn board(title: &str, description: Option<String>, fields: Vec<EmbedField>) -> (out: Reply)
    ensures
        out@ == (ReplyModel::Embed {
            title: title@,
            description: match description {
                Some(description) => Some(description@),
                None => None,
            },
            fields: field_views(fields@),
        }),
{
    Reply::Embed(Embed { title: title.to_owned(), description, fields })
}

/// The tracks of a queue as they are listed.
pub open spec fn track_views(tracks: Seq<QueuedTrack>) -> Seq<music::TrackModel> {
    tracks.map_values(|track: QueuedTrack| track@)
}

/// The lines of the first so many tracks that wait. The first track of a queue plays and has the
/// number 1.
pub open spec fn waiting_lines(tracks: Seq<music::TrackModel>, count: nat) -> Seq<char>
    decreases count,
{
    if count == 0 {
        Seq::empty()
    } else {
        waiting_lines(tracks, (count - 1) as nat) + "\n"@ + chars::decimal(count + 1) + ". "@
            + music::linked(tracks[count as int])
    }
}

/// The tracks of a queue that wait: so many of them in a line each, and how many more there are.
pub open spec fn waiting(tracks: Seq<music::TrackModel>, limit: nat) -> Seq<char> {
    let count = if tracks.len() == 0 {
        0
    } else {
        (tracks.len() - 1) as nat
    };
    if count > limit {
        waiting_lines(tracks, limit) + "\n…ほか "@ + chars::decimal((count - limit) as nat) + " 件"@
    } else {
        waiting_lines(tracks, count)
    }
}

/// Lists the tracks of a queue that wait.
pub fn list_waiting(tracks: &Vec<QueuedTrack>, limit: usize) -> (out: String)
    ensures
        out@ == waiting(track_views(tracks@), limit as nat),
{
    let ghost models = track_views(tracks@);
    let total: usize = tracks.len();
    let count: usize = if total == 0 {
        0
    } else {
        total - 1
    };
    let shown: usize = if count > limit {
        limit
    } else {
        count
    };
    let mut out = String::new();
    let mut i: usize = 0;
    while i < shown
        invariant
            i <= shown,
            shown == 0 || shown < total,
            total == tracks@.len(),
            models == track_views(tracks@),
            out@ == waiting_lines(models, i as nat),
        decreases shown - i,
    {
        i = i + 1;
        let link = tracks[i].link();
        let number = chars::decimal_text(i as u64 + 1);
        assert(models[i as int] == tracks@[i as int]@);
        out.append("\n");
        out.append(number.as_str());
        out.append(". ");
        out.append(link.as_str());
    }
    if count > limit {
        let more = chars::decimal_text((count - limit) as u64);
        out.append("\n…ほか ");
        out.append(more.as_str());
        out.append(" 件");
    }
    out
}

/// The track that plays is not listed as waiting; every other is, in its own line and with the number
/// of its place, up to a limit. Beyond it only the number of the rest is told.
pub proof fn what_waits_is_listed(
    tracks: Seq<music::TrackModel>,
    track: music::TrackModel,
    limit: nat,
)
    ensures
        tracks.len() <= 1 ==> waiting(tracks, limit) == Seq::<char>::empty(),
        1 <= tracks.len() <= limit ==> waiting(tracks.push(track), limit) == waiting(tracks, limit)
            + "\n"@ + chars::decimal(tracks.len() + 1) + ". "@ + music::linked(track),
        tracks.len() > limit + 1 ==> waiting(tracks, limit) == waiting(
            tracks.take(limit as int + 1),
            limit,
        ) + "\n…ほか "@ + chars::decimal((tracks.len() - 1 - limit) as nat) + " 件"@,
{
    if 1 <= tracks.len() <= limit {
        lemma_waiting_lines(tracks.push(track), tracks, (tracks.len() - 1) as nat);
    }
    if tracks.len() > limit + 1 {
        lemma_waiting_lines(tracks, tracks.take(limit as int + 1), limit);
    }
}

/// The lines of the first tracks do not depend on the rest.
proof fn lemma_waiting_lines(
    a: Seq<music::TrackModel>,
    b: Seq<music::TrackModel>,
    count: nat,
)
    requires
        forall|i: int| 0 <= i <= count ==> #[trigger] a[i] == b[i],
    ensures
        waiting_lines(a, count) == waiting_lines(b, count),
    decreases count,
{
    if count > 0 {
        lemma_waiting_lines(a, b, (count - 1) as nat);
        assert(a[count as int] == b[count as int]);
    }
}

} // verus!
