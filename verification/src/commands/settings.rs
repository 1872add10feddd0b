//! Settings of users, which hold in all guilds, and of guilds.

use vstd::prelude::*;

use crate::chars;
use crate::chars::Edge;
use crate::commands::reply;
use crate::commands::reply::Reply;
use crate::commands::reply::ReplyModel;
use crate::db::Db;
use crate::db::SettingsModel;
use crate::markup_laws;
use crate::scale;
use crate::scale::Scale;
use crate::text;
use crate::voicevox;
use crate::voicevox::Speaker;
use crate::voicevox::StyleId;
use crate::voicevox::Voice;

verus! {

/// How many suggestions Discord shows.
pub const AUTOCOMPLETE_LIMIT: usize = 25;

/// The most characters of a message that a guild can have read.
pub const MAX_LENGTH_LIMIT: u32 = 500;

/// A length from which on the reading is slow to start.
pub const SLOW_LENGTH: u32 = 200;

/// What is said to someone outside of a guild.
pub const NOT_IN_GUILD: &'static str = "サーバー内で実行してください。";

/// What is said of a style that the engine does not have.
pub const UNKNOWN_STYLE: &'static str =
    "その話者は見つかりませんでした。候補から選んでください。";

/// A style that can be chosen.
#[derive(Debug)]
pub struct StyleChoice {
    pub label: String,
    pub id: u32,
}

/// The mathematical counterpart of [`StyleChoice`].
pub struct ChoiceModel {
    pub label: Seq<char>,
    pub id: u32,
}

impl View for StyleChoice {
    type V = ChoiceModel;

    open spec fn view(&self) -> ChoiceModel {
        ChoiceModel { label: self.label@, id: self.id }
    }
}

impl Clone for StyleChoice {
    fn clone(&self) -> (out: StyleChoice)
        ensures
            out@ == self@,
    {
        StyleChoice { label: self.label.clone(), id: self.id }
    }
}

/// The mathematical counterparts of choices.
pub open spec fn choice_views(styles: Seq<StyleChoice>) -> Seq<ChoiceModel> {
    styles.map_values(|choice: StyleChoice| choice@)
}

/// The choices that a character's first so many styles make.
pub open spec fn choices_of(speaker: Speaker, count: nat) -> Seq<ChoiceModel>
    decreases count,
{
    if count == 0 {
        Seq::empty()
    } else {
        let style = speaker.styles@[count - 1];
        choices_of(speaker, (count - 1) as nat).push(
            ChoiceModel { label: speaker.name@ + "（"@ + style.name@ + "）"@, id: style.id },
        )
    }
}

/// The choices that characters make, in their order.
pub open spec fn all_choices(speakers: Seq<Speaker>) -> Seq<ChoiceModel>
    decreases speakers.len(),
{
    if speakers.len() == 0 {
        Seq::empty()
    } else {
        all_choices(speakers.drop_last()) + choices_of(
            speakers.last(),
            speakers.last().styles@.len(),
        )
    }
}

/// The choices that the engine's characters make.
pub fn style_choices(speakers: &Vec<Speaker>) -> (out: Vec<StyleChoice>)
    ensures
        choice_views(out@) == all_choices(speakers@),
{
    let mut out: Vec<StyleChoice> = Vec::new();
    let mut i: usize = 0;
    assert(choice_views(out@) =~= Seq::<ChoiceModel>::empty());
    while i < speakers.len()
        invariant
            i <= speakers@.len(),
            choice_views(out@) == all_choices(speakers@.take(i as int)),
        decreases speakers@.len() - i,
    {
        let speaker = &speakers[i];
        let ghost before = choice_views(out@);
        let mut j: usize = 0;
        assert(before + choices_of(*speaker, 0) =~= before);
        while j < speaker.styles.len()
            invariant
                j <= speaker.styles@.len(),
                choice_views(out@) == before + choices_of(*speaker, j as nat),
            decreases speaker.styles@.len() - j,
        {
            let style = &speaker.styles[j];
            let label = speaker.name.clone().concat("（").concat(style.name.as_str()).concat("）");
            let ghost so_far = out@;
            let choice = StyleChoice { label, id: style.id };
            out.push(choice);
            j = j + 1;
            assert(choice_views(out@) =~= choice_views(so_far).push(choice@));
            assert(choice_views(out@) =~= before + choices_of(*speaker, j as nat));
        }
        proof {
            assert(speakers@.take(i + 1).drop_last() == speakers@.take(i as int));
            assert(speakers@.take(i + 1).last() == speakers@[i as int]);
        }
        i = i + 1;
    }
    assert(speakers@.take(i as int) == speakers@);
    out
}

/// A choice with its label in small letters.
#[derive(Debug)]
pub struct Candidate {
    pub lowered: String,
    pub choice: StyleChoice,
}

/// The mathematical counterpart of [`Candidate`].
pub struct CandidateModel {
    pub lowered: Seq<char>,
    pub choice: ChoiceModel,
}

impl View for Candidate {
    type V = CandidateModel;

    open spec fn view(&self) -> CandidateModel {
        CandidateModel { lowered: self.lowered@, choice: self.choice@ }
    }
}

/// The mathematical counterparts of candidates.
pub open spec fn candidate_views(candidates: Seq<Candidate>) -> Seq<CandidateModel> {
    candidates.map_values(|candidate: Candidate| candidate@)
}

/// The choices that candidates stand for.
pub open spec fn choices(candidates: Seq<CandidateModel>) -> Seq<ChoiceModel> {
    candidates.map_values(|candidate: CandidateModel| candidate.choice)
}

/// Whether a candidate fits what was typed: its label holds it, in small or capital letters, or its
/// number begins with it.
pub open spec fn fits(candidate: CandidateModel, needle: Seq<char>) -> bool {
    ||| needle.len() == 0
    ||| chars::occurs(candidate.lowered, needle)
    ||| chars::begins(chars::decimal(candidate.choice.id as nat), needle)
}

/// Whether the label of a candidate begins with what was typed.
pub open spec fn leads(candidate: CandidateModel, needle: Seq<char>) -> bool {
    chars::begins(candidate.lowered, needle)
}

/// The candidates that fit and whose label begins with what was typed, or does not.
pub open spec fn fitting(candidates: Seq<CandidateModel>, needle: Seq<char>, leading: bool) -> Seq<
    CandidateModel,
>
    decreases candidates.len(),
{
    if candidates.len() == 0 {
        Seq::empty()
    } else {
        let before = fitting(candidates.drop_last(), needle, leading);
        let last = candidates.last();
        if fits(last, needle) && leads(last, needle) == leading {
            before.push(last)
        } else {
            before
        }
    }
}

/// At most so many of the first of a sequence.
pub open spec fn at_most<T>(s: Seq<T>, limit: nat) -> Seq<T> {
    if s.len() > limit {
        s.take(limit as int)
    } else {
        s
    }
}

/// The candidates that are suggested. Labels that begin with what was typed come first, so that
/// they are not cut off.
pub open spec fn selected(candidates: Seq<CandidateModel>, needle: Seq<char>) -> Seq<
    CandidateModel,
> {
    at_most(
        fitting(candidates, needle, true) + fitting(candidates, needle, false),
        AUTOCOMPLETE_LIMIT as nat,
    )
}

/// The candidates that choices make.
pub open spec fn lowered(styles: Seq<ChoiceModel>) -> Seq<CandidateModel> {
    styles.map_values(
        |choice: ChoiceModel|
            CandidateModel { lowered: chars::lower_case(choice.label), choice },
    )
}

/// What is suggested for what was typed.
pub open spec fn suggested(styles: Seq<ChoiceModel>, partial: Seq<char>) -> Seq<ChoiceModel> {
    choices(
        selected(lowered(styles), chars::lower_case(chars::trimmed(Edge::Space, partial))),
    )
}

/// The candidates of one kind all fit and are of the kind.
proof fn lemma_fitting(candidates: Seq<CandidateModel>, needle: Seq<char>, leading: bool)
    ensures
        forall|i: int|
            0 <= i < fitting(candidates, needle, leading).len() ==> fits(
                #[trigger] fitting(candidates, needle, leading)[i],
                needle,
            ) && leads(fitting(candidates, needle, leading)[i], needle) == leading,
    decreases candidates.len(),
{
    if candidates.len() > 0 {
        let before = fitting(candidates.drop_last(), needle, leading);
        let all = fitting(candidates, needle, leading);
        lemma_fitting(candidates.drop_last(), needle, leading);
        assert forall|i: int| 0 <= i < all.len() implies fits(#[trigger] all[i], needle) && leads(
            all[i],
            needle,
        ) == leading by {
            if i < before.len() {
                assert(all[i] == before[i]);
            }
        }
    }
}

/// Discord is never given more suggestions than it takes, each of them fits what was typed, and
/// none whose label begins with it stands behind one whose label does not.
pub proof fn suggestions_fit(candidates: Seq<CandidateModel>, needle: Seq<char>)
    ensures
        selected(candidates, needle).len() <= AUTOCOMPLETE_LIMIT,
        forall|i: int|
            0 <= i < selected(candidates, needle).len() ==> fits(
                #[trigger] selected(candidates, needle)[i],
                needle,
            ),
        forall|i: int, j: int|
            0 <= i <= j < selected(candidates, needle).len() && leads(
                #[trigger] selected(candidates, needle)[j],
                needle,
            ) ==> leads(#[trigger] selected(candidates, needle)[i], needle),
{
    let first = fitting(candidates, needle, true);
    let rest = fitting(candidates, needle, false);
    let out = selected(candidates, needle);
    lemma_fitting(candidates, needle, true);
    lemma_fitting(candidates, needle, false);
    assert forall|i: int| 0 <= i < out.len() implies fits(#[trigger] out[i], needle) && (leads(
        out[i],
        needle,
    ) <==> i < first.len()) by {
        if i < first.len() {
            assert(out[i] == first[i]);
        } else {
            assert(out[i] == rest[i - first.len()]);
        }
    }
}

/// Adds the choices of the candidates that fit.
fn add_fitting(
    out: &mut Vec<StyleChoice>,
    candidates: &Vec<Candidate>,
    needle: &str,
    leading: bool,
)
    ensures
        choice_views(final(out)@) == choice_views(old(out)@) + choices(
            fitting(candidate_views(candidates@), needle@, leading),
        ),
{
    let ghost models = candidate_views(candidates@);
    let ghost before = choice_views(out@);
    let mut i: usize = 0;
    assert(before + choices(fitting(models.take(0), needle@, leading)) =~= before);
    while i < candidates.len()
        invariant
            i <= candidates@.len(),
            models == candidate_views(candidates@),
            choice_views(out@) == before + choices(
                fitting(models.take(i as int), needle@, leading),
            ),
        decreases candidates@.len() - i,
    {
        let candidate = &candidates[i];
        let label = candidate.lowered.as_str();
        let number = chars::decimal_text(candidate.choice.id as u64);
        let fit = needle.is_empty() || chars::contains(label, needle) || chars::starts_with(
            number.as_str(),
            needle,
        );
        let lead = chars::starts_with(label, needle);
        proof {
            assert(models.take(i + 1).drop_last() == models.take(i as int));
            assert(models.take(i + 1).last() == candidate@);
        }
        let ghost so_far = out@;
        if fit && lead == leading {
            let copy = candidate.choice.clone();
            out.push(copy);
            assert(choice_views(out@) =~= choice_views(so_far).push(copy@));
            assert(choice_views(out@) =~= before + choices(
                fitting(models.take(i + 1), needle@, leading),
            ));
        }
        i = i + 1;
    }
    assert(models.take(i as int) == models);
}

/// The choices that are suggested for what was typed, in small letters.
pub fn suggest(candidates: &Vec<Candidate>, needle: &str) -> (out: Vec<StyleChoice>)
    ensures
        choice_views(out@) == choices(selected(candidate_views(candidates@), needle@)),
{
    let mut out: Vec<StyleChoice> = Vec::new();
    assert(choice_views(out@) =~= Seq::<ChoiceModel>::empty());
    add_fitting(&mut out, candidates, needle, true);
    add_fitting(&mut out, candidates, needle, false);
    let ghost all = out@;
    let ghost found = fitting(candidate_views(candidates@), needle@, true);
    let ghost others = fitting(candidate_views(candidates@), needle@, false);
    assert(choice_views(all) =~= choices(found + others));
    if out.len() > AUTOCOMPLETE_LIMIT {
        out.truncate(AUTOCOMPLETE_LIMIT);
        assert(choice_views(out@) =~= choice_views(all).take(AUTOCOMPLETE_LIMIT as int));
        assert(choices((found + others).take(AUTOCOMPLETE_LIMIT as int)) =~= choices(
            found + others,
        ).take(AUTOCOMPLETE_LIMIT as int));
    }
    out
}

/// What is suggested for what was typed. The number of a style is understood as well, as a name may
/// still be in the making.
pub fn autocomplete_style(styles: &Vec<StyleChoice>, partial: &str) -> (out: Vec<StyleChoice>)
    ensures
        choice_views(out@) == suggested(choice_views(styles@), partial@),
{
    let bare = chars::trim_text(Edge::Space, partial);
    let needle = bare.as_str().to_lowercase();
    let mut candidates: Vec<Candidate> = Vec::new();
    let mut i: usize = 0;
    while i < styles.len()
        invariant
            i <= styles@.len(),
            candidates@.len() == i,
            forall|j: int|
                0 <= j < i ==> (#[trigger] candidates@[j])@ == lowered(choice_views(styles@))[j],
        decreases styles@.len() - i,
    {
        let label = styles[i].label.as_str().to_lowercase();
        candidates.push(Candidate { lowered: label, choice: styles[i].clone() });
        i = i + 1;
    }
    assert(candidate_views(candidates@) =~= lowered(choice_views(styles@)));
    suggest(&candidates, needle.as_str())
}

/// What a style is called: the label of the first choice with its number, or the number.
pub open spec fn label_of(styles: Seq<ChoiceModel>, id: u32) -> Seq<char>
    decreases styles.len(),
{
    if styles.len() == 0 {
        "ID "@ + chars::decimal(id as nat)
    } else if styles[0].id == id {
        styles[0].label
    } else {
        label_of(styles.skip(1), id)
    }
}

/// What a style is called.
pub fn style_label(styles: &Vec<StyleChoice>, id: u32) -> (out: String)
    ensures
        out@ == label_of(choice_views(styles@), id),
{
    let ghost models = choice_views(styles@);
    let mut i: usize = 0;
    assert(models.skip(0) == models);
    while i < styles.len()
        invariant
            i <= styles@.len(),
            models == choice_views(styles@),
            label_of(models.skip(i as int), id) == label_of(models, id),
        decreases styles@.len() - i,
    {
        proof {
            assert(models.skip(i as int).skip(1) == models.skip(i + 1));
            assert(models.skip(i as int)[0] == styles@[i as int]@);
        }
        if styles[i].id == id {
            return styles[i].label.clone();
        }
        i = i + 1;
    }
    let number = chars::decimal_text(id as u64);
    "ID ".to_owned().concat(number.as_str())
}

/// Whether a style can be chosen. While the choices are not known, any can.
pub open spec fn can_choose(styles: Seq<ChoiceModel>, id: u32) -> bool {
    styles.len() == 0 || exists|i: int| 0 <= i < styles.len() && (#[trigger] styles[i]).id == id
}

/// Whether a style can be chosen.
pub fn is_choosable(styles: &Vec<StyleChoice>, id: u32) -> (out: bool)
    ensures
        out == can_choose(choice_views(styles@), id),
{
    let ghost models = choice_views(styles@);
    let mut i: usize = 0;
    while i < styles.len()
        invariant
            i <= styles@.len(),
            models == choice_views(styles@),
            forall|j: int| 0 <= j < i ==> (#[trigger] models[j]).id != id,
        decreases styles@.len() - i,
    {
        assert(models[i as int] == styles@[i as int]@);
        if styles[i].id == id {
            return true;
        }
        i = i + 1;
    }
    styles.len() == 0
}

/// Sets the style of a user.
pub fn voice(db: &mut Db, user_id: u64, styles: &Vec<StyleChoice>, speaker: u32) -> (out: Reply)
    requires
        old(db).well_formed(),
    ensures
        final(db).well_formed(),
        ({
            let models = choice_views(styles@);
            if can_choose(models, speaker) {
                &&& final(db)@ == old(db)@.with_voice(
                    user_id,
                    Voice { style: StyleId(speaker), ..old(db)@.voice_of(user_id) },
                )
                &&& out@ == ReplyModel::Text(
                    "話者を **"@ + label_of(models, speaker) + "** にしました。"@,
                )
            } else {
                *final(db) == *old(db) && out@ == ReplyModel::Text(UNKNOWN_STYLE@)
            }
        }),
{
    if !is_choosable(styles, speaker) {
        return reply::say(UNKNOWN_STYLE);
    }
    db.set_style(user_id, StyleId(speaker));
    let label = style_label(styles, speaker);
    Reply::Text("話者を **".to_owned().concat(label.as_str()).concat("** にしました。"))
}

/// Sets the speed of a user's voice, given how the number is shown.
pub fn speed(db: &mut Db, user_id: u64, value: Scale, shown: &str) -> (out: Reply)
    requires
        old(db).well_formed(),
    ensures
        final(db).well_formed(),
        if value.between(voicevox::MIN_SPEED, voicevox::MAX_SPEED) {
            &&& final(db)@ == old(db)@.with_voice(
                user_id,
                Voice { speed: value, ..old(db)@.voice_of(user_id) },
            )
            &&& out@ == ReplyModel::Text("速さを "@ + shown@ + " にしました。"@)
        } else {
            *final(db) == *old(db) && out@ == ReplyModel::Text("0.5 〜 2.0 の範囲で指定してください。"@)
        },
{
    if !voicevox::is_speed(value) {
        return reply::say("0.5 〜 2.0 の範囲で指定してください。");
    }
    db.set_speed(user_id, value);
    Reply::Text("速さを ".to_owned().concat(shown).concat(" にしました。"))
}

/// Sets the pitch of a user's voice, given how the number is shown.
pub fn pitch(db: &mut Db, user_id: u64, value: Scale, shown: &str) -> (out: Reply)
    requires
        old(db).well_formed(),
    ensures
        final(db).well_formed(),
        if value.finite() && -scale::number(voicevox::MAX_PITCH) <= value.value()
            <= scale::number(voicevox::MAX_PITCH) {
            &&& final(db)@ == old(db)@.with_voice(
                user_id,
                Voice { pitch: value, ..old(db)@.voice_of(user_id) },
            )
            &&& out@ == ReplyModel::Text("高さを "@ + shown@ + " にしました。"@)
        } else {
            *final(db) == *old(db) && out@ == ReplyModel::Text("-0.15 〜 0.15 の範囲で指定してください。"@)
        },
{
    if !voicevox::is_pitch(value) {
        return reply::say("-0.15 〜 0.15 の範囲で指定してください。");
    }
    db.set_pitch(user_id, value);
    Reply::Text("高さを ".to_owned().concat(shown).concat(" にしました。"))
}

/// Sets the intonation of a user's voice, given how the number is shown.
pub fn intonation(db: &mut Db, user_id: u64, value: Scale, shown: &str) -> (out: Reply)
    requires
        old(db).well_formed(),
    ensures
        final(db).well_formed(),
        if value.between(scale::ZERO, voicevox::MAX_INTONATION) {
            &&& final(db)@ == old(db)@.with_voice(
                user_id,
                Voice { intonation: value, ..old(db)@.voice_of(user_id) },
            )
            &&& out@ == ReplyModel::Text("抑揚を "@ + shown@ + " にしました。"@)
        } else {
            *final(db) == *old(db) && out@ == ReplyModel::Text("0.0 〜 2.0 の範囲で指定してください。"@)
        },
{
    if !voicevox::is_intonation(value) {
        return reply::say("0.0 〜 2.0 の範囲で指定してください。");
    }
    db.set_intonation(user_id, value);
    Reply::Text("抑揚を ".to_owned().concat(shown).concat(" にしました。"))
}

/// Sets how many characters of a message are read in a guild.
pub fn maxlength(db: &mut Db, guild_id: Option<u64>, value: u32) -> (out: Reply)
    requires
        old(db).well_formed(),
    ensures
        final(db).well_formed(),
        match guild_id {
            None => *final(db) == *old(db) && out@ == ReplyModel::Text(NOT_IN_GUILD@),
            Some(guild_id) => if 1 <= value <= MAX_LENGTH_LIMIT {
                &&& final(db)@ == old(db)@.with_settings(
                    guild_id,
                    SettingsModel { max_length: value as usize, ..old(db)@.settings_of(guild_id) },
                )
                &&& out@ == ReplyModel::Text(
                    "読み上げの文字数上限を "@ + chars::decimal(value as nat) + " 文字にしました。"@ + if value
                        > SLOW_LENGTH {
                        "\n長い設定なので、上限に近い発言は読み始めるまで数秒かかります。"@
                    } else {
                        ""@
                    },
                )
            } else {
                &&& *final(db) == *old(db)
                &&& out@ == ReplyModel::Text("1 〜 500 の範囲で指定してください。"@)
            },
        },
{
    let guild_id: u64 = match guild_id {
        Some(guild_id) => guild_id,
        None => return reply::say(NOT_IN_GUILD),
    };
    if value < 1 || value > MAX_LENGTH_LIMIT {
        return reply::say("1 〜 500 の範囲で指定してください。");
    }
    db.set_max_length(guild_id, value as usize);
    let note = if value > SLOW_LENGTH {
        "\n長い設定なので、上限に近い発言は読み始めるまで数秒かかります。"
    } else {
        ""
    };
    let shown = chars::decimal_text(value as u64);
    Reply::Text(
        "読み上げの文字数上限を ".to_owned().concat(shown.as_str()).concat(" 文字にしました。").concat(note),
    )
}

/// What can be switched on and off in a guild.
#[derive(Debug, Clone, Copy, PartialEq, Eq, Structural)]
pub enum Feature {
    /// The reading of messages.
    Tts,
    Music,
    TimeSignal,
}

impl Feature {
    /// What the feature is called.
    pub open spec fn name(self) -> Seq<char> {
        match self {
            Feature::Tts => "読み上げ"@,
            Feature::Music => "音楽"@,
            Feature::TimeSignal => "時報"@,
        }
    }
}

/// Settings with a feature switched on or off.
pub open spec fn switched(settings: SettingsModel, feature: Feature, on: bool) -> SettingsModel {
    match feature {
        Feature::Tts => SettingsModel { tts_enabled: on, ..settings },
        Feature::Music => SettingsModel { music_enabled: on, ..settings },
        Feature::TimeSignal => SettingsModel { time_signal_enabled: on, ..settings },
    }
}

/// Whether a feature is switched on.
pub open spec fn is_on(settings: SettingsModel, feature: Feature) -> bool {
    match feature {
        Feature::Tts => settings.tts_enabled,
        Feature::Music => settings.music_enabled,
        Feature::TimeSignal => settings.time_signal_enabled,
    }
}

/// A feature is as it was switched, and no other feature is affected.
pub proof fn features_are_independent(
    settings: SettingsModel,
    feature: Feature,
    on: bool,
    other: Feature,
)
    requires
        other != feature,
    ensures
        is_on(switched(settings, feature, on), feature) == on,
        is_on(switched(settings, feature, on), other) == is_on(settings, other),
{
}

/// What comes of switching a feature.
#[derive(Debug)]
pub struct Switched {
    pub reply: Reply,
    /// What waits for the feature is thrown away, so that nothing goes on after it was switched
    /// off.
    pub discard: bool,
}

/// Switches a feature of a guild on or off.
pub fn feature(db: &mut Db, guild_id: Option<u64>, chosen: Feature, enabled: bool) -> (out:
    Switched)
    requires
        old(db).well_formed(),
    ensures
        final(db).well_formed(),
        match guild_id {
            None => {
                &&& *final(db) == *old(db)
                &&& out.reply@ == ReplyModel::Text(NOT_IN_GUILD@)
                &&& !out.discard
            },
            Some(guild_id) => {
                &&& final(db)@ == old(db)@.with_settings(
                    guild_id,
                    switched(old(db)@.settings_of(guild_id), chosen, enabled),
                )
                &&& out.reply@ == ReplyModel::Text(
                    "**"@ + chosen.name() + "**を"@ + if enabled {
                        "有効"@
                    } else {
                        "無効"@
                    } + "にしました。"@,
                )
                &&& out.discard == (!enabled && chosen != Feature::TimeSignal)
            },
        },
{
    let guild_id: u64 = match guild_id {
        Some(guild_id) => guild_id,
        None => return Switched { reply: reply::say(NOT_IN_GUILD), discard: false },
    };
    let (name, queued) = match chosen {
        Feature::Tts => {
            db.set_tts_enabled(guild_id, enabled);
            ("読み上げ", true)
        },
        Feature::Music => {
            db.set_music_enabled(guild_id, enabled);
            ("音楽", true)
        },
        Feature::TimeSignal => {
            db.set_time_signal_enabled(guild_id, enabled);
            ("時報", false)
        },
    };
    let state = if enabled {
        "有効"
    } else {
        "無効"
    };
    Switched {
        reply: Reply::Text(
            "**".to_owned().concat(name).concat("**を").concat(state).concat("にしました。"),
        ),
        discard: !enabled && queued,
    }
}

/// A mention of a channel.
pub open spec fn mention(channel_id: u64) -> Seq<char> {
    "<#"@ + chars::decimal(channel_id as nat) + ">"@
}

/// A mention of a channel.
pub fn mention_text(channel_id: u64) -> (out: String)
    ensures
        out@ == mention(channel_id),
{
    let number = chars::decimal_text(channel_id);
    "<#".to_owned().concat(number.as_str()).concat(">")
}

/// Mentions of channels with blanks between them.
pub open spec fn mentions(channels: Seq<u64>) -> Seq<char> {
    chars::joined(channels.map_values(|channel_id: u64| mention(channel_id)), " "@)
}

/// Mentions of channels with blanks between them.
pub fn mention_list(channels: &Vec<u64>) -> (out: String)
    ensures
        out@ == mentions(channels@),
{
    let mut parts: Vec<String> = Vec::new();
    let mut i: usize = 0;
    while i < channels.len()
        invariant
            i <= channels@.len(),
            parts@.len() == i,
            forall|j: int| 0 <= j < i ==> (#[trigger] parts@[j])@ == mention(channels@[j]),
        decreases channels@.len() - i,
    {
        parts.push(mention_text(channels[i]));
        i = i + 1;
    }
    assert(chars::views(parts@) =~= channels@.map_values(|channel_id: u64| mention(channel_id)));
    chars::join(&parts, " ")
}

/// A text channel and the voice channel that it is bound to.
pub open spec fn bound(pair: (u64, u64)) -> Seq<char> {
    mention(pair.0) + " → "@ + mention(pair.1)
}

/// Channels that are bound, a line each.
fn binding_lines(bindings: &Vec<(u64, u64)>) -> (out: String)
    ensures
        out@ == chars::joined(bindings@.map_values(|pair: (u64, u64)| bound(pair)), "\n"@),
{
    let mut parts: Vec<String> = Vec::new();
    let mut i: usize = 0;
    while i < bindings.len()
        invariant
            i <= bindings@.len(),
            parts@.len() == i,
            forall|j: int| 0 <= j < i ==> (#[trigger] parts@[j])@ == bound(bindings@[j]),
        decreases bindings@.len() - i,
    {
        let to = mention_text(bindings[i].1);
        parts.push(mention_text(bindings[i].0).concat(" → ").concat(to.as_str()));
        i = i + 1;
    }
    assert(chars::views(parts@) =~= bindings@.map_values(|pair: (u64, u64)| bound(pair)));
    chars::join(&parts, "\n")
}

/// How the numbers of a voice are shown.
#[derive(Debug)]
pub struct Shown {
    pub speed: String,
    pub pitch: String,
    pub intonation: String,
}

/// Whether something is on.
pub open spec fn on_off(on: bool) -> Seq<char> {
    if on {
        "有効"@
    } else {
        "無効"@
    }
}

/// What is told of a guild's settings and a user's voice.
pub open spec fn told(
    db: Db,
    guild_id: u64,
    user_id: u64,
    styles: Seq<ChoiceModel>,
    shown: Shown,
) -> Seq<char> {
    let settings = db@.settings_of(guild_id);
    let style = db@.voice_of(user_id).style.0;
    let channels = db.channel_list(guild_id);
    let bindings = db.binding_list(guild_id);
    "**サーバー設定**\n機能: 読み上げ "@ + on_off(settings.tts_enabled) + " / 音楽 "@ + on_off(
        settings.music_enabled,
    ) + "\n読み上げ中: "@ + if channels.len() == 0 {
        "（未登録）"@
    } else {
        mentions(channels)
    } + "\n紐づけ:\n"@ + if bindings.len() == 0 {
        "（なし）"@
    } else {
        chars::joined(bindings.map_values(|pair: (u64, u64)| bound(pair)), "\n"@)
    } + "\n文字数上限: "@ + chars::decimal(settings.max_length as nat) + " 文字\nBot の発言: "@ + if settings.read_bots {
        "読む"@
    } else {
        "読まない"@
    } + "\n無視する接頭辞: `"@ + settings.ignore_prefix + "`\n\n**あなたの声**（サーバー共通）\n話者: "@ + label_of(
        styles,
        style,
    ) + " (ID "@ + chars::decimal(style as nat) + ")\n速さ: "@ + shown.speed@ + " / 高さ: "@
        + shown.pitch@ + " / 抑揚: "@ + shown.intonation@
}

/// Whether something is on.
fn on_off_text(on: bool) -> (out: &'static str)
    ensures
        out@ == on_off(on),
{
    if on {
        "有効"
    } else {
        "無効"
    }
}

/// Tells the settings of a guild and the voice of a user, given how the voice's numbers are shown.
pub fn config(
    db: &Db,
    guild_id: Option<u64>,
    user_id: u64,
    styles: &Vec<StyleChoice>,
    shown: &Shown,
) -> (out: Reply)
    requires
        db.well_formed(),
    ensures
        out@ == ReplyModel::Text(
            match guild_id {
                Some(guild_id) => told(*db, guild_id, user_id, choice_views(styles@), *shown),
                None => NOT_IN_GUILD@,
            },
        ),
{
    let guild_id: u64 = match guild_id {
        Some(guild_id) => guild_id,
        None => return reply::say(NOT_IN_GUILD),
    };
    let channels = db.read_channels(guild_id);
    let bindings = db.bindings(guild_id);
    let settings = db.guild_settings(guild_id);
    let voice = db.voice(user_id);
    let channel_list = if channels.len() == 0 {
        "（未登録）".to_owned()
    } else {
        mention_list(&channels)
    };
    let binding_list = if bindings.len() == 0 {
        "（なし）".to_owned()
    } else {
        binding_lines(&bindings)
    };
    let length = chars::decimal_text(settings.max_length as u64);
    let bots = if settings.read_bots {
        "読む"
    } else {
        "読まない"
    };
    let label = style_label(styles, voice.style.0);
    let number = chars::decimal_text(voice.style.0 as u64);
    let mut out = "**サーバー設定**\n機能: 読み上げ ".to_owned();
    out.append(on_off_text(settings.tts_enabled));
    out.append(" / 音楽 ");
    out.append(on_off_text(settings.music_enabled));
    out.append("\n読み上げ中: ");
    out.append(channel_list.as_str());
    out.append("\n紐づけ:\n");
    out.append(binding_list.as_str());
    out.append("\n文字数上限: ");
    out.append(length.as_str());
    out.append(" 文字\nBot の発言: ");
    out.append(bots);
    out.append("\n無視する接頭辞: `");
    out.append(settings.ignore_prefix.as_str());
    out.append("`\n\n**あなたの声**（サーバー共通）\n話者: ");
    out.append(label.as_str());
    out.append(" (ID ");
    out.append(number.as_str());
    out.append(")\n速さ: ");
    out.append(shown.speed.as_str());
    out.append(" / 高さ: ");
    out.append(shown.pitch.as_str());
    out.append(" / 抑揚: ");
    out.append(shown.intonation.as_str());
    Reply::Text(out)
}

/// Each style of each character can be chosen, in the order in which the engine lists them, by its
/// number and under the name of the character with that of the style.
pub proof fn every_style_can_be_chosen(speakers: Seq<Speaker>, speaker: Speaker, k: int)
    requires
        0 <= k < speaker.styles@.len(),
    ensures
        all_choices(Seq::empty()) == Seq::<ChoiceModel>::empty(),
        ({
            let before = all_choices(speakers);
            let all = all_choices(speakers.push(speaker));
            &&& all.len() == before.len() + speaker.styles@.len()
            &&& forall|i: int| 0 <= i < before.len() ==> #[trigger] all[i] == before[i]
            &&& all[before.len() + k].id == speaker.styles@[k].id
            &&& all[before.len() + k].label == speaker.name@ + "（"@ + speaker.styles@[k].name@
                + "）"@
        }),
{
    assert(speakers.push(speaker).drop_last() =~= speakers);
    lemma_choices_of(speaker, speaker.styles@.len(), k);
}

/// A character makes a choice of each of its styles.
proof fn lemma_choices_of(speaker: Speaker, count: nat, k: int)
    requires
        0 <= k < count <= speaker.styles@.len(),
    ensures
        choices_of(speaker, count).len() == count,
        choices_of(speaker, count)[k].id == speaker.styles@[k].id,
        choices_of(speaker, count)[k].label == speaker.name@ + "（"@ + speaker.styles@[k].name@
            + "）"@,
    decreases count,
{
    if count > 1 {
        lemma_choices_of(
            speaker,
            (count - 1) as nat,
            if k < count - 1 {
                k
            } else {
                0
            },
        );
    } else {
        assert(choices_of(speaker, 0).len() == 0);
    }
}

/// A style is called what the first choice with its number is called, and by its number where there is
/// no such choice.
pub proof fn a_style_is_called_by_its_first_choice(styles: Seq<ChoiceModel>, id: u32, i: int)
    requires
        forall|j: int| 0 <= j < i && j < styles.len() ==> (#[trigger] styles[j]).id != id,
        0 <= i <= styles.len(),
        i < styles.len() ==> styles[i].id == id,
    ensures
        i < styles.len() ==> label_of(styles, id) == styles[i].label,
        i == styles.len() ==> label_of(styles, id) == "ID "@ + chars::decimal(id as nat),
    decreases styles.len(),
{
    if i > 0 {
        let rest = styles.skip(1);
        assert(styles[0].id != id);
        assert forall|j: int| 0 <= j < i - 1 && j < rest.len() implies (#[trigger] rest[j]).id
            != id by {
            assert(rest[j] == styles[j + 1]);
        }
        a_style_is_called_by_its_first_choice(rest, id, i - 1);
    }
}

/// A candidate that fits is among those of its kind.
proof fn lemma_fitting_complete(
    candidates: Seq<CandidateModel>,
    needle: Seq<char>,
    leading: bool,
    i: int,
)
    requires
        0 <= i < candidates.len(),
        fits(candidates[i], needle),
        leads(candidates[i], needle) == leading,
    ensures
        fitting(candidates, needle, leading).contains(candidates[i]),
    decreases candidates.len(),
{
    let rest = candidates.drop_last();
    let before = fitting(rest, needle, leading);
    let all = fitting(candidates, needle, leading);
    if i < rest.len() {
        assert(rest[i] == candidates[i]);
        lemma_fitting_complete(rest, needle, leading, i);
        let k = choose|k: int| 0 <= k < before.len() && before[k] == candidates[i];
        assert(all[k] == candidates[i]);
    } else {
        assert(all[before.len() as int] == candidates[i]);
    }
}

/// Everything that fits what was typed is suggested as long as Discord can show it all: what holds it
/// in its label, what has a number that begins with it, and all if nothing was typed.
pub proof fn whatever_fits_is_suggested(
    candidates: Seq<CandidateModel>,
    needle: Seq<char>,
    i: int,
)
    requires
        0 <= i < candidates.len(),
        needle.len() == 0 || chars::occurs(candidates[i].lowered, needle) || chars::begins(
            chars::decimal(candidates[i].choice.id as nat),
            needle,
        ),
        fitting(candidates, needle, true).len() + fitting(candidates, needle, false).len() <= 25,
    ensures
        selected(candidates, needle).contains(candidates[i]),
{
    let first = fitting(candidates, needle, true);
    let rest = fitting(candidates, needle, false);
    let leading = leads(candidates[i], needle);
    lemma_fitting_complete(candidates, needle, leading, i);
    let all = first + rest;
    if leading {
        let k = choose|k: int| 0 <= k < first.len() && first[k] == candidates[i];
        assert(all[k] == candidates[i]);
    } else {
        let k = choose|k: int| 0 <= k < rest.len() && rest[k] == candidates[i];
        assert(all[first.len() + k] == candidates[i]);
    }
}

/// What does not fit what was typed is not suggested: something was typed that neither its label holds
/// nor its number begins with.
pub proof fn what_does_not_fit_is_not_suggested(
    candidates: Seq<CandidateModel>,
    needle: Seq<char>,
    k: int,
)
    requires
        0 <= k < selected(candidates, needle).len(),
    ensures
        ({
            let found = selected(candidates, needle)[k];
            needle.len() == 0 || chars::occurs(found.lowered, needle) || chars::begins(
                chars::decimal(found.choice.id as nat),
                needle,
            )
        }),
{
    suggestions_fit(candidates, needle);
}

/// Only what a feature is about changes when it is switched.
pub proof fn switching_changes_nothing_else(settings: SettingsModel, feature: Feature, on: bool)
    ensures
        ({
            let after = switched(settings, feature, on);
            &&& after.tts_enabled == if feature == Feature::Tts {
                on
            } else {
                settings.tts_enabled
            }
            &&& after.music_enabled == if feature == Feature::Music {
                on
            } else {
                settings.music_enabled
            }
            &&& after.time_signal_enabled == if feature == Feature::TimeSignal {
                on
            } else {
                settings.time_signal_enabled
            }
            &&& after.max_length == settings.max_length
            &&& after.read_bots == settings.read_bots
            &&& after.ignore_prefix == settings.ignore_prefix
            &&& after.music_volume == settings.music_volume
            &&& after.time_signal_interval == settings.time_signal_interval
            &&& after.time_signal_style == settings.time_signal_style
        }),
{
}

/// A channel that the bot mentions is mentioned: in a message its name would be read.
pub proof fn the_bots_mentions_are_mentions(channel_id: u64, names: text::NamesModel)
    requires
        names.channels.contains_key(channel_id),
        markup_laws::is_bare(names.channels[channel_id]),
    ensures
        text::without_markup(mention(channel_id), names) == "#"@ + names.channels[channel_id],
{
    reveal_strlit("<#");
    reveal_strlit(">");
    reveal_strlit("#");
    let kind = markup_laws::Kind::Channel;
    let nothing = Seq::<char>::empty();
    markup_laws::a_mention_is_read_as_the_name(
        kind,
        nothing,
        channel_id,
        nothing,
        0,
        names,
        Seq::empty(),
        0,
    );
    let token = kind.head() + chars::decimal(channel_id as nat) + seq!['>'];
    assert(mention(channel_id) =~= nothing + token + nothing);
    assert(nothing + kind.read(names.channels[channel_id]) + nothing =~= "#"@
        + names.channels[channel_id]);
}

/// A style can be chosen if it is among the choices, and not if it is not, but any can while none is
/// known.
pub proof fn what_is_listed_can_be_chosen(styles: Seq<ChoiceModel>, choice: ChoiceModel, id: u32)
    ensures
        can_choose(Seq::empty(), id),
        can_choose(styles.push(choice), choice.id),
        styles.len() > 0 && id != choice.id ==> (can_choose(styles.push(choice), id) <==> can_choose(
            styles,
            id,
        )),
        styles.len() == 0 && id != choice.id ==> !can_choose(styles.push(choice), id),
{
    let more = styles.push(choice);
    assert(more[styles.len() as int] == choice);
    if styles.len() > 0 && can_choose(styles, id) {
        let i = choose|i: int| 0 <= i < styles.len() && (#[trigger] styles[i]).id == id;
        assert(more[i].id == id);
    }
    if id != choice.id && can_choose(more, id) {
        let i = choose|i: int| 0 <= i < more.len() && (#[trigger] more[i]).id == id;
        assert(styles[i].id == id);
    }
}

/// Blanks around what was typed change no suggestion. A style is suggested if its label, in small
/// letters, holds what was typed in small letters, as long as Discord can show all that fit; and no
/// style is suggested that there is not.
pub proof fn a_label_is_found_by_its_letters(
    styles: Seq<ChoiceModel>,
    partial: Seq<char>,
    other: Seq<char>,
    i: int,
    k: int,
)
    requires
        chars::trimmed(Edge::Space, partial) == chars::trimmed(Edge::Space, other),
    ensures
        suggested(styles, partial) == suggested(styles, other),
        ({
            let needle = chars::lower_case(chars::trimmed(Edge::Space, partial));
            &&& 0 <= i < styles.len() && chars::occurs(chars::lower_case(styles[i].label), needle)
                && fitting(lowered(styles), needle, true).len() + fitting(
                lowered(styles),
                needle,
                false,
            ).len() <= 25 ==> suggested(styles, partial).contains(styles[i])
            &&& 0 <= k < suggested(styles, partial).len() ==> needle.len() == 0 || chars::occurs(
                chars::lower_case(suggested(styles, partial)[k].label),
                needle,
            ) || chars::begins(
                chars::decimal(suggested(styles, partial)[k].id as nat),
                needle,
            )
            &&& 0 <= k < suggested(styles, partial).len() ==> styles.contains(
                suggested(styles, partial)[k],
            )
        }),
{
    let needle = chars::lower_case(chars::trimmed(Edge::Space, partial));
    let all = lowered(styles);
    let found = selected(all, needle);
    if 0 <= i < styles.len() && chars::occurs(chars::lower_case(styles[i].label), needle)
        && fitting(all, needle, true).len() + fitting(all, needle, false).len() <= 25 {
        assert(all[i].lowered == chars::lower_case(styles[i].label));
        whatever_fits_is_suggested(all, needle, i);
        let at = choose|at: int| 0 <= at < found.len() && found[at] == all[i];
        assert(suggested(styles, partial)[at] == styles[i]);
    }
    if 0 <= k < found.len() {
        what_does_not_fit_is_not_suggested(all, needle, k);
        lemma_fitting_among(all, needle, true);
        lemma_fitting_among(all, needle, false);
        let first = fitting(all, needle, true);
        let rest = fitting(all, needle, false);
        if k < first.len() {
            assert(found[k] == first[k]);
        } else {
            assert(found[k] == rest[k - first.len()]);
        }
        let at = choose|at: int| 0 <= at < all.len() && all[at] == found[k];
        assert(all[at].choice == styles[at]);
        assert(suggested(styles, partial)[k] == styles[at]);
    }
}

/// The candidates of one kind are among the candidates.
proof fn lemma_fitting_among(candidates: Seq<CandidateModel>, needle: Seq<char>, leading: bool)
    ensures
        forall|i: int|
            0 <= i < fitting(candidates, needle, leading).len() ==> candidates.contains(
                #[trigger] fitting(candidates, needle, leading)[i],
            ),
    decreases candidates.len(),
{
    if candidates.len() > 0 {
        let fewer = candidates.drop_last();
        lemma_fitting_among(fewer, needle, leading);
        let before = fitting(fewer, needle, leading);
        let all = fitting(candidates, needle, leading);
        assert forall|i: int| 0 <= i < all.len() implies candidates.contains(#[trigger] all[i]) by {
            if i < before.len() {
                assert(all[i] == before[i]);
                let at = choose|at: int| 0 <= at < fewer.len() && fewer[at] == before[i];
                assert(candidates[at] == all[i]);
            } else {
                assert(candidates[candidates.len() - 1] == all[i]);
            }
        }
    }
}

/// What is told of a guild says whether its messages are read and music is played, where it reads, how
/// far and whose, and with what voice the user is read.
#[verifier::rlimit(40)]
#[verifier::spinoff_prover]
pub proof fn the_settings_are_told(
    db: Db,
    guild_id: u64,
    user_id: u64,
    styles: Seq<ChoiceModel>,
    shown: Shown,
)
    ensures
        ({
            let said = told(db, guild_id, user_id, styles, shown);
            let settings = db@.settings_of(guild_id);
            let style = db@.voice_of(user_id).style.0;
            &&& chars::begins(
                said,
                "**サーバー設定**\n機能: 読み上げ "@ + if settings.tts_enabled {
                    "有効"@
                } else {
                    "無効"@
                },
            )
            &&& chars::occurs(
                said,
                " / 音楽 "@ + if settings.music_enabled {
                    "有効"@
                } else {
                    "無効"@
                },
            )
            &&& chars::occurs(
                said,
                "\n読み上げ中: "@ + if db.channel_list(guild_id).len() == 0 {
                    "（未登録）"@
                } else {
                    mentions(db.channel_list(guild_id))
                },
            )
            &&& chars::occurs(
                said,
                "\n文字数上限: "@ + chars::decimal(settings.max_length as nat)
                    + " 文字\nBot の発言: "@ + if settings.read_bots {
                    "読む"@
                } else {
                    "読まない"@
                },
            )
            &&& chars::occurs(said, "\n無視する接頭辞: `"@ + settings.ignore_prefix)
            &&& chars::occurs(said, label_of(styles, style) + " (ID "@ + chars::decimal(style as nat))
            &&& chars::ends(
                said,
                ")\n速さ: "@ + shown.speed@ + " / 高さ: "@ + shown.pitch@ + " / 抑揚: "@
                    + shown.intonation@,
            )
        }),
{
    let settings = db@.settings_of(guild_id);
    let style = db@.voice_of(user_id).style.0;
    let channels = db.channel_list(guild_id);
    let bindings = db.binding_list(guild_id);
    let read = "**サーバー設定**\n機能: 読み上げ "@ + on_off(settings.tts_enabled);
    let music = on_off(settings.music_enabled);
    let places = if channels.len() == 0 {
        "（未登録）"@
    } else {
        mentions(channels)
    };
    let pairs = if bindings.len() == 0 {
        "（なし）"@
    } else {
        chars::joined(bindings.map_values(|pair: (u64, u64)| bound(pair)), "\n"@)
    };
    let limit = chars::decimal(settings.max_length as nat);
    let bots = if settings.read_bots {
        "読む"@
    } else {
        "読まない"@
    };
    let t1 = lemma_told(read, " / 音楽 "@, music, read);
    let t2 = lemma_told(t1, "\n読み上げ中: "@, places, read);
    let t3 = lemma_told(t2, "\n紐づけ:\n"@, pairs, read);
    let t4 = lemma_told(t3, "\n文字数上限: "@, limit, read);
    let t5 = lemma_told(t4, " 文字\nBot の発言: "@, bots, read);
    let t6 = lemma_told(t5, "\n無視する接頭辞: `"@, settings.ignore_prefix, read);
    let label = label_of(styles, style);
    let voice = "`\n\n**あなたの声**（サーバー共通）\n話者: "@;
    let t7 = lemma_told(t6, voice, label, read);
    let number = chars::decimal(style as nat);
    let t8 = lemma_told(t7, " (ID "@, number, read);
    let t9 = lemma_told(t8, ")\n速さ: "@, shown.speed@, read);
    let t10 = lemma_told(t9, " / 高さ: "@, shown.pitch@, read);
    let t11 = lemma_told(t10, " / 抑揚: "@, shown.intonation@, read);
    let said = told(db, guild_id, user_id, styles, shown);
    assert(said == t11);
    let bar = "\n文字数上限: "@ + limit;
    let both = bar + " 文字\nBot の発言: "@ + bots;
    assert(chars::occurs(t5, both)) by {
        chars::lemma_grouping(t3, "\n文字数上限: "@, limit);
        chars::lemma_grouping(t3, bar, " 文字\nBot の発言: "@);
        chars::lemma_grouping(t3, bar + " 文字\nBot の発言: "@, bots);
        chars::a_part_stands_where_it_was_put(t3, both, Seq::empty());
        assert(t3 + both + Seq::<char>::empty() =~= t3 + both);
    }
    let named = label + " (ID "@ + number;
    assert(chars::occurs(t8, named)) by {
        chars::lemma_grouping(t6 + voice, label, " (ID "@);
        chars::lemma_grouping(t6 + voice, label + " (ID "@, number);
        chars::a_part_stands_where_it_was_put(t6 + voice, named, Seq::empty());
        assert(t6 + voice + named + Seq::<char>::empty() =~= t6 + voice + named);
    }
    let numbers = ")\n速さ: "@ + shown.speed@ + " / 高さ: "@ + shown.pitch@ + " / 抑揚: "@
        + shown.intonation@;
    assert(chars::ends(t11, numbers)) by {
        let n1 = ")\n速さ: "@ + shown.speed@;
        let n2 = n1 + " / 高さ: "@;
        let n3 = n2 + shown.pitch@;
        let n4 = n3 + " / 抑揚: "@;
        chars::lemma_grouping(t8, ")\n速さ: "@, shown.speed@);
        chars::lemma_grouping(t8, n1, " / 高さ: "@);
        chars::lemma_grouping(t8, n2, shown.pitch@);
        chars::lemma_grouping(t8, n3, " / 抑揚: "@);
        chars::lemma_grouping(t8, n4, shown.intonation@);
        chars::a_part_stands_where_it_was_put(t8, t8, numbers);
    }
    let p1 = " / 音楽 "@ + music;
    lemma_told(t1, "\n読み上げ中: "@, places, p1);
    lemma_told(t2, "\n紐づけ:\n"@, pairs, p1);
    lemma_told(t3, "\n文字数上限: "@, limit, p1);
    lemma_told(t4, " 文字\nBot の発言: "@, bots, p1);
    lemma_told(t5, "\n無視する接頭辞: `"@, settings.ignore_prefix, p1);
    lemma_told(t6, voice, label, p1);
    lemma_told(t7, " (ID "@, number, p1);
    lemma_told(t8, ")\n速さ: "@, shown.speed@, p1);
    lemma_told(t9, " / 高さ: "@, shown.pitch@, p1);
    lemma_told(t10, " / 抑揚: "@, shown.intonation@, p1);
    let p2 = "\n読み上げ中: "@ + places;
    lemma_told(t2, "\n紐づけ:\n"@, pairs, p2);
    lemma_told(t3, "\n文字数上限: "@, limit, p2);
    lemma_told(t4, " 文字\nBot の発言: "@, bots, p2);
    lemma_told(t5, "\n無視する接頭辞: `"@, settings.ignore_prefix, p2);
    lemma_told(t6, voice, label, p2);
    lemma_told(t7, " (ID "@, number, p2);
    lemma_told(t8, ")\n速さ: "@, shown.speed@, p2);
    lemma_told(t9, " / 高さ: "@, shown.pitch@, p2);
    lemma_told(t10, " / 抑揚: "@, shown.intonation@, p2);
    lemma_told(t5, "\n無視する接頭辞: `"@, settings.ignore_prefix, both);
    let p6 = "\n無視する接頭辞: `"@ + settings.ignore_prefix;
    lemma_told(t6, voice, label, both);
    lemma_told(t6, voice, label, p6);
    lemma_told(t7, " (ID "@, number, both);
    lemma_told(t7, " (ID "@, number, p6);
    lemma_told(t8, ")\n速さ: "@, shown.speed@, both);
    lemma_told(t8, ")\n速さ: "@, shown.speed@, p6);
    lemma_told(t8, ")\n速さ: "@, shown.speed@, named);
    lemma_told(t9, " / 高さ: "@, shown.pitch@, both);
    lemma_told(t9, " / 高さ: "@, shown.pitch@, p6);
    lemma_told(t9, " / 高さ: "@, shown.pitch@, named);
    lemma_told(t10, " / 抑揚: "@, shown.intonation@, both);
    lemma_told(t10, " / 抑揚: "@, shown.intonation@, p6);
    lemma_told(t10, " / 抑揚: "@, shown.intonation@, named);
}

/// A text with an entry behind it holds the entry, and still begins as it did and holds what it held.
proof fn lemma_told(text: Seq<char>, name: Seq<char>, value: Seq<char>, held: Seq<char>) -> (out: Seq<
    char,
>)
    ensures
        out == text + name + value,
        chars::occurs(out, name + value),
        chars::occurs(text, held) ==> chars::occurs(out, held),
        chars::begins(text, held) || text == held ==> chars::begins(out, held),
{
    let out = text + name + value;
    chars::lemma_grouping(text, name, value);
    chars::a_part_stands_where_it_was_put(text, name + value, Seq::empty());
    assert(text + (name + value) + Seq::<char>::empty() =~= out);
    if chars::occurs(text, held) {
        chars::lemma_still_occurs(text, name + value, held);
    }
    if chars::begins(text, held) || text == held {
        assert(text.subrange(0, held.len() as int) =~= held);
        assert(out.subrange(0, held.len() as int) =~= text.subrange(0, held.len() as int));
    }
    out
}

} // verus!
