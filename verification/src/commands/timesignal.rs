//! How a guild wants the time read. Whether it wants it is switched with the other features.

use vstd::prelude::*;

use crate::commands::reply;
use crate::commands::reply::Reply;
use crate::commands::reply::ReplyModel;
use crate::commands::settings;
use crate::commands::settings::StyleChoice;
use crate::db::Db;
use crate::db::SettingsModel;
use crate::timesignal;
use crate::voicevox::StyleId;

verus! {

/// How often the time can be read.
#[derive(Debug, Clone, Copy, PartialEq, Eq, Structural)]
pub enum Frequency {
    Hourly,
    HalfHourly,
}

impl Frequency {
    /// The minutes between two readings.
    pub open spec fn every(self) -> u32 {
        match self {
            Frequency::Hourly => 60,
            Frequency::HalfHourly => 30,
        }
    }

    /// What it is called.
    pub open spec fn name(self) -> Seq<char> {
        match self {
            Frequency::Hourly => "毎正時"@,
            Frequency::HalfHourly => "30分おき"@,
        }
    }

    /// The minutes between two readings.
    pub fn minutes(&self) -> (out: u32)
        ensures
            out == self.every(),
    {
        match self {
            Frequency::Hourly => 60,
            Frequency::HalfHourly => 30,
        }
    }

    /// What it is called.
    pub fn label(&self) -> (out: &'static str)
        ensures
            out@ == self.name(),
    {
        match self {
            Frequency::Hourly => "毎正時",
            Frequency::HalfHourly => "30分おき",
        }
    }
}

/// Sets how often the time is read in a guild.
pub fn interval(db: &mut Db, guild_id: u64, frequency: Frequency) -> (out: Reply)
    requires
        old(db).well_formed(),
    ensures
        final(db).well_formed(),
        final(db)@ == old(db)@.with_settings(
            guild_id,
            SettingsModel {
                time_signal_interval: frequency.every(),
                ..old(db)@.settings_of(guild_id)
            },
        ),
        out@ == ReplyModel::Text("時報の頻度を **"@ + frequency.name() + "** にしました。"@),
{
    db.set_time_signal_interval(guild_id, frequency.minutes());
    Reply::Text("時報の頻度を **".to_owned().concat(frequency.label()).concat("** にしました。"))
}

/// Sets the style in which the time is read in a guild.
pub fn voice(db: &mut Db, guild_id: u64, styles: &Vec<StyleChoice>, speaker: u32) -> (out: Reply)
    requires
        old(db).well_formed(),
    ensures
        final(db).well_formed(),
        ({
            let models = settings::choice_views(styles@);
            if settings::can_choose(models, speaker) {
                &&& final(db)@ == old(db)@.with_settings(
                    guild_id,
                    SettingsModel {
                        time_signal_style: speaker,
                        ..old(db)@.settings_of(guild_id)
                    },
                )
                &&& out@ == ReplyModel::Text(
                    "時報の話者を **"@ + settings::label_of(models, speaker) + "** にしました。"@,
                )
            } else {
                *final(db) == *old(db) && out@ == ReplyModel::Text(settings::UNKNOWN_STYLE@)
            }
        }),
{
    if !settings::is_choosable(styles, speaker) {
        return reply::say(settings::UNKNOWN_STYLE);
    }
    db.set_time_signal_style(guild_id, StyleId(speaker));
    let label = settings::style_label(styles, speaker);
    Reply::Text("時報の話者を **".to_owned().concat(label.as_str()).concat("** にしました。"))
}

/// Every hour is at the full hour, and every half hour also at the half. Each is called by its own name.
pub proof fn frequencies_mean_what_they_say(minute: nat)
    requires
        minute < 60,
    ensures
        timesignal::falls_on(minute, Frequency::Hourly.every() as nat) <==> minute == 0,
        timesignal::falls_on(minute, Frequency::HalfHourly.every() as nat) <==> minute == 0 || minute
            == 30,
        Frequency::Hourly.name() == "毎正時"@,
        Frequency::HalfHourly.name() == "30分おき"@,
{
}

} // verus!
