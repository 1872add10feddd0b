//! What the commands answer and change.

pub mod dashboard;
pub mod reply;
pub mod settings;
pub mod voice;
pub mod music;
pub mod listing;
pub mod dict;
pub mod playlist;
pub mod stats;
pub mod about;
pub mod help;
pub mod timesignal;
