//! Decision logic of a Discord bot that reads chat messages aloud and plays music.

pub mod chars;
pub mod pattern;
pub mod text;
pub mod text_laws;
pub mod markup_laws;
pub mod dictionary_laws;
pub mod smoothing_laws;
pub mod clock;
pub mod nicovideo;
pub mod music;
pub mod import;
pub mod table;
pub mod rank;
pub mod scale;
pub mod volume;
pub mod voicevox;
pub mod session;
pub mod exvoice;
pub mod speech;
pub mod timesignal;
pub mod db;
pub mod db_laws;
pub mod events;
pub mod announce;
pub mod commands;
