//! Verified core of scdesk: Sierra Chart symbol and file-format parsing,
//! journal import rules, and the integer and text logic of the Pulse dashboard.

pub mod text;
pub mod contracts;
pub mod scid;
pub mod dates;
pub mod journal;
pub mod sierra_paths;
pub mod quotes;
pub mod calendar;
pub mod activity;
pub mod score;
pub mod exec;
pub mod engine;
pub mod tradeslist;
pub mod ndjson;
pub mod stats;
pub mod zones;
