//! Verified core of the `alt` launcher: text handling, desktop-entry parsing,
//! fuzzy matching, quick-launch bookkeeping and note formatting.

pub mod text;
pub mod markdown;
pub mod fuzzy;
pub mod desktop;
pub mod listing;
pub mod quicklaunch;
pub mod marker;
pub mod info;
pub mod keys;
pub mod chat;
pub mod clock;
