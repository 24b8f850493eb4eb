//! TrackLog: a local catalog of songs (tracks) and the releases they are
//! gathered in, with the rules that keep the catalog consistent.

pub mod text;
pub mod clock;
pub mod models;
pub mod oauth;
pub mod flows;
pub mod like;
pub mod backup;
pub mod db;
pub mod fs;
