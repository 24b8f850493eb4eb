//! The catalog database: its tables, the rules they keep, and the queries
//! and edits the application performs on them.

pub mod store;
pub mod placement;
pub mod validate;
pub mod tracks;
pub mod releases;
pub mod order;
pub mod listing;
pub mod queries;
pub mod migrations;
pub mod laws;
pub mod frame;
