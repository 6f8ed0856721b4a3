//! Process query and ordering engine: a label query language over process
//! snapshots, case-aware filtering, and stable sorting by a selectable column.
pub mod text;
pub mod pattern;
pub mod process_list;
pub mod query;
pub mod settings;
