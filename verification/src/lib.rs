//! regkey: keystroke recording and reporting, with the decisions, the
//! database contracts and the report rendering verified.

pub mod bigrams;
pub mod clock;
pub mod db;
pub mod record;
pub mod render;
pub mod report;
pub mod sqlite;
pub mod text;
pub mod trigrams;
pub mod window;
