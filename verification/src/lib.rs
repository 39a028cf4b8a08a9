//! Import, browse and search a history of session transcripts.

pub mod block;
pub mod db;
pub mod event;
pub mod format;
pub mod fts;
pub mod import;
pub mod json;
pub mod query;
pub mod record;
pub mod serve;
pub mod text;
pub mod url;
