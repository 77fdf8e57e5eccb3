//! Verified core of a clipboard-history manager: it classifies raw clipboard
//! observations into typed candidates, suppresses immediate duplicates,
//! persists distinct entries into a content-addressed store, and answers
//! recency- and substring-filtered queries over that store.

pub mod strutil;
pub mod numfmt;
pub mod hash;
pub mod time;
pub mod file;
pub mod text;
pub mod path;
pub mod pathlist;
pub mod pasteboard;
pub mod clipboard;
pub mod store;
pub mod config;
pub mod logger;
pub mod helper;
pub mod models;
pub mod base64;
