//! User-editable configuration: per-type retention in days and the
//! preview count, plus the resolved data directories. Built once at
//! startup and passed by reference; reading and writing the on-disk file
//! is the caller's concern.

use vstd::prelude::*;

verus! {

/// Retention, in days, for each capture type.
#[derive(Debug, Clone, Copy, PartialEq, Eq, Structural)]
pub struct ExpiredConfig {
    pub text: i64,
    pub img: i64,
    pub file: i64,
}

/// How many rows the UI asks for by default.
#[derive(Debug, Clone, Copy, PartialEq, Eq, Structural)]
pub struct PreviewConfig {
    pub preview_number: u32,
}

/// The user-editable part of the configuration.
#[derive(Debug, Clone, Copy, PartialEq, Eq, Structural)]
pub struct UserConfig {
    pub expired_config: ExpiredConfig,
    pub preview_config: PreviewConfig,
}

impl Default for UserConfig {
    /// Seven days of text, three of images and files, twenty preview rows.
    fn default() -> (r: Self)
        ensures
            r.expired_config.text == 7,
            r.expired_config.img == 3,
            r.expired_config.file == 3,
            r.preview_config.preview_number == 20,
    {
        UserConfig {
            expired_config: ExpiredConfig { text: 7, img: 3, file: 3 },
            preview_config: PreviewConfig { preview_number: 20 },
        }
    }
}

/// The resolved configuration: data directories plus the user part.
#[derive(Debug)]
pub struct Config {
    pub db_path: String,
    pub files_path: String,
    pub logs_path: String,
    pub user_config: UserConfig,
}

/// A retention configuration whose cutoffs can be computed at `now`
/// without leaving the machine's integer range.
pub open spec fn spec_ttl_in_range(c: ExpiredConfig, now: i64) -> bool {
    &&& 0 <= c.text && c.text * 86400 <= i64::MAX && i64::MIN + c.text * 86400 <= now
    &&& 0 <= c.img && c.img * 86400 <= i64::MAX && i64::MIN + c.img * 86400 <= now
    &&& 0 <= c.file && c.file * 86400 <= i64::MAX && i64::MIN + c.file * 86400 <= now
}

/// The per-type retention cutoffs at `now`: text, image, file.
pub open spec fn spec_expired_ts(c: ExpiredConfig, now: i64) -> (i64, i64, i64) {
    (
        ((now - c.text * 86400) as i64),
        ((now - c.img * 86400) as i64),
        ((now - c.file * 86400) as i64),
    )
}

impl Config {
    /// Assembles a configuration from resolved directories and the user
    /// part.
    pub fn new(
        db_path: String,
        files_path: String,
        logs_path: String,
        user_config: UserConfig,
    ) -> (r: Self)
        ensures
            r.db_path@ == db_path@,
            r.files_path@ == files_path@,
            r.logs_path@ == logs_path@,
            r.user_config == user_config,
    {
        Config { db_path, files_path, logs_path, user_config }
    }

    /// The retention cutoffs at `now`, one per type (text, image, file):
    /// `now` minus the configured days.
    pub fn get_expired_ts(&self, now: i64) -> (r: (i64, i64, i64))
        requires
            spec_ttl_in_range(self.user_config.expired_config, now),
        ensures
            r == spec_expired_ts(self.user_config.expired_config, now),
    {
        let e = &self.user_config.expired_config;
        (now - e.text * 86400, now - e.img * 86400, now - e.file * 86400)
    }
}

} // verus!
