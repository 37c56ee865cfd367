//! Configuration surface: the data directories the application works in,
//! the refresh schedule, and the full application configuration record.
//!
//! Loading the configuration from disk and environment is the embedding
//! program's business; this module holds the configuration data itself and
//! the path and scheduling logic that the rest of the crate is verified
//! against. Paths are plain UTF-8 strings joined with `/`.

use std::str::FromStr;

use vstd::prelude::*;
use vstd::string::StringExecFns;

use crate::source::SourceDefinition;

verus! {

#[verifier::external_type_specification]
#[verifier::external_body]
pub struct ExCronSchedule(cron::Schedule);

/// The directories and files the application reads and writes, all under
/// one data folder.
#[derive(Debug, Clone)]
pub struct Paths {
    /// The directory where the index and config are stored.
    pub root: String,
    /// The path to the index file.
    pub index: String,
    /// The directory where the M3U playlist definitions are stored.
    pub playlists: String,
    /// The directory where audio files are saved.
    pub audio: String,
}

impl Paths {
    pub fn from_root(data_folder: String) -> (r: Self)
        ensures
            r.root@ == data_folder@,
            r.index@ == data_folder@ + "/index.json"@,
            r.playlists@ == data_folder@ + "/playlists"@,
            r.audio@ == data_folder@ + "/audio"@,
    {
        let index = data_folder.clone().concat("/index.json");
        let playlists = data_folder.clone().concat("/playlists");
        let audio = data_folder.clone().concat("/audio");

        Paths { root: data_folder, index, playlists, audio }
    }
}

/// Relies on cron::Schedule::from_str: parses a cron expression;
/// `None` when the expression is not a valid schedule.
#[verifier::external_body]
pub fn parse_schedule(expr: &str) -> (r: Option<cron::Schedule>) {
    cron::Schedule::from_str(expr).ok()
}

/// Relies on cron::Schedule::after: the next scheduled moment, as a
/// Unix timestamp, strictly after the given one — the schedule walks
/// whole seconds forward from one past the given moment. The bound on
/// `after_unix` keeps that one-second successor representable: at the
/// calendar's last representable second the addition would abort.
#[verifier::external_body]
pub fn schedule_next_occurrence(schedule: &cron::Schedule, after_unix: i64) -> (r: Option<i64>)
    requires
        after_unix < 8_000_000_000_000,
    ensures
        r matches Some(t) ==> t > after_unix,
{
    let after = chrono::DateTime::<chrono::Utc>::from_timestamp(after_unix, 0)?;
    schedule.after(&after).next().map(|occurrence| occurrence.timestamp())
}

/// The full application configuration, constructed once at startup and
/// passed by reference to whoever needs it.
#[derive(Debug)]
pub struct AppConfig {
    pub paths: Paths,
    /// Whether thumbnail art is saved next to each track.
    pub save_thumbnails: bool,
    /// The music directory the configured player resolves playlist
    /// entries against, where it differs from the audio directory.
    pub mpd_music_dir: Option<String>,
    pub sources: Vec<SourceDefinition>,
    /// When refreshes happen; a day apart if absent.
    pub refresh_cron: Option<cron::Schedule>,
}

/// The default refresh interval, in seconds: one day.
pub const REFRESH_INTERVAL: i64 = 86400;

/// The moment of the next refresh: the next scheduled occurrence where
/// the schedule has one, a day from now otherwise.
pub fn next_refresh_time(now_unix: i64, scheduled: Option<i64>) -> (r: i64)
    requires
        now_unix <= i64::MAX - 86400,
    ensures
        scheduled matches Some(t) ==> r == t,
        scheduled is None ==> r == now_unix + 86400,
{
    match scheduled {
        Some(t) => t,
        None => now_unix + REFRESH_INTERVAL,
    }
}

/// How long to sleep until the next refresh, in seconds; a moment
/// already past means no sleep.
pub fn refresh_sleep_seconds(now_unix: i64, next_unix: i64) -> (r: u64)
    requires
        0 <= now_unix,
    ensures
        next_unix <= now_unix ==> r == 0,
        next_unix > now_unix ==> r == next_unix - now_unix,
{
    if next_unix > now_unix {
        (next_unix - now_unix) as u64
    } else {
        0
    }
}

} // verus!
