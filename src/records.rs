//! Records the host keeps on disk or shows to the user.

use vstd::prelude::*;
use crate::types::DownloadTask;

verus! {

/// The queue snapshot: every task, in table order.
#[derive(Debug, Clone)]
pub struct QueueState {
    pub tasks: Vec<DownloadTask>,
}

/// What an update check found.
#[derive(Debug, Clone)]
pub struct UpdateInfo {
    pub available: bool,
    pub current_version: String,
    pub latest_version: Option<String>,
    pub body: Option<String>,
    pub date: Option<String>,
}

impl UpdateInfo {
    /// The report for a check that found `latest` (version, notes, date),
    /// or nothing newer than `current_version`.
    pub fn from_check(current_version: String, latest: Option<(String, Option<String>, Option<String>)>) -> (r: UpdateInfo)
        ensures
            r.current_version == current_version,
            r.available == latest is Some,
            latest is None ==> r.latest_version is None && r.body is None && r.date is None,
            latest matches Some(found) ==> r.latest_version == Some(found.0) && r.body == found.1 && r.date == found.2,
    {
        match latest {
            Some((version, body, date)) => UpdateInfo {
                available: true,
                current_version,
                latest_version: Some(version),
                body,
                date,
            },
            None => UpdateInfo { available: false, current_version, latest_version: None, body: None, date: None },
        }
    }
}

} // verus!
