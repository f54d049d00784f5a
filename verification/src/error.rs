//! Errors the library's rules report.

use vstd::prelude::*;

verus! {

#[derive(Debug)]
pub enum Error {
    Config(String),
    Mb { what: String, status: u16, body: String },
    MbRateLimited { attempts: u32 },
    MbNotFound { entity: String, mbid: String },
    Lidarr { what: String, status: u16, body: String },
    LidarrNotFound { entity: String, mbid: String },
    LidarrUnavailable { attempts: u32 },
    MbUserAgentUnset { value: String },
    SlskdCredsUnset { field: String, value: String },
    SlskdSelectorNotFound { what: String, detail: String },
    Slskd { what: String, status: u16, body: String },
    SlskdAuth { status: u16, body: String },
    SlskdNotFound { what: String },
    SlskdFetchTimeout { username: String, id: String, waited_secs: u64, last_state: String },
    JobNotFound { target: String },
    TrackNotFound { id: i64 },
    QuerySyntax { term: String, reason: String },
    ForceMapping(String),
    TagOverrides(String),
    ConfigInvalid(String),
    CoverPreprocess { path: String, reason: String },
    CoverFetch { url: String, reason: String },
    UnresolvedTitles(String),
    YtTrackNotFound { release_mbid: String, position: u32 },
    YtReleaseNeedsTrack,
    YtTitleRequired,
    YtPlaylistNeedsRelease,
    YtEmptyFetch,
    ToolOutput { tool: String, detail: String },
    ToolMissing { tool: String },
    ToolFailed { tool: String, status: String, stderr: String },
}

} // verus!
