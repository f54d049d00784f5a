//! Configuration: the settings sections without floating-point weights,
//! their defaults, the default scoring term lists, and the check that the
//! credentials were actually filled in.

use vstd::prelude::*;
use crate::error::Error;
use crate::text::{str_eq, trim, trim_str};

verus! {

pub struct PathsConfig {
    pub library: String,
    pub downloads: String,
    pub staging: String,
    pub database: String,
}

pub struct LidarrConfig {
    pub base_url: String,
    pub cache_dir: String,
    pub cache_ttl_secs: u64,
    pub max_retries: u32,
}

pub struct CoverArtConfig {
    pub base_url: String,
    /// Disk cache for fetched covers; `None` means the default under the OS
    /// cache directory.
    pub cache_dir: Option<String>,
    /// How long a cached cover is served.
    pub cache_ttl_secs: u64,
    /// How long a cached "no cover" answer is believed.
    pub negative_ttl_secs: u64,
    /// Whether the iTunes Search API is asked when the archive has no cover.
    pub itunes_fallback: bool,
    /// The iTunes storefront searched.
    pub itunes_country: String,
}

pub struct YtConfig {
    pub yt_dlp_path: String,
    /// Netscape-format cookie jar handed to yt-dlp.
    pub cookies: Option<String>,
    /// Browser yt-dlp takes cookies from.
    pub cookies_from_browser: Option<String>,
}

pub struct QualityConfig {
    pub target_samplerate: u32,
    pub target_bitdepth: u16,
}

pub const DEFAULT_MB_BASE_URL: &'static str = "https://musicbrainz.org/ws/2";

pub const DEFAULT_LIDARR_BASE_URL: &'static str = "https://api.lidarr.audio/api/v0.4";

pub const DEFAULT_COVER_ART_BASE_URL: &'static str = "https://coverartarchive.org";

pub const DEFAULT_YT_DLP_PATH: &'static str = "yt-dlp";

pub const DEFAULT_SLSKD_BASE_URL: &'static str = "http://127.0.0.1:8111";

/// Thirty days.
pub const DEFAULT_CACHE_TTL_SECS: u64 = 2592000;

pub const DEFAULT_MAX_RETRIES: u32 = 5;

pub const DEFAULT_FETCH_TIMEOUT_BASE_SECS: u64 = 30;

pub const DEFAULT_SLSKD_REQUEST_TIMEOUT_SECS: u64 = 30;

pub const DEFAULT_SAMPLERATE: u32 = 44100;

pub const DEFAULT_BITDEPTH: u16 = 16;

pub const DEFAULT_ITUNES_COUNTRY: &'static str = "JP";

impl Default for CoverArtConfig {
    fn default() -> (c: Self)
        ensures
            c.base_url@ == DEFAULT_COVER_ART_BASE_URL@,
            c.cache_dir is None,
            c.cache_ttl_secs == DEFAULT_CACHE_TTL_SECS,
            c.negative_ttl_secs == DEFAULT_CACHE_TTL_SECS,
            c.itunes_fallback,
            c.itunes_country@ == DEFAULT_ITUNES_COUNTRY@,
    {
        CoverArtConfig {
            base_url: DEFAULT_COVER_ART_BASE_URL.to_string(),
            cache_dir: None,
            cache_ttl_secs: DEFAULT_CACHE_TTL_SECS,
            negative_ttl_secs: DEFAULT_CACHE_TTL_SECS,
            itunes_fallback: true,
            itunes_country: DEFAULT_ITUNES_COUNTRY.to_string(),
        }
    }
}

impl Default for YtConfig {
    fn default() -> (c: Self)
        ensures
            c.yt_dlp_path@ == DEFAULT_YT_DLP_PATH@,
            c.cookies is None,
            c.cookies_from_browser is None,
    {
        YtConfig { yt_dlp_path: DEFAULT_YT_DLP_PATH.to_string(), cookies: None, cookies_from_browser: None }
    }
}

impl Default for QualityConfig {
    fn default() -> (c: Self)
        ensures
            c.target_samplerate == DEFAULT_SAMPLERATE,
            c.target_bitdepth == DEFAULT_BITDEPTH,
    {
        QualityConfig { target_samplerate: DEFAULT_SAMPLERATE, target_bitdepth: DEFAULT_BITDEPTH }
    }
}

fn strings(list: &[&str]) -> (v: Vec<String>)
    ensures
        crate::text::strs_view(v@) == list@.map_values(|s: &str| s@),
{
    let mut v: Vec<String> = Vec::new();
    let mut i: usize = 0;
    while i < list.len()
        invariant
            i <= list@.len(),
            v@.len() == i,
            forall|k: int| 0 <= k < i ==> (#[trigger] v@[k])@ == list@[k]@,
        decreases list@.len() - i,
    {
        v.push(list[i].to_string());
        i = i + 1;
    }
    assert(crate::text::strs_view(v@) =~= list@.map_values(|s: &str| s@));
    v
}

/// Title terms that cost the most: live, remix, karaoke, commentary,
/// interview, rehearsal.
pub fn default_strong_terms() -> (v: Vec<String>)
    ensures
        crate::text::strs_view(v@) == seq![
            "live"@,
            "remix"@,
            "karaoke"@,
            "commentary"@,
            "interview"@,
            "rehearsal"@,
        ],
{
    let l = ["live", "remix", "karaoke", "commentary", "interview", "rehearsal"];
    let v = strings(&l);
    assert(l@.map_values(|s: &str| s@) =~= seq![
        "live"@,
        "remix"@,
        "karaoke"@,
        "commentary"@,
        "interview"@,
        "rehearsal"@,
    ]);
    v
}

/// Demo, instrumental, acoustic, alternate take, alt take, session.
pub fn default_medium_terms() -> (v: Vec<String>)
    ensures
        crate::text::strs_view(v@) == seq![
            "demo"@,
            "instrumental"@,
            "acoustic"@,
            "alternate take"@,
            "alt take"@,
            "session"@,
        ],
{
    let l = ["demo", "instrumental", "acoustic", "alternate take", "alt take", "session"];
    let v = strings(&l);
    assert(l@.map_values(|s: &str| s@) =~= seq![
        "demo"@,
        "instrumental"@,
        "acoustic"@,
        "alternate take"@,
        "alt take"@,
        "session"@,
    ]);
    v
}

/// Radio edit, edit, version.
pub fn default_weak_terms() -> (v: Vec<String>)
    ensures
        crate::text::strs_view(v@) == seq!["radio edit"@, "edit"@, "version"@],
{
    let l = ["radio edit", "edit", "version"];
    let v = strings(&l);
    assert(l@.map_values(|s: &str| s@) =~= seq!["radio edit"@, "edit"@, "version"@]);
    v
}

/// Secondary release-group types that are penalised: compilation, live,
/// remix, demo, interview, spokenword.
pub fn default_secondary_types() -> (v: Vec<String>)
    ensures
        crate::text::strs_view(v@) == seq![
            "compilation"@,
            "live"@,
            "remix"@,
            "demo"@,
            "interview"@,
            "spokenword"@,
        ],
{
    let l = ["compilation", "live", "remix", "demo", "interview", "spokenword"];
    let v = strings(&l);
    assert(l@.map_values(|s: &str| s@) =~= seq![
        "compilation"@,
        "live"@,
        "remix"@,
        "demo"@,
        "interview"@,
        "spokenword"@,
    ]);
    v
}

/// The placeholder a fresh config ships with.
pub const UNSET_SENTINEL: &'static str = "CHANGE_ME";

/// A setting left blank or at the placeholder.
pub open spec fn is_unset_spec(v: Seq<char>) -> bool {
    trim(v).len() == 0 || trim(v) == UNSET_SENTINEL@
}

pub fn is_unset(value: &str) -> (r: bool)
    ensures
        r == is_unset_spec(value@),
{
    let t = trim_str(value);
    crate::text::char_count(t.as_str()) == 0 || str_eq(t.as_str(), UNSET_SENTINEL)
}

/// Refuses a config whose MB user agent, slskd username or slskd password
/// was not filled in (checked in that order).
pub fn check_credentials(user_agent: &str, username: &str, password: &str) -> (r: Result<(), Error>)
    ensures
        is_unset_spec(user_agent@) ==> (r matches Err(Error::MbUserAgentUnset { value }) && value@
            == user_agent@),
        !is_unset_spec(user_agent@) && is_unset_spec(username@) ==> (r matches Err(
            Error::SlskdCredsUnset { field, value },
        ) && field@ == "username"@ && value@ == username@),
        !is_unset_spec(user_agent@) && !is_unset_spec(username@) && is_unset_spec(password@) ==> (
        r matches Err(Error::SlskdCredsUnset { field, value }) && field@ == "password"@ && value@
            == password@),
        !is_unset_spec(user_agent@) && !is_unset_spec(username@) && !is_unset_spec(password@) ==> r
            is Ok,
{
    if is_unset(user_agent) {
        return Err(Error::MbUserAgentUnset { value: user_agent.to_string() });
    }
    if is_unset(username) {
        return Err(
            Error::SlskdCredsUnset {
                field: String::from_str("username"),
                value: username.to_string(),
            },
        );
    }
    if is_unset(password) {
        return Err(
            Error::SlskdCredsUnset {
                field: String::from_str("password"),
                value: password.to_string(),
            },
        );
    }
    Ok(())
}

} // verus!
