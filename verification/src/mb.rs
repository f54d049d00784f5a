//! MusicBrainz: the wire types the rest of the crate reads, the Lucene query
//! text sent to its search endpoints, and the rules of its HTTP client (URL
//! building, retry decisions, error mapping).

use vstd::prelude::*;
use vstd::string::StringSliceAdditionalSpecFns;
use crate::error::Error;
use crate::text::{before_char, before_char_str, char_count, chars_of, push_char, split_at_char, split_char_once, string_of, trim, trim_str};

verus! {

pub struct ArtistSearchResponse {
    pub artists: Vec<ArtistSearchResult>,
}

pub struct ArtistSearchResult {
    pub id: String,
    pub name: String,
    pub sort_name: Option<String>,
    pub disambiguation: Option<String>,
    pub country: Option<String>,
    pub artist_type: Option<String>,
    pub score: Option<u32>,
}

pub struct Artist {
    pub id: String,
    pub name: String,
    pub sort_name: Option<String>,
    pub disambiguation: Option<String>,
    pub country: Option<String>,
    pub artist_type: Option<String>,
}

pub struct ReleaseBrowseResponse {
    pub releases: Vec<Release>,
}

pub struct Release {
    pub id: String,
    pub title: String,
    pub status: Option<String>,
    pub date: Option<String>,
    pub country: Option<String>,
    pub disambiguation: Option<String>,
    pub media: Vec<Media>,
    pub label_info: Vec<LabelInfo>,
    pub artist_credit: Vec<ArtistCreditItem>,
    pub release_group: Option<ReleaseGroup>,
}

pub struct Media {
    pub format: Option<String>,
    pub position: Option<u32>,
    pub track_count: u32,
    pub tracks: Vec<Track>,
}

pub struct Track {
    pub id: String,
    pub number: String,
    pub title: String,
    pub length: Option<u64>,
    pub recording: Recording,
}

pub struct Recording {
    pub id: String,
    pub title: String,
    pub length: Option<u64>,
}

pub struct LabelInfo {
    pub label: Option<Label>,
}

pub struct Label {
    pub name: String,
}

pub struct ReleaseGroup {
    pub id: String,
    pub title: String,
    pub primary_type: Option<String>,
    pub secondary_types: Vec<String>,
}

pub struct RecordingSearchResponse {
    pub recordings: Vec<RecordingSearchResult>,
}

pub struct RecordingSearchResult {
    pub id: String,
    pub title: String,
    pub length: Option<u64>,
    pub score: Option<u32>,
    pub artist_credit: Vec<ArtistCreditItem>,
}

/// The artist a credit names.
pub struct ArtistRef {
    pub id: String,
    pub name: String,
}

pub struct ArtistCreditItem {
    pub name: String,
    pub join_phrase: String,
    pub artist: ArtistRef,
}

/// An alternative name of an MB entity (romanizations among them).
pub struct Alias {
    pub name: String,
    pub sort_name: Option<String>,
    pub alias_type: Option<String>,
    pub primary: Option<bool>,
    pub locale: Option<String>,
}

pub struct AliasList {
    pub aliases: Vec<Alias>,
}

// ---------------------------------------------------------------------------
// Artist credit
// ---------------------------------------------------------------------------

pub open spec fn credit_text(credits: Seq<ArtistCreditItem>) -> Seq<char>
    decreases credits.len(),
{
    if credits.len() == 0 {
        Seq::empty()
    } else {
        credit_text(credits.drop_last()) + credits.last().name@ + credits.last().join_phrase@
    }
}

/// Joins the artist-credit array into one display string: every name followed
/// by its join phrase; `None` for an empty credit.
pub fn join_artist_credit(credits: &[ArtistCreditItem]) -> (r: Option<String>)
    ensures
        credits@.len() == 0 ==> r is None,
        credits@.len() > 0 ==> (r matches Some(s) && s@ == credit_text(credits@)),
{
    if credits.len() == 0 {
        return None;
    }
    let mut out = String::new();
    let mut i: usize = 0;
    while i < credits.len()
        invariant
            i <= credits@.len(),
            out@ == credit_text(credits@.subrange(0, i as int)),
        decreases credits@.len() - i,
    {
        assert(credits@.subrange(0, i + 1).drop_last() =~= credits@.subrange(0, i as int));
        out.append(credits[i].name.as_str());
        out.append(credits[i].join_phrase.as_str());
        i = i + 1;
    }
    assert(credits@.subrange(0, credits@.len() as int) =~= credits@);
    Some(out)
}

// ---------------------------------------------------------------------------
// Lucene query text
// ---------------------------------------------------------------------------

pub open spec fn is_lucene_special(c: char) -> bool {
    c == '+' || c == '-' || c == '&' || c == '|' || c == '!' || c == '(' || c == ')' || c == '{'
        || c == '}' || c == '[' || c == ']' || c == '^' || c == '"' || c == '~' || c == '*'
        || c == '?' || c == ':' || c == '\\' || c == '/'
}

/// Every character, with a backslash before each that `escape` selects.
pub open spec fn backslash_escape(s: Seq<char>, escape: spec_fn(char) -> bool) -> Seq<char>
    decreases s.len(),
{
    if s.len() == 0 {
        Seq::empty()
    } else {
        let c = s.last();
        backslash_escape(s.drop_last(), escape) + if escape(c) {
            seq!['\\', c]
        } else {
            seq![c]
        }
    }
}

pub open spec fn escape_lucene_spec(s: Seq<char>) -> Seq<char> {
    backslash_escape(s, |c: char| is_lucene_special(c))
}

fn is_lucene_special_exec(c: char) -> (r: bool)
    ensures
        r == is_lucene_special(c),
{
    c == '+' || c == '-' || c == '&' || c == '|' || c == '!' || c == '(' || c == ')' || c == '{'
        || c == '}' || c == '[' || c == ']' || c == '^' || c == '"' || c == '~' || c == '*'
        || c == '?' || c == ':' || c == '\\' || c == '/'
}

/// Backslash-escapes every Lucene query metacharacter.
pub fn escape_lucene(s: &str) -> (r: String)
    ensures
        r@ == escape_lucene_spec(s@),
{
    let cs = chars_of(s);
    let mut out = String::new();
    let mut i: usize = 0;
    while i < cs.len()
        invariant
            cs@ == s@,
            i <= cs@.len(),
            out@ == escape_lucene_spec(s@.subrange(0, i as int)),
        decreases cs@.len() - i,
    {
        assert(s@.subrange(0, i + 1).drop_last() =~= s@.subrange(0, i as int));
        let c = cs[i];
        if is_lucene_special_exec(c) {
            push_char(&mut out, '\\');
        }
        push_char(&mut out, c);
        proof {
            let p = s@.subrange(0, i + 1);
            assert(p.last() == c);
            let e = |c: char| is_lucene_special(c);
            assert(escape_lucene_spec(p) == backslash_escape(p.drop_last(), e) + if e(c) {
                seq!['\\', c]
            } else {
                seq![c]
            });
        }
        assert(out@ =~= escape_lucene_spec(s@.subrange(0, i + 1)));
        i = i + 1;
    }
    assert(s@.subrange(0, cs@.len() as int) =~= s@);
    out
}

pub open spec fn lucene_phrase_spec(s: Seq<char>) -> Seq<char> {
    seq!['"'] + backslash_escape(s, |c: char| c == '"' || c == '\\') + seq!['"']
}

/// `s` as one quoted Lucene phrase: double quotes around it, and a backslash
/// before each `"` and `\` inside.
pub fn lucene_phrase(s: &str) -> (r: String)
    ensures
        r@ == lucene_phrase_spec(s@),
{
    let cs = chars_of(s);
    let mut body = String::new();
    let mut i: usize = 0;
    let ghost e = |c: char| c == '"' || c == '\\';
    while i < cs.len()
        invariant
            cs@ == s@,
            i <= cs@.len(),
            e == (|c: char| c == '"' || c == '\\'),
            body@ == backslash_escape(s@.subrange(0, i as int), e),
        decreases cs@.len() - i,
    {
        assert(s@.subrange(0, i + 1).drop_last() =~= s@.subrange(0, i as int));
        let c = cs[i];
        if c == '"' || c == '\\' {
            push_char(&mut body, '\\');
        }
        push_char(&mut body, c);
        proof {
            let p = s@.subrange(0, i + 1);
            assert(p.last() == c);
        }
        assert(body@ =~= backslash_escape(s@.subrange(0, i + 1), e));
        i = i + 1;
    }
    assert(s@.subrange(0, cs@.len() as int) =~= s@);
    let mut out = String::new();
    push_char(&mut out, '"');
    out.append(body.as_str());
    push_char(&mut out, '"');
    assert(out@ =~= lucene_phrase_spec(s@));
    out
}

/// The `query` parameter of a field search, or `None` for a blank query (the
/// search then returns nothing without a request).
pub open spec fn field_query_spec(field: Seq<char>, query: Seq<char>) -> Option<Seq<char>> {
    if trim(query).len() == 0 {
        None
    } else {
        Some(field + seq![':'] + lucene_phrase_spec(query))
    }
}

fn field_query(field: &str, query: &str) -> (r: Option<String>)
    ensures
        r matches Some(s) ==> field_query_spec(field@, query@) == Some(s@),
        r is None ==> field_query_spec(field@, query@) is None,
{
    let t = trim_str(query);
    if char_count(t.as_str()) == 0 {
        return None;
    }
    let mut q = String::new();
    q.append(field);
    push_char(&mut q, ':');
    let p = lucene_phrase(query);
    q.append(p.as_str());
    Some(q)
}

/// Lucene query of an artist-name search: `artist:"<name>"`.
pub fn artist_search_query(query: &str) -> (r: Option<String>)
    ensures
        r matches Some(s) ==> field_query_spec("artist"@, query@) == Some(s@),
        r is None ==> field_query_spec("artist"@, query@) is None,
{
    field_query("artist", query)
}

/// Lucene query of a recording-title search: `recording:"<title>"`.
pub fn recording_search_query(query: &str) -> (r: Option<String>)
    ensures
        r matches Some(s) ==> field_query_spec("recording"@, query@) == Some(s@),
        r is None ==> field_query_spec("recording"@, query@) is None,
{
    field_query("recording", query)
}

// ---------------------------------------------------------------------------
// URLs
// ---------------------------------------------------------------------------

pub open spec fn is_unreserved(b: u8) -> bool {
    (65 <= b <= 90) || (97 <= b <= 122) || (48 <= b <= 57) || b == 45 || b == 95 || b == 46
        || b == 126
}

pub open spec fn hex_upper(d: int) -> char {
    if d < 10 {
        ((d + 48) as u32) as char
    } else {
        ((d + 55) as u32) as char
    }
}

/// Percent-encoding of UTF-8 bytes: unreserved bytes stay, every other byte
/// becomes `%XX` in upper-case hex.
pub open spec fn urlencode_spec(bytes: Seq<u8>) -> Seq<char>
    decreases bytes.len(),
{
    if bytes.len() == 0 {
        Seq::empty()
    } else {
        let b = bytes.last();
        urlencode_spec(bytes.drop_last()) + if is_unreserved(b) {
            seq![(b as u32) as char]
        } else {
            seq!['%', hex_upper((b / 16) as int), hex_upper((b % 16) as int)]
        }
    }
}

fn hex_digit(d: u8) -> (c: char)
    requires
        d < 16,
    ensures
        c == hex_upper(d as int),
{
    if d < 10 {
        (d + 48) as char
    } else {
        (d + 55) as char
    }
}

/// Percent-encodes `s` byte by byte for a query-string value.
pub fn urlencode(s: &str) -> (r: String)
    ensures
        r@ == urlencode_spec(s.spec_bytes()),
{
    let bs = s.as_bytes();
    let mut out = String::new();
    let mut i: usize = 0;
    while i < bs.len()
        invariant
            bs@ == s.spec_bytes(),
            i <= bs@.len(),
            out@ == urlencode_spec(bs@.subrange(0, i as int)),
        decreases bs@.len() - i,
    {
        let b = bs[i];
        let ghost p = bs@.subrange(0, i + 1);
        assert(p.drop_last() =~= bs@.subrange(0, i as int));
        assert(p.last() == b);
        if (65 <= b && b <= 90) || (97 <= b && b <= 122) || (48 <= b && b <= 57) || b == 45 || b
            == 95 || b == 46 || b == 126 {
            push_char(&mut out, b as char);
        } else {
            push_char(&mut out, '%');
            push_char(&mut out, hex_digit(b / 16));
            push_char(&mut out, hex_digit(b % 16));
        }
        assert(out@ =~= urlencode_spec(p));
        i = i + 1;
    }
    assert(bs@.subrange(0, bs@.len() as int) =~= bs@);
    out
}

pub open spec fn query_tail(pairs: Seq<(Seq<char>, Seq<u8>)>) -> Seq<char>
    decreases pairs.len(),
{
    if pairs.len() == 0 {
        Seq::empty()
    } else {
        query_tail(pairs.drop_last()) + seq!['&'] + pairs.last().0 + seq!['='] + urlencode_spec(
            pairs.last().1,
        )
    }
}

pub open spec fn pair_views(pairs: Seq<(&str, &str)>) -> Seq<(Seq<char>, Seq<u8>)> {
    pairs.map_values(|p: (&str, &str)| (p.0@, p.1.spec_bytes()))
}

/// The JSON request URL: `<base><path>?fmt=json`, then `&key=value` for each
/// extra pair with the value percent-encoded.
pub fn request_url(base_url: &str, path: &str, extra_query: &[(&str, &str)]) -> (r: String)
    ensures
        r@ == base_url@ + path@ + "?fmt=json"@ + query_tail(pair_views(extra_query@)),
{
    let mut url = String::new();
    url.append(base_url);
    url.append(path);
    url.append("?fmt=json");
    let ghost head = url@;
    let mut i: usize = 0;
    while i < extra_query.len()
        invariant
            i <= extra_query@.len(),
            url@ == head + query_tail(pair_views(extra_query@.subrange(0, i as int))),
        decreases extra_query@.len() - i,
    {
        let (k, v) = extra_query[i];
        assert(pair_views(extra_query@.subrange(0, i + 1)).drop_last() =~= pair_views(
            extra_query@.subrange(0, i as int),
        ));
        push_char(&mut url, '&');
        url.append(k);
        push_char(&mut url, '=');
        let e = urlencode(v);
        url.append(e.as_str());
        assert(url@ =~= head + query_tail(pair_views(extra_query@.subrange(0, i + 1))));
        i = i + 1;
    }
    assert(extra_query@.subrange(0, extra_query@.len() as int) =~= extra_query@);
    url
}

/// `s` without every trailing `c` (`str::trim_end_matches` with a char).
pub open spec fn trim_end_char(s: Seq<char>, c: char) -> Seq<char>
    decreases s.len(),
{
    if s.len() > 0 && s.last() == c {
        trim_end_char(s.drop_last(), c)
    } else {
        s
    }
}

/// `s` without every leading `c` (`str::trim_start_matches` with a char).
pub open spec fn trim_start_char(s: Seq<char>, c: char) -> Seq<char>
    decreases s.len(),
{
    if s.len() > 0 && s[0] == c {
        trim_start_char(s.drop_first(), c)
    } else {
        s
    }
}

/// `s` with every trailing `c` removed.
pub fn trim_end_char_str(s: &str, c: char) -> (r: String)
    ensures
        r@ == trim_end_char(s@, c),
{
    let cs = chars_of(s);
    let mut n: usize = cs.len();
    assert(cs@.subrange(0, n as int) =~= s@);
    while n > 0 && cs[n - 1] == c
        invariant
            cs@ == s@,
            n <= cs@.len(),
            trim_end_char(cs@.subrange(0, n as int), c) == trim_end_char(s@, c),
        decreases n,
    {
        assert(cs@.subrange(0, n as int).drop_last() =~= cs@.subrange(0, n - 1));
        n = n - 1;
    }
    assert(trim_end_char(cs@.subrange(0, n as int), c) == cs@.subrange(0, n as int));
    string_of(crate::text::slice_range(&cs, 0, n))
}

/// `s` with every leading `c` removed.
pub fn trim_start_char_str(s: &str, c: char) -> (r: String)
    ensures
        r@ == trim_start_char(s@, c),
{
    let cs = chars_of(s);
    let n: usize = cs.len();
    let mut i: usize = 0;
    assert(cs@.subrange(0, n as int) =~= s@);
    while i < n && cs[i] == c
        invariant
            cs@ == s@,
            n == cs@.len(),
            i <= n,
            trim_start_char(cs@.subrange(i as int, n as int), c) == trim_start_char(s@, c),
        decreases n - i,
    {
        assert(cs@.subrange(i as int, n as int).drop_first() =~= cs@.subrange(i + 1, n as int));
        i = i + 1;
    }
    assert(cs@.subrange(0, n as int) =~= s@);
    string_of(crate::text::slice_range(&cs, i, n))
}

// ---------------------------------------------------------------------------
// Retry policy
// ---------------------------------------------------------------------------

/// Longest honoured `Retry-After`, in seconds.
pub const MAX_RETRY_AFTER_SECS: u64 = 60;

/// `500 ms * 2^min(attempt, 6)`.
pub open spec fn backoff_spec(attempt: u32) -> u64 {
    let e: int = if attempt < 6 { attempt as int } else { 6 };
    (500 * vstd::arithmetic::power2::pow2(e as nat)) as u64
}

/// Exponential backoff before retry number `attempt`, in milliseconds.
pub fn backoff_millis(attempt: u32) -> (r: u64)
    ensures
        r == backoff_spec(attempt),
        500 <= r <= 32000,
{
    let e: u32 = if attempt < 6 { attempt } else { 6 };
    let mut p: u64 = 1;
    let mut i: u32 = 0;
    proof {
        vstd::arithmetic::power2::lemma2_to64();
    }
    while i < e
        invariant
            i <= e <= 6,
            p == vstd::arithmetic::power2::pow2(i as nat),
            p <= 64,
        decreases e - i,
    {
        proof {
            vstd::arithmetic::power2::lemma_pow2_unfold((i + 1) as nat);
            vstd::arithmetic::power2::lemma_pow2_strictly_increases(i as nat, 6);
            vstd::arithmetic::power2::lemma2_to64();
        }
        p = p * 2;
        i = i + 1;
    }
    proof {
        vstd::arithmetic::power2::lemma_pow2_pos(e as nat);
        vstd::arithmetic::power2::lemma2_to64();
        if e < 6 {
            vstd::arithmetic::power2::lemma_pow2_strictly_increases(e as nat, 6);
        }
    }
    500 * p
}

/// A `Retry-After` header in whole seconds, capped at the longest honoured
/// wait; `None` when absent or not a plain number.
pub fn retry_after_secs(header: Option<&str>) -> (r: Option<u64>)
    ensures
        match header {
            None => r is None,
            Some(h) => match crate::text::parse_u64_spec(h@) {
                None => r is None,
                Some(v) => r == Some(if v < MAX_RETRY_AFTER_SECS { v } else { MAX_RETRY_AFTER_SECS }),
            },
        },
{
    match header {
        None => None,
        Some(h) => match crate::text::parse_u64(h) {
            None => None,
            Some(v) => Some(if v < MAX_RETRY_AFTER_SECS { v } else { MAX_RETRY_AFTER_SECS }),
        },
    }
}

/// What one request attempt came back with.
pub enum FetchEvent {
    /// The request could not be sent, or its body not read.
    TransportFailed,
    /// A 2xx answer whose body was read.
    Success,
    /// Any other status, with its `Retry-After` in seconds if it had one.
    Status { code: u16, retry_after: Option<u64> },
}

/// What the client does next.
#[derive(PartialEq, Eq, Structural)]
pub enum FetchAction {
    /// Sleep this many milliseconds, then send attempt `attempt + 1`.
    Retry { sleep_millis: u64 },
    /// Hand back the body.
    Done,
    /// Give up with the transport error.
    FailTransport,
    /// Give up on this status (see `status_error`).
    FailStatus,
}

/// Statuses the MB client retries.
pub open spec fn mb_retryable(code: u16) -> bool {
    code == 429 || code == 502 || code == 503 || code == 504
}

/// Statuses the Lidarr proxy client retries (a bare 500 is that backend's
/// overload signal).
pub open spec fn lidarr_retryable(code: u16) -> bool {
    code == 429 || code == 500 || code == 502 || code == 503 || code == 504
}

pub open spec fn fetch_step_spec(
    retryable: bool,
    attempt: u32,
    max_retries: u32,
    event: FetchEvent,
) -> FetchAction {
    match event {
        FetchEvent::TransportFailed => if attempt <= max_retries {
            FetchAction::Retry { sleep_millis: backoff_spec(attempt) }
        } else {
            FetchAction::FailTransport
        },
        FetchEvent::Success => FetchAction::Done,
        FetchEvent::Status { code, retry_after } => if !retryable || attempt > max_retries {
            FetchAction::FailStatus
        } else {
            match retry_after {
                Some(s) => FetchAction::Retry { sleep_millis: (s * 1000) as u64 },
                None => FetchAction::Retry { sleep_millis: backoff_spec(attempt) },
            }
        },
    }
}

/// A fetch is retried only while attempts remain, so it makes at most
/// `max_retries + 1` attempts; a success always ends it.
pub proof fn law_retries_bounded(retryable: bool, attempt: u32, max_retries: u32, event: FetchEvent)
    ensures
        fetch_step_spec(retryable, attempt, max_retries, event) is Retry ==> attempt <= max_retries,
        event is Success ==> fetch_step_spec(retryable, attempt, max_retries, event) is Done,
{
}

/// Next step of a fetch after attempt number `attempt` (counted from 1):
/// transport failures and the retryable statuses are retried up to
/// `max_retries` times, waiting `Retry-After` when the server sent one and the
/// exponential backoff otherwise.
pub fn fetch_step(lidarr: bool, attempt: u32, max_retries: u32, event: FetchEvent) -> (r: FetchAction)
    requires
        event matches FetchEvent::Status { retry_after: Some(s), .. } ==> s <= MAX_RETRY_AFTER_SECS,
    ensures
        r == fetch_step_spec(
            match event {
                FetchEvent::Status { code, .. } => if lidarr {
                    lidarr_retryable(code)
                } else {
                    mb_retryable(code)
                },
                _ => false,
            },
            attempt,
            max_retries,
            event,
        ),
{
    match event {
        FetchEvent::TransportFailed => {
            if attempt <= max_retries {
                FetchAction::Retry { sleep_millis: backoff_millis(attempt) }
            } else {
                FetchAction::FailTransport
            }
        },
        FetchEvent::Success => FetchAction::Done,
        FetchEvent::Status { code, retry_after } => {
            let retryable = if lidarr {
                code == 429 || code == 500 || code == 502 || code == 503 || code == 504
            } else {
                code == 429 || code == 502 || code == 503 || code == 504
            };
            if !retryable || attempt > max_retries {
                FetchAction::FailStatus
            } else {
                match retry_after {
                    Some(s) => FetchAction::Retry { sleep_millis: s * 1000 },
                    None => FetchAction::Retry { sleep_millis: backoff_millis(attempt) },
                }
            }
        },
    }
}

/// The first two `/`-separated segments of `path` after its leading slashes
/// (a missing segment is empty).
pub open spec fn path_segments(path: Seq<char>) -> (Seq<char>, Seq<char>) {
    let p = trim_start_char(path, '/');
    match split_at_char(p, '/') {
        Some((a, rest)) => (a, before_char(rest, '/')),
        None => (p, Seq::empty()),
    }
}

pub open spec fn mb_entity(seg: Seq<char>) -> Seq<char> {
    if seg == "artist"@ || seg == "release"@ || seg == "release-group"@ || seg == "recording"@ {
        seg
    } else {
        "entity"@
    }
}

/// The first two segments of a request path (`/release/<mbid>` gives
/// `release` and the mbid).
pub fn path_segments_of(path: &str) -> (r: (String, String))
    ensures
        (r.0@, r.1@) == path_segments(path@),
{
    let p = trim_start_char_str(path, '/');
    match split_char_once(p.as_str(), '/') {
        Some((a, rest)) => {
            let second = before_char_str(rest.as_str(), '/');
            (a, second)
        },
        None => (p, String::new()),
    }
}

/// The error for a 404 on `path`: the entity named by its first segment and
/// the mbid in its second.
pub fn not_found(path: &str) -> (e: Error)
    ensures
        e matches Error::MbNotFound { entity, mbid } && entity@ == mb_entity(path_segments(path@).0)
            && mbid@ == path_segments(path@).1,
{
    let (first, mbid) = path_segments_of(path);
    let entity = if crate::text::str_eq(first.as_str(), "artist") || crate::text::str_eq(
        first.as_str(),
        "release",
    ) || crate::text::str_eq(first.as_str(), "release-group") || crate::text::str_eq(
        first.as_str(),
        "recording",
    ) {
        first
    } else {
        String::from_str("entity")
    };
    Error::MbNotFound { entity, mbid }
}

/// The error a failed status ends the fetch with: a 404 names what was
/// missing, a retryable status that ran out of attempts reports the attempts,
/// and anything else carries the status and body.
pub fn status_error(path: &str, code: u16, attempts: u32, body: String) -> (e: Error)
    ensures
        code == 404 ==> (e matches Error::MbNotFound { entity, mbid } && entity@ == mb_entity(
            path_segments(path@).0,
        ) && mbid@ == path_segments(path@).1),
        code != 404 && mb_retryable(code) ==> e == (Error::MbRateLimited { attempts }),
        code != 404 && !mb_retryable(code) ==> (e matches Error::Mb { what, status, body: b }
            && what@ == "request"@ && status == code && b@ == body@),
{
    if code == 404 {
        return not_found(path);
    }
    if code == 429 || code == 502 || code == 503 || code == 504 {
        return Error::MbRateLimited { attempts };
    }
    Error::Mb { what: String::from_str("request"), status: code, body }
}

} // verus!
