//! The Lidarr metadata proxy: the wire types the crate reads and the rules
//! of its HTTP client.

use vstd::prelude::*;
use crate::error::Error;
use crate::mb::{path_segments, path_segments_of, urlencode, urlencode_spec};
use crate::text::{push_char, str_eq};
use vstd::string::StringSliceAdditionalSpecFns;

verus! {

pub struct ArtistResource {
    pub id: String,
    pub artist_name: String,
    pub sort_name: Option<String>,
    pub disambiguation: Option<String>,
    pub artist_type: Option<String>,
    pub status: Option<String>,
    pub genres: Vec<String>,
    /// Empty on search results; summary-only on lookups.
    pub albums: Vec<AlbumSummary>,
}

pub struct AlbumSummary {
    pub id: String,
    pub title: String,
    pub album_type: Option<String>,
    pub secondary_types: Vec<String>,
    pub release_statuses: Vec<String>,
    pub release_date: Option<String>,
}

pub struct AlbumResource {
    pub id: String,
    pub title: String,
    pub disambiguation: Option<String>,
    pub release_date: Option<String>,
    pub album_type: Option<String>,
    pub secondary_types: Vec<String>,
    pub releases: Vec<ReleaseResource>,
}

pub struct ReleaseResource {
    pub id: String,
    pub title: String,
    pub status: Option<String>,
    pub disambiguation: Option<String>,
    pub country: Vec<String>,
    pub label: Vec<String>,
    pub media: Vec<MediaResource>,
    pub release_date: Option<String>,
    pub track_count: u32,
    pub tracks: Vec<TrackResource>,
}

pub struct MediaResource {
    pub position: Option<u32>,
    pub format: Option<String>,
}

pub struct TrackResource {
    pub id: String,
    pub recording_id: Option<String>,
    pub old_recording_ids: Vec<String>,
    pub track_name: String,
    pub track_number: Option<String>,
    pub duration_ms: Option<u64>,
    pub medium_number: Option<u32>,
}

pub open spec fn pairs_text(pairs: Seq<(Seq<char>, Seq<u8>)>) -> Seq<char>
    decreases pairs.len(),
{
    if pairs.len() == 0 {
        Seq::empty()
    } else if pairs.len() == 1 {
        pairs[0].0 + seq!['='] + urlencode_spec(pairs[0].1)
    } else {
        pairs_text(pairs.drop_last()) + seq!['&'] + pairs.last().0 + seq!['='] + urlencode_spec(
            pairs.last().1,
        )
    }
}

/// `<base><path>`, then `?` and the `key=value` pairs joined by `&`, the
/// values percent-encoded; no `?` when there are no pairs.
pub fn request_url(base_url: &str, path: &str, extra_query: &[(&str, &str)]) -> (r: String)
    ensures
        extra_query@.len() == 0 ==> r@ == base_url@ + path@,
        extra_query@.len() > 0 ==> r@ == base_url@ + path@ + seq!['?'] + pairs_text(
            crate::mb::pair_views(extra_query@),
        ),
{
    let mut url = String::new();
    url.append(base_url);
    url.append(path);
    if extra_query.len() == 0 {
        return url;
    }
    push_char(&mut url, '?');
    let ghost head = url@;
    let mut i: usize = 0;
    while i < extra_query.len()
        invariant
            i <= extra_query@.len(),
            url@ == head + pairs_text(crate::mb::pair_views(extra_query@.subrange(0, i as int))),
        decreases extra_query@.len() - i,
    {
        let (k, v) = extra_query[i];
        let ghost pv = crate::mb::pair_views(extra_query@.subrange(0, i + 1));
        assert(pv.drop_last() =~= crate::mb::pair_views(extra_query@.subrange(0, i as int)));
        if i > 0 {
            push_char(&mut url, '&');
        }
        url.append(k);
        push_char(&mut url, '=');
        let e = urlencode(v);
        url.append(e.as_str());
        proof {
            if i == 0 {
                assert(pairs_text(crate::mb::pair_views(extra_query@.subrange(0, 0))) =~= Seq::<
                    char,
                >::empty());
            }
        }
        assert(url@ =~= head + pairs_text(pv));
        i = i + 1;
    }
    assert(extra_query@.subrange(0, extra_query@.len() as int) =~= extra_query@);
    url
}

pub open spec fn lidarr_entity(seg: Seq<char>) -> Seq<char> {
    if seg == "artist"@ || seg == "album"@ {
        seg
    } else {
        "entity"@
    }
}

/// The error for a 404 on `path`: the entity named by its first segment
/// (`artist`, `album`, else `entity`) and the mbid in its second.
pub fn not_found(path: &str) -> (e: Error)
    ensures
        e matches Error::LidarrNotFound { entity, mbid } && entity@ == lidarr_entity(
            path_segments(path@).0,
        ) && mbid@ == path_segments(path@).1,
{
    let (first, mbid) = path_segments_of(path);
    let entity = if str_eq(first.as_str(), "artist") || str_eq(first.as_str(), "album") {
        first
    } else {
        String::from_str("entity")
    };
    Error::LidarrNotFound { entity, mbid }
}

/// The error a failed status ends a proxy fetch with: a 404 names what was
/// missing, a retryable status that ran out of attempts reports the
/// attempts, anything else carries the status and body.
pub fn status_error(path: &str, code: u16, attempts: u32, body: String) -> (e: Error)
    ensures
        code == 404 ==> (e matches Error::LidarrNotFound { entity, mbid } && entity@
            == lidarr_entity(path_segments(path@).0) && mbid@ == path_segments(path@).1),
        code != 404 && crate::mb::lidarr_retryable(code) ==> e == (Error::LidarrUnavailable {
            attempts,
        }),
        code != 404 && !crate::mb::lidarr_retryable(code) ==> (e matches Error::Lidarr {
            what,
            status,
            body: b,
        } && what@ == "request"@ && status == code && b@ == body@),
{
    if code == 404 {
        return not_found(path);
    }
    if code == 429 || code == 500 || code == 502 || code == 503 || code == 504 {
        return Error::LidarrUnavailable { attempts };
    }
    Error::Lidarr { what: String::from_str("request"), status: code, body }
}

} // verus!
