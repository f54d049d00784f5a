//! A release in the one shape the importer works with, whichever metadata
//! source (MusicBrainz or the Lidarr proxy) it came from.

use vstd::prelude::*;
use crate::lidarr;
use crate::mb;
use crate::text::{before_char, before_char_str, copy_opt, copy_strs, opt_view, parse_u32, parse_u32_spec, strs_view};

verus! {

pub struct NormalizedRelease {
    pub id: String,
    pub title: String,
    pub status: Option<String>,
    pub country: Option<String>,
    pub disambiguation: Option<String>,
    pub label: Option<String>,
    pub formats: Vec<String>,
    pub track_count: u32,
    pub date: Option<String>,
    /// Release-level artist credit; `None` from the Lidarr proxy.
    pub artist_credit: Option<String>,
    /// Per-member artist credit (MB only), used to look up per-artist
    /// romanization aliases.
    pub artist_credit_parts: Vec<ArtistCreditPart>,
    /// Release-group mbid (MB only), used to look up a romanized album title.
    pub release_group_id: Option<String>,
    /// Original title, set only when `title` was romanized.
    pub title_native: Option<String>,
    /// Original artist credit, set only when `artist_credit` was romanized.
    pub artist_credit_native: Option<String>,
    /// Set only by a manual override.
    pub genre: Option<String>,
    pub tracks: Vec<NormalizedTrack>,
}

pub struct ArtistCreditPart {
    pub id: String,
    pub name: String,
    pub join_phrase: String,
}

pub struct NormalizedReleaseGroup {
    pub primary_type: Option<String>,
    pub secondary_types: Vec<String>,
}

pub struct NormalizedTrack {
    pub position: Option<u32>,
    pub title: String,
    pub length_ms: Option<u64>,
    pub recording_id: Option<String>,
    pub medium_format: Option<String>,
    /// 1-based disc number; `None` counts as disc 1.
    pub medium_position: Option<u32>,
    pub raw_position: Option<String>,
    /// Original title, set only when `title` was romanized.
    pub title_native: Option<String>,
}

/// The year of a date: its text before the first `-`.
pub open spec fn year_of(date: Option<String>) -> Option<Seq<char>> {
    match date {
        Some(d) => Some(before_char(d@, '-')),
        None => None,
    }
}

impl NormalizedRelease {
    /// First `-`-delimited component of `date` (the year), or `None`.
    pub fn year(&self) -> (r: Option<String>)
        ensures
            opt_view(r) == year_of(self.date),
    {
        match &self.date {
            Some(d) => Some(before_char_str(d.as_str(), '-')),
            None => None,
        }
    }
}

// ---------------------------------------------------------------------------
// From MusicBrainz
// ---------------------------------------------------------------------------

pub open spec fn media_track_total(media: Seq<mb::Media>) -> int
    decreases media.len(),
{
    if media.len() == 0 {
        0
    } else {
        media_track_total(media.drop_last()) + media.last().track_count
    }
}

pub open spec fn media_formats(media: Seq<mb::Media>) -> Seq<Seq<char>>
    decreases media.len(),
{
    if media.len() == 0 {
        Seq::empty()
    } else {
        media_formats(media.drop_last()) + match media.last().format {
            Some(f) => seq![f@],
            None => Seq::empty(),
        }
    }
}

/// Every track of every medium, in order, with the medium it sits on.
pub open spec fn flat_tracks(media: Seq<mb::Media>) -> Seq<(mb::Media, mb::Track)>
    decreases media.len(),
{
    if media.len() == 0 {
        Seq::empty()
    } else {
        let m = media.last();
        flat_tracks(media.drop_last()) + m.tracks@.map_values(|t: mb::Track| (m, t))
    }
}

/// `nt` is what an MB track `t` on medium `m` becomes: its number parsed as
/// the position (kept raw too), its own length or else its recording's.
pub open spec fn track_from_mb(nt: NormalizedTrack, m: mb::Media, t: mb::Track) -> bool {
    &&& nt.position == parse_u32_spec(t.number@)
    &&& nt.title@ == t.title@
    &&& nt.length_ms == (if t.length is Some { t.length } else { t.recording.length })
    &&& opt_view(nt.recording_id) == Some(t.recording.id@)
    &&& opt_view(nt.medium_format) == opt_view(m.format)
    &&& nt.medium_position == m.position
    &&& opt_view(nt.raw_position) == Some(t.number@)
    &&& nt.title_native is None
}

pub open spec fn first_label(infos: Seq<mb::LabelInfo>) -> Option<Seq<char>> {
    if infos.len() == 0 {
        None
    } else {
        match infos[0].label {
            Some(l) => Some(l.name@),
            None => None,
        }
    }
}

pub open spec fn part_from(p: ArtistCreditPart, c: mb::ArtistCreditItem) -> bool {
    p.id@ == c.artist.id@ && p.name@ == c.name@ && p.join_phrase@ == c.join_phrase@
}

pub open spec fn from_mb_spec(n: NormalizedRelease, r: mb::Release) -> bool {
    &&& n.id@ == r.id@
    &&& n.title@ == r.title@
    &&& opt_view(n.status) == opt_view(r.status)
    &&& opt_view(n.country) == opt_view(r.country)
    &&& opt_view(n.disambiguation) == opt_view(r.disambiguation)
    &&& opt_view(n.label) == first_label(r.label_info@)
    &&& strs_view(n.formats@) == media_formats(r.media@)
    &&& n.track_count == media_track_total(r.media@)
    &&& opt_view(n.date) == opt_view(r.date)
    &&& (if r.artist_credit@.len() == 0 {
        n.artist_credit is None
    } else {
        opt_view(n.artist_credit) == Some(mb::credit_text(r.artist_credit@))
    })
    &&& n.artist_credit_parts@.len() == r.artist_credit@.len()
    &&& (forall|i: int|
        0 <= i < r.artist_credit@.len() ==> part_from(
            #[trigger] n.artist_credit_parts@[i],
            r.artist_credit@[i],
        ))
    &&& opt_view(n.release_group_id) == (match r.release_group {
        Some(g) => Some(g.id@),
        None => None,
    })
    &&& n.title_native is None
    &&& n.artist_credit_native is None
    &&& n.genre is None
    &&& n.tracks@.len() == flat_tracks(r.media@).len()
    &&& (forall|i: int|
        0 <= i < n.tracks@.len() ==> track_from_mb(
            #[trigger] n.tracks@[i],
            flat_tracks(r.media@)[i].0,
            flat_tracks(r.media@)[i].1,
        ))
}

fn track_of_mb(m: &mb::Media, t: &mb::Track) -> (nt: NormalizedTrack)
    ensures
        track_from_mb(nt, *m, *t),
{
    NormalizedTrack {
        position: parse_u32(t.number.as_str()),
        title: t.title.clone(),
        length_ms: if t.length.is_some() { t.length } else { t.recording.length },
        recording_id: Some(t.recording.id.clone()),
        medium_format: copy_opt(&m.format),
        medium_position: m.position,
        raw_position: Some(t.number.clone()),
        title_native: None,
    }
}

proof fn lemma_flat_tracks_step(media: Seq<mb::Media>, i: int)
    requires
        0 <= i < media.len(),
    ensures
        flat_tracks(media.subrange(0, i + 1)) == flat_tracks(media.subrange(0, i))
            + media[i].tracks@.map_values(|t: mb::Track| (media[i], t)),
{
    assert(media.subrange(0, i + 1).drop_last() =~= media.subrange(0, i));
}

/// A MusicBrainz release in normal form. The media's track counts must sum to
/// a `u32`.
pub fn from_mb_release(r: mb::Release) -> (n: NormalizedRelease)
    requires
        media_track_total(r.media@) <= u32::MAX,
    ensures
        from_mb_spec(n, r),
{
    let mut track_count: u32 = 0;
    let mut formats: Vec<String> = Vec::new();
    let mut tracks: Vec<NormalizedTrack> = Vec::new();
    let mut i: usize = 0;
    while i < r.media.len()
        invariant
            i <= r.media@.len(),
            media_track_total(r.media@) <= u32::MAX,
            track_count == media_track_total(r.media@.subrange(0, i as int)),
            strs_view(formats@) == media_formats(r.media@.subrange(0, i as int)),
            tracks@.len() == flat_tracks(r.media@.subrange(0, i as int)).len(),
            forall|k: int|
                0 <= k < tracks@.len() ==> track_from_mb(
                    #[trigger] tracks@[k],
                    flat_tracks(r.media@.subrange(0, i as int))[k].0,
                    flat_tracks(r.media@.subrange(0, i as int))[k].1,
                ),
        decreases r.media@.len() - i,
    {
        let m = &r.media[i];
        proof {
            lemma_flat_tracks_step(r.media@, i as int);
            assert(r.media@.subrange(0, i + 1).drop_last() =~= r.media@.subrange(0, i as int));
            lemma_total_prefix(r.media@, i + 1);
        }
        track_count = track_count + m.track_count;
        match &m.format {
            Some(f) => formats.push(f.clone()),
            None => {},
        }
        assert(strs_view(formats@) =~= media_formats(r.media@.subrange(0, i + 1)));
        let ghost before = tracks@;
        let ghost flat0 = flat_tracks(r.media@.subrange(0, i as int));
        let ghost added = m.tracks@.map_values(|t: mb::Track| (*m, t));
        let mut j: usize = 0;
        while j < m.tracks.len()
            invariant
                j <= m.tracks@.len(),
                before.len() == flat0.len(),
                tracks@.len() == before.len() + j,
                added == m.tracks@.map_values(|t: mb::Track| (*m, t)),
                forall|k: int| 0 <= k < before.len() ==> tracks@[k] == before[k],
                forall|k: int|
                    0 <= k < before.len() ==> track_from_mb(#[trigger] before[k], flat0[k].0, flat0[k].1),
                forall|k: int|
                    0 <= k < j ==> track_from_mb(
                        #[trigger] tracks@[before.len() + k],
                        added[k].0,
                        added[k].1,
                    ),
            decreases m.tracks@.len() - j,
        {
            let nt = track_of_mb(m, &m.tracks[j]);
            tracks.push(nt);
            j = j + 1;
        }
        proof {
            let flat1 = flat_tracks(r.media@.subrange(0, i + 1));
            assert(flat1 == flat0 + added);
            assert forall|k: int| 0 <= k < tracks@.len() implies track_from_mb(
                #[trigger] tracks@[k],
                flat1[k].0,
                flat1[k].1,
            ) by {
                if k < before.len() {
                    assert(tracks@[k] == before[k]);
                } else {
                    let q = k - before.len();
                    assert(tracks@[before.len() + q] == tracks@[k]);
                }
            }
        }
        i = i + 1;
    }
    proof {
        assert(r.media@.subrange(0, r.media@.len() as int) =~= r.media@);
    }
    let label = if r.label_info.len() > 0 {
        match &r.label_info[0].label {
            Some(l) => Some(l.name.clone()),
            None => None,
        }
    } else {
        None
    };
    let artist_credit = mb::join_artist_credit(r.artist_credit.as_slice());
    let mut parts: Vec<ArtistCreditPart> = Vec::new();
    let mut k: usize = 0;
    while k < r.artist_credit.len()
        invariant
            k <= r.artist_credit@.len(),
            parts@.len() == k,
            forall|q: int| 0 <= q < k ==> part_from(#[trigger] parts@[q], r.artist_credit@[q]),
        decreases r.artist_credit@.len() - k,
    {
        let c = &r.artist_credit[k];
        parts.push(
            ArtistCreditPart {
                id: c.artist.id.clone(),
                name: c.name.clone(),
                join_phrase: c.join_phrase.clone(),
            },
        );
        k = k + 1;
    }
    let release_group_id = match &r.release_group {
        Some(g) => Some(g.id.clone()),
        None => None,
    };
    NormalizedRelease {
        id: r.id.clone(),
        title: r.title.clone(),
        status: copy_opt(&r.status),
        country: copy_opt(&r.country),
        disambiguation: copy_opt(&r.disambiguation),
        label,
        formats,
        track_count,
        date: copy_opt(&r.date),
        artist_credit,
        artist_credit_parts: parts,
        release_group_id,
        title_native: None,
        artist_credit_native: None,
        genre: None,
        tracks,
    }
}

proof fn lemma_total_prefix(media: Seq<mb::Media>, i: int)
    requires
        0 <= i <= media.len(),
    ensures
        0 <= media_track_total(media.subrange(0, i)) <= media_track_total(media),
    decreases media.len() - i,
{
    if i < media.len() {
        lemma_total_prefix(media, i + 1);
        assert(media.subrange(0, i + 1).drop_last() =~= media.subrange(0, i));
    } else {
        assert(media.subrange(0, i) =~= media);
    }
    lemma_total_nonneg(media.subrange(0, i));
}

proof fn lemma_total_nonneg(media: Seq<mb::Media>)
    ensures
        media_track_total(media) >= 0,
    decreases media.len(),
{
    if media.len() > 0 {
        lemma_total_nonneg(media.drop_last());
    }
}

// ---------------------------------------------------------------------------
// From the Lidarr proxy
// ---------------------------------------------------------------------------

pub open spec fn lidarr_formats(media: Seq<lidarr::MediaResource>) -> Seq<Seq<char>>
    decreases media.len(),
{
    if media.len() == 0 {
        Seq::empty()
    } else {
        lidarr_formats(media.drop_last()) + match media.last().format {
            Some(f) => seq![f@],
            None => Seq::empty(),
        }
    }
}

/// The format of the first medium at position `n`.
pub open spec fn medium_format_at(media: Seq<lidarr::MediaResource>, n: u32) -> Option<Seq<char>>
    decreases media.len(),
{
    if media.len() == 0 {
        None
    } else if media[0].position == Some(n) {
        opt_view(media[0].format)
    } else {
        medium_format_at(media.drop_first(), n)
    }
}

pub open spec fn track_from_lidarr(
    nt: NormalizedTrack,
    media: Seq<lidarr::MediaResource>,
    t: lidarr::TrackResource,
) -> bool {
    &&& nt.position == (match t.track_number {
        Some(s) => parse_u32_spec(s@),
        None => None,
    })
    &&& nt.title@ == t.track_name@
    &&& nt.length_ms == t.duration_ms
    &&& opt_view(nt.recording_id) == opt_view(t.recording_id)
    &&& opt_view(nt.medium_format) == (match t.medium_number {
        Some(n) => medium_format_at(media, n),
        None => None,
    })
    &&& nt.medium_position == t.medium_number
    &&& nt.raw_position is None
    &&& nt.title_native is None
}

pub open spec fn first_str(v: Seq<String>) -> Option<Seq<char>> {
    if v.len() == 0 {
        None
    } else {
        Some(v[0]@)
    }
}

pub open spec fn from_lidarr_spec(n: NormalizedRelease, r: lidarr::ReleaseResource) -> bool {
    &&& n.id@ == r.id@
    &&& n.title@ == r.title@
    &&& opt_view(n.status) == opt_view(r.status)
    &&& opt_view(n.country) == first_str(r.country@)
    &&& opt_view(n.disambiguation) == opt_view(r.disambiguation)
    &&& opt_view(n.label) == first_str(r.label@)
    &&& strs_view(n.formats@) == lidarr_formats(r.media@)
    &&& n.track_count == r.track_count
    &&& opt_view(n.date) == opt_view(r.release_date)
    &&& n.artist_credit is None
    &&& n.artist_credit_parts@.len() == 0
    &&& n.release_group_id is None
    &&& n.title_native is None
    &&& n.artist_credit_native is None
    &&& n.genre is None
    &&& n.tracks@.len() == r.tracks@.len()
    &&& (forall|i: int|
        0 <= i < n.tracks@.len() ==> track_from_lidarr(
            #[trigger] n.tracks@[i],
            r.media@,
            r.tracks@[i],
        ))
}

fn medium_format_of(media: &Vec<lidarr::MediaResource>, n: u32) -> (r: Option<String>)
    ensures
        opt_view(r) == medium_format_at(media@, n),
{
    let mut i: usize = 0;
    assert(media@.subrange(0, media@.len() as int) =~= media@);
    while i < media.len()
        invariant
            i <= media@.len(),
            medium_format_at(media@.subrange(i as int, media@.len() as int), n)
                == medium_format_at(media@, n),
        decreases media@.len() - i,
    {
        let ghost rest = media@.subrange(i as int, media@.len() as int);
        assert(rest[0] == media@[i as int]);
        if media[i].position == Some(n) {
            return copy_opt(&media[i].format);
        }
        assert(rest.drop_first() =~= media@.subrange(i + 1, media@.len() as int));
        i = i + 1;
    }
    None
}

fn first_string(v: &Vec<String>) -> (r: Option<String>)
    ensures
        opt_view(r) == first_str(v@),
{
    if v.len() > 0 {
        Some(v[0].clone())
    } else {
        None
    }
}

/// A Lidarr-proxy release in normal form.
pub fn from_lidarr_release(r: lidarr::ReleaseResource) -> (n: NormalizedRelease)
    ensures
        from_lidarr_spec(n, r),
{
    let mut formats: Vec<String> = Vec::new();
    let mut i: usize = 0;
    while i < r.media.len()
        invariant
            i <= r.media@.len(),
            strs_view(formats@) == lidarr_formats(r.media@.subrange(0, i as int)),
        decreases r.media@.len() - i,
    {
        assert(r.media@.subrange(0, i + 1).drop_last() =~= r.media@.subrange(0, i as int));
        match &r.media[i].format {
            Some(f) => formats.push(f.clone()),
            None => {},
        }
        assert(strs_view(formats@) =~= lidarr_formats(r.media@.subrange(0, i + 1)));
        i = i + 1;
    }
    assert(r.media@.subrange(0, r.media@.len() as int) =~= r.media@);
    let mut tracks: Vec<NormalizedTrack> = Vec::new();
    let mut j: usize = 0;
    while j < r.tracks.len()
        invariant
            j <= r.tracks@.len(),
            tracks@.len() == j,
            forall|k: int|
                0 <= k < j ==> track_from_lidarr(#[trigger] tracks@[k], r.media@, r.tracks@[k]),
        decreases r.tracks@.len() - j,
    {
        let t = &r.tracks[j];
        let medium_format = match t.medium_number {
            Some(n) => medium_format_of(&r.media, n),
            None => None,
        };
        let position = match &t.track_number {
            Some(s) => parse_u32(s.as_str()),
            None => None,
        };
        tracks.push(
            NormalizedTrack {
                position,
                title: t.track_name.clone(),
                length_ms: t.duration_ms,
                recording_id: copy_opt(&t.recording_id),
                medium_format,
                medium_position: t.medium_number,
                raw_position: None,
                title_native: None,
            },
        );
        j = j + 1;
    }
    NormalizedRelease {
        id: r.id.clone(),
        title: r.title.clone(),
        status: copy_opt(&r.status),
        country: first_string(&r.country),
        disambiguation: copy_opt(&r.disambiguation),
        label: first_string(&r.label),
        formats,
        track_count: r.track_count,
        date: copy_opt(&r.release_date),
        artist_credit: None,
        artist_credit_parts: Vec::new(),
        release_group_id: None,
        title_native: None,
        artist_credit_native: None,
        genre: None,
        tracks,
    }
}

/// The release-group fields the scorer reads, from a Lidarr album.
pub fn group_from_lidarr(a: &lidarr::AlbumResource) -> (g: NormalizedReleaseGroup)
    ensures
        opt_view(g.primary_type) == opt_view(a.album_type),
        strs_view(g.secondary_types@) == strs_view(a.secondary_types@),
{
    NormalizedReleaseGroup {
        primary_type: copy_opt(&a.album_type),
        secondary_types: copy_strs(&a.secondary_types),
    }
}

/// The release-group fields the scorer reads, from an MB release group.
pub fn group_from_mb(g: &mb::ReleaseGroup) -> (n: NormalizedReleaseGroup)
    ensures
        opt_view(n.primary_type) == opt_view(g.primary_type),
        strs_view(n.secondary_types@) == strs_view(g.secondary_types@),
{
    NormalizedReleaseGroup {
        primary_type: copy_opt(&g.primary_type),
        secondary_types: copy_strs(&g.secondary_types),
    }
}

} // verus!
