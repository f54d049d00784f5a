//! The decisions of the command-line workflows (import, YouTube fetches,
//! cover runs, job targets), apart from the I/O the commands perform.

use vstd::prelude::*;
use crate::error::Error;
use crate::import::{MatchReport, MatchedTrack};
use crate::library::LibraryTrack;
use crate::release::{NormalizedRelease, NormalizedTrack};
use crate::tags::Unresolved;
use crate::text::{copy_opt, opt_view, parse_i64, parse_i64_spec, seq_lt, str_lt, strip_prefix_str, str_eq};

verus! {

/// `mbid:<id>` queries name an entity directly: the id, or `None` for a
/// search text.
pub fn is_mbid_query(q: &str) -> (r: Option<String>)
    ensures
        match r {
            Some(id) => crate::text::seq_starts_with(q@, "mbid:"@) && id@ == q@.subrange(5, q@.len() as int),
            None => !crate::text::seq_starts_with(q@, "mbid:"@),
        },
{
    proof {
        reveal_strlit("mbid:");
    }
    strip_prefix_str(q, "mbid:")
}

/// A job-scoped target that parses as an integer is a job id.
pub fn target_is_numeric(target: &str) -> (r: bool)
    ensures
        r == parse_i64_spec(target@) is Some,
{
    parse_i64(target).is_some()
}

// ---------------------------------------------------------------------------
// Import
// ---------------------------------------------------------------------------

/// Whether an import stops before copying: never with a forced mapping; with
/// `allow_partial` only on unmatched files; otherwise on unmatched files or
/// missing tracks.
pub fn import_blocked(report: &MatchReport, forced: bool, allow_partial: bool) -> (r: bool)
    ensures
        r == if forced {
            false
        } else if allow_partial {
            report.unmatched_files@.len() > 0
        } else {
            report.unmatched_files@.len() > 0 || report.missing_tracks@.len() > 0
        },
{
    if forced {
        false
    } else if allow_partial {
        report.blocked_unmatched()
    } else {
        report.blocked()
    }
}

/// Where an import's cover art comes from.
pub enum CoverSource {
    /// No cover is written.
    Nothing,
    /// The overrides' image file.
    Local(String),
    /// The Cover Art Archive's front cover of the release.
    Archive,
}

/// Cover art is resolved only when files will be written: the overrides'
/// file wins, the archive is asked only when that was requested.
pub fn cover_source(blocked: bool, dry_run: bool, override_cover: &Option<String>, fetch: bool) -> (r: CoverSource)
    ensures
        blocked || dry_run ==> r is Nothing,
        !blocked && !dry_run ==> match override_cover {
            Some(p) => r matches CoverSource::Local(q) && q@ == p@,
            None => if fetch {
                r is Archive
            } else {
                r is Nothing
            },
        },
{
    if blocked || dry_run {
        return CoverSource::Nothing;
    }
    match override_cover {
        Some(p) => CoverSource::Local(p.clone()),
        None => if fetch {
            CoverSource::Archive
        } else {
            CoverSource::Nothing
        },
    }
}

/// Unresolved non-Latin fields stop the workflow unless native titles are
/// allowed; the error lists them.
pub fn check_unresolved(unresolved: &[Unresolved], allow_native: bool) -> (r: Result<(), Error>)
    ensures
        unresolved@.len() == 0 || allow_native ==> r is Ok,
        unresolved@.len() > 0 && !allow_native ==> (r matches Err(Error::UnresolvedTitles(m)) && m@
            == crate::slskd::join_seqs(
            unresolved@.map_values(|u: Unresolved| crate::tags::unresolved_line(u)),
            "\n"@,
        )),
{
    if unresolved.len() > 0 && !allow_native {
        return Err(Error::UnresolvedTitles(crate::tags::format_unresolved(unresolved)));
    }
    Ok(())
}

// ---------------------------------------------------------------------------
// YouTube
// ---------------------------------------------------------------------------

/// The release a single video is filed under when no release is given:
/// no id, the given album (else `Unknown Album`), artist and year, format
/// Opus, no tracks.
pub fn synthetic_release(album: &Option<String>, artist: &Option<String>, year: &Option<String>) -> (r: NormalizedRelease)
    ensures
        r.id@ == Seq::<char>::empty(),
        r.title@ == match album {
            Some(a) => a@,
            None => "Unknown Album"@,
        },
        opt_view(r.artist_credit) == opt_view(*artist),
        opt_view(r.date) == opt_view(*year),
        crate::text::strs_view(r.formats@) == seq!["Opus"@],
        r.track_count == 0,
        r.tracks@.len() == 0,
        r.artist_credit_parts@.len() == 0,
        r.status is None && r.country is None && r.disambiguation is None && r.label is None,
        r.release_group_id is None && r.title_native is None && r.artist_credit_native is None
            && r.genre is None,
{
    let title = match album {
        Some(a) => a.clone(),
        None => String::from_str("Unknown Album"),
    };
    let mut formats: Vec<String> = Vec::new();
    formats.push(String::from_str("Opus"));
    assert(crate::text::strs_view(formats@) =~= seq!["Opus"@]);
    NormalizedRelease {
        id: String::new(),
        title,
        status: None,
        country: None,
        disambiguation: None,
        label: None,
        formats,
        track_count: 0,
        date: copy_opt(year),
        artist_credit: copy_opt(artist),
        artist_credit_parts: Vec::new(),
        release_group_id: None,
        title_native: None,
        artist_credit_native: None,
        genre: None,
        tracks: Vec::new(),
    }
}

/// Track `t` is at `position` (and, when a disc is given, on that disc,
/// counting an unknown disc as disc 1).
pub open spec fn at_position(t: NormalizedTrack, position: u32, disc: Option<u32>) -> bool {
    t.position == Some(position) && match disc {
        Some(d) => (match t.medium_position {
            Some(m) => m,
            None => 1,
        }) == d,
        None => true,
    }
}

/// The release track a video stands for: with a disc, the first track at
/// that position on it; without, the only track at that position. Fails with
/// `YtTrackNotFound` when there is none (or, without a disc, several).
pub fn select_backfill_track(tracks: &[NormalizedTrack], release_mbid: &str, position: u32, disc: Option<u32>) -> (r: Result<usize, Error>)
    ensures
        match r {
            Ok(j) => j < tracks@.len() && at_position(tracks@[j as int], position, disc) && (forall|k: int|
                0 <= k < tracks@.len() && k != j && at_position(#[trigger] tracks@[k], position, disc) ==> (
                disc is Some && j < k)),
            Err(e) => (e matches Error::YtTrackNotFound { release_mbid: m, position: p } && m@
                == release_mbid@ && p == position) && ((forall|k: int|
                0 <= k < tracks@.len() ==> !at_position(#[trigger] tracks@[k], position, disc)) || (disc is None
                && exists|a: int, b: int|
                0 <= a < b < tracks@.len() && at_position(#[trigger] tracks@[a], position, disc)
                    && at_position(#[trigger] tracks@[b], position, disc))),
        },
{
    let mut found: Option<usize> = None;
    let mut i: usize = 0;
    while i < tracks.len()
        invariant
            i <= tracks@.len(),
            match found {
                None => forall|k: int| 0 <= k < i ==> !at_position(#[trigger] tracks@[k], position, disc),
                Some(j) => disc is None && j < i && at_position(tracks@[j as int], position, disc) && forall|k: int|
                    0 <= k < i && k != j ==> !at_position(#[trigger] tracks@[k], position, disc),
            },
        decreases tracks@.len() - i,
    {
        let t = &tracks[i];
        let hit = t.position == Some(position) && match disc {
            Some(d) => (match t.medium_position {
                Some(m) => m,
                None => 1,
            }) == d,
            None => true,
        };
        if hit {
            match found {
                None => {
                    found = Some(i);
                    if disc.is_some() {
                        return Ok(i);
                    }
                },
                Some(j) => {
                    proof {
                        assert(at_position(tracks@[j as int], position, disc));
                        assert(at_position(tracks@[i as int], position, disc));
                    }
                    return Err(Error::YtTrackNotFound { release_mbid: release_mbid.to_string(), position });
                },
            }
        }
        i = i + 1;
    }
    match found {
        Some(j) => Ok(j),
        None => Err(Error::YtTrackNotFound { release_mbid: release_mbid.to_string(), position }),
    }
}

/// The flags of `yt fetch` that shape the imported track.
pub struct YtTrackFlags {
    pub title: Option<String>,
    pub artist: Option<String>,
    pub track: Option<u32>,
    pub disc: Option<u32>,
}

/// The single matched track of a video fetch and the artist credit it is
/// filed under: `--title` wins over the backfilled track's title (one of the
/// two is required), the release's (resolved) credit over `--artist`,
/// `--track`/`--disc` over the backfilled position; the recording id and raw
/// number come from the backfill, the native title too unless `--title` was
/// given.
pub fn yt_single_track(file: &str, flags: &YtTrackFlags, backfill: Option<&NormalizedTrack>, release_artist: &Option<String>) -> (r: Result<(MatchedTrack, Option<String>), Error>)
    ensures
        flags.title is None && backfill is None ==> r matches Err(Error::YtTitleRequired),
        flags.title is Some || backfill is Some ==> (r matches Ok((m, artist)) && {
            &&& m.file@ == file@
            &&& m.title@ == match flags.title {
                Some(t) => t@,
                None => backfill.unwrap().title@,
            }
            &&& opt_view(artist) == if release_artist is Some {
                opt_view(*release_artist)
            } else {
                opt_view(flags.artist)
            }
            &&& m.position == if flags.track is Some {
                flags.track
            } else {
                match backfill {
                    Some(t) => t.position,
                    None => None,
                }
            }
            &&& m.medium_position == if flags.disc is Some {
                flags.disc
            } else {
                match backfill {
                    Some(t) => t.medium_position,
                    None => None,
                }
            }
            &&& opt_view(m.recording_id) == match backfill {
                Some(t) => opt_view(t.recording_id),
                None => None,
            }
            &&& opt_view(m.raw_position) == match backfill {
                Some(t) => opt_view(t.raw_position),
                None => None,
            }
            &&& opt_view(m.title_native) == match backfill {
                Some(t) => if flags.title is None {
                    opt_view(t.title_native)
                } else {
                    None
                },
                None => None,
            }
        }),
{
    let title = match &flags.title {
        Some(t) => t.clone(),
        None => match backfill {
            Some(t) => t.title.clone(),
            None => return Err(Error::YtTitleRequired),
        },
    };
    let artist = if release_artist.is_some() {
        copy_opt(release_artist)
    } else {
        copy_opt(&flags.artist)
    };
    let position = if flags.track.is_some() {
        flags.track
    } else {
        match backfill {
            Some(t) => t.position,
            None => None,
        }
    };
    let medium_position = if flags.disc.is_some() {
        flags.disc
    } else {
        match backfill {
            Some(t) => t.medium_position,
            None => None,
        }
    };
    let (recording_id, raw_position, title_native) = match backfill {
        Some(t) => (
            copy_opt(&t.recording_id),
            copy_opt(&t.raw_position),
            if flags.title.is_none() {
                copy_opt(&t.title_native)
            } else {
                None
            },
        ),
        None => (None, None, None),
    };
    Ok(
        (
            MatchedTrack {
                file: file.to_string(),
                position,
                medium_position,
                title,
                title_native,
                recording_id,
                raw_position,
            },
            artist,
        ),
    )
}

/// A playlist entry as the mapping reads it.
pub struct PlaylistEntry {
    pub path: String,
    pub playlist_index: Option<u32>,
}

/// The track position of entry `i`: its playlist index, else its 1-based
/// place among the fetched entries.
pub open spec fn entry_position(e: PlaylistEntry, i: int) -> int {
    match e.playlist_index {
        Some(p) => p as int,
        None => i + 1,
    }
}

/// `j` is the first track at position `p`.
pub open spec fn first_at(ts: Seq<NormalizedTrack>, p: int, j: int) -> bool {
    &&& 0 <= j < ts.len()
    &&& has_position(ts[j], p)
    &&& forall|k: int| 0 <= k < j ==> !has_position(#[trigger] ts[k], p)
}

/// Track `t` is numbered `p`.
pub open spec fn has_position(t: NormalizedTrack, p: int) -> bool {
    t.position matches Some(q) && q == p
}

/// The index of the first track at position `p`, if any.
pub open spec fn track_at(ts: Seq<NormalizedTrack>, p: int) -> Option<int> {
    if exists|j: int| first_at(ts, p, j) {
        Some(choose|j: int| first_at(ts, p, j))
    } else {
        None
    }
}

/// The (entry, track) pairs of the first `n` entries that found a track, in
/// entry order.
pub open spec fn playlist_hits(entries: Seq<PlaylistEntry>, ts: Seq<NormalizedTrack>, n: int) -> Seq<(int, int)>
    decreases n,
{
    if n <= 0 {
        Seq::empty()
    } else {
        let prev = playlist_hits(entries, ts, n - 1);
        match track_at(ts, entry_position(entries[n - 1], n - 1)) {
            Some(j) => prev.push((n - 1, j)),
            None => prev,
        }
    }
}

/// The positions of the first `n` entries that found no track, in entry
/// order.
pub open spec fn playlist_misses(entries: Seq<PlaylistEntry>, ts: Seq<NormalizedTrack>, n: int) -> Seq<int>
    decreases n,
{
    if n <= 0 {
        Seq::empty()
    } else {
        let prev = playlist_misses(entries, ts, n - 1);
        match track_at(ts, entry_position(entries[n - 1], n - 1)) {
            Some(_) => prev,
            None => prev.push(entry_position(entries[n - 1], n - 1)),
        }
    }
}

/// The file an entry stands for, as a local track with no tags.
pub open spec fn entry_local(e: PlaylistEntry) -> crate::import::LocalTrack {
    crate::import::LocalTrack {
        path: e.path,
        title: None,
        artist: None,
        track_number: None,
        musicbrainz_recording_id: None,
    }
}

proof fn lemma_first_at_unique(ts: Seq<NormalizedTrack>, p: int, a: int, b: int)
    requires
        first_at(ts, p, a),
        first_at(ts, p, b),
    ensures
        a == b,
{
    if a < b {
        assert(!has_position(ts[a], p));
    } else if b < a {
        assert(!has_position(ts[b], p));
    }
}

/// The first of `tracks` numbered `position`.
fn position_index(tracks: &Vec<NormalizedTrack>, position: u32) -> (r: Option<usize>)
    ensures
        match r {
            Some(j) => track_at(tracks@, position as int) == Some(j as int),
            None => track_at(tracks@, position as int) is None,
        },
{
    let mut j: usize = 0;
    while j < tracks.len()
        invariant
            j <= tracks@.len(),
            forall|k: int| 0 <= k < j ==> !has_position(#[trigger] tracks@[k], position as int),
        decreases tracks@.len() - j,
    {
        if tracks[j].position == Some(position) {
            proof {
                assert(first_at(tracks@, position as int, j as int));
                let c = choose|c: int| first_at(tracks@, position as int, c);
                lemma_first_at_unique(tracks@, position as int, c, j as int);
            }
            return Some(j);
        }
        j = j + 1;
    }
    proof {
        if exists|c: int| first_at(tracks@, position as int, c) {
            let c = choose|c: int| first_at(tracks@, position as int, c);
            assert(!has_position(tracks@[c], position as int));
        }
    }
    None
}

/// Playlist entries mapped onto the release's tracks by position (YouTube
/// releases are single-disc): each entry takes the first track at its
/// position; entries with no track there are skipped and their positions
/// reported. Both lists keep the entries' order.
pub fn map_playlist(entries: &[PlaylistEntry], release: &NormalizedRelease) -> (r: (Vec<MatchedTrack>, Vec<u32>))
    requires
        entries@.len() < u32::MAX,
    ensures
        r.0@.len() == playlist_hits(entries@, release.tracks@, entries@.len() as int).len(),
        forall|q: int| 0 <= q < r.0@.len() ==> {
            let h = #[trigger] playlist_hits(entries@, release.tracks@, entries@.len() as int)[q];
            crate::import::matched_from(r.0@[q], entry_local(entries@[h.0]), release.tracks@[h.1])
        },
        r.1@.len() == playlist_misses(entries@, release.tracks@, entries@.len() as int).len(),
        forall|q: int| 0 <= q < r.1@.len() ==> (#[trigger] r.1@[q]) as int == playlist_misses(
            entries@,
            release.tracks@,
            entries@.len() as int,
        )[q],
{
    let mut matched: Vec<MatchedTrack> = Vec::new();
    let mut skipped: Vec<u32> = Vec::new();
    let mut i: usize = 0;
    while i < entries.len()
        invariant
            i <= entries@.len(),
            entries@.len() < u32::MAX,
            matched@.len() == playlist_hits(entries@, release.tracks@, i as int).len(),
            forall|q: int| 0 <= q < matched@.len() ==> {
                let h = #[trigger] playlist_hits(entries@, release.tracks@, i as int)[q];
                crate::import::matched_from(matched@[q], entry_local(entries@[h.0]), release.tracks@[h.1])
            },
            skipped@.len() == playlist_misses(entries@, release.tracks@, i as int).len(),
            forall|q: int| 0 <= q < skipped@.len() ==> (#[trigger] skipped@[q]) as int == playlist_misses(
                entries@,
                release.tracks@,
                i as int,
            )[q],
        decreases entries@.len() - i,
    {
        let e = &entries[i];
        let position: u32 = match e.playlist_index {
            Some(p) => p,
            None => (i + 1) as u32,
        };
        assert(position as int == entry_position(entries@[i as int], i as int));
        let ghost hits0 = playlist_hits(entries@, release.tracks@, i as int);
        let ghost misses0 = playlist_misses(entries@, release.tracks@, i as int);
        match position_index(&release.tracks, position) {
            Some(j) => {
                let t = &release.tracks[j];
                let m = MatchedTrack {
                    file: e.path.clone(),
                    position: t.position,
                    medium_position: t.medium_position,
                    title: t.title.clone(),
                    title_native: copy_opt(&t.title_native),
                    recording_id: copy_opt(&t.recording_id),
                    raw_position: copy_opt(&t.raw_position),
                };
                let ghost m0 = matched@;
                matched.push(m);
                proof {
                    let hits1 = playlist_hits(entries@, release.tracks@, i + 1);
                    assert(hits1 == hits0.push((i as int, j as int)));
                    assert(playlist_misses(entries@, release.tracks@, i + 1) == misses0);
                    assert forall|q: int| 0 <= q < matched@.len() implies {
                        let h = #[trigger] playlist_hits(entries@, release.tracks@, i + 1)[q];
                        crate::import::matched_from(matched@[q], entry_local(entries@[h.0]), release.tracks@[h.1])
                    } by {
                        if q < m0.len() {
                            assert(matched@[q] == m0[q]);
                            assert(hits1[q] == hits0[q]);
                        } else {
                            assert(matched@[q] == m);
                            assert(hits1[q] == (i as int, j as int));
                        }
                    }
                }
            },
            None => {
                let ghost s0 = skipped@;
                skipped.push(position);
                proof {
                    let misses1 = playlist_misses(entries@, release.tracks@, i + 1);
                    assert(misses1 == misses0.push(position as int));
                    assert(playlist_hits(entries@, release.tracks@, i + 1) == hits0);
                    assert forall|q: int| 0 <= q < skipped@.len() implies (#[trigger] skipped@[q]) as int
                        == playlist_misses(entries@, release.tracks@, i + 1)[q] by {
                        if q < s0.len() {
                            assert(skipped@[q] == s0[q]);
                            assert(misses1[q] == misses0[q]);
                        }
                    }
                }
            },
        }
        i = i + 1;
    }
    (matched, skipped)
}

// ---------------------------------------------------------------------------
// Cover runs
// ---------------------------------------------------------------------------

/// Release keys in listing order: no release first, then by mbid.
pub open spec fn key_lt(a: Option<Seq<char>>, b: Option<Seq<char>>) -> bool {
    match (a, b) {
        (None, Some(_)) => true,
        (Some(x), Some(y)) => seq_lt(x, y),
        _ => false,
    }
}

/// Index `i` stands in some group of `groups`.
pub open spec fn listed(groups: Seq<(Option<String>, Vec<usize>)>, i: int) -> bool {
    exists|g: int, q: int| 0 <= g < groups.len() && 0 <= q < groups[g].1@.len() && #[trigger] groups[g].1@[q] == i
}

/// Tracks grouped by release mbid: one group per distinct mbid (tracks with
/// none form one group), groups in key order, each listing its tracks'
/// indices in order.
pub fn group_by_release(tracks: &[LibraryTrack]) -> (r: Vec<(Option<String>, Vec<usize>)>)
    ensures
        forall|a: int, b: int|
            0 <= a < b < r@.len() ==> key_lt(opt_view((#[trigger] r@[a]).0), opt_view((#[trigger] r@[b]).0)),
        forall|g: int, q: int|
            0 <= g < r@.len() && 0 <= q < r@[g].1@.len() ==> (#[trigger] r@[g].1@[q] as int) < tracks@.len()
                && opt_view(tracks@[r@[g].1@[q] as int].release_mbid) == opt_view(r@[g].0),
        forall|g: int, q1: int, q2: int|
            0 <= g < r@.len() && 0 <= q1 < q2 < r@[g].1@.len() ==> #[trigger] r@[g].1@[q1] < #[trigger] r@[g].1@[q2],
        forall|i: int| 0 <= i < tracks@.len() ==> #[trigger] listed(r@, i),
{
    let mut groups: Vec<(Option<String>, Vec<usize>)> = Vec::new();
    let mut i: usize = 0;
    while i < tracks.len()
        invariant
            i <= tracks@.len(),
            forall|a: int, b: int|
                0 <= a < b < groups@.len() ==> key_lt(opt_view((#[trigger] groups@[a]).0), opt_view((#[trigger] groups@[b]).0)),
            forall|g: int, q: int|
                0 <= g < groups@.len() && 0 <= q < groups@[g].1@.len() ==> (#[trigger] groups@[g].1@[q] as int) < i
                    && opt_view(tracks@[groups@[g].1@[q] as int].release_mbid) == opt_view(groups@[g].0),
            forall|g: int, q1: int, q2: int|
                0 <= g < groups@.len() && 0 <= q1 < q2 < groups@[g].1@.len() ==> #[trigger] groups@[g].1@[q1] < #[trigger] groups@[g].1@[q2],
            forall|k: int| 0 <= k < i ==> #[trigger] listed(groups@, k),
        decreases tracks@.len() - i,
    {
        let key = copy_opt(&tracks[i].release_mbid);
        // find the group or the insertion point
        let mut g: usize = 0;
        while g < groups.len() && key_before(&groups[g].0, &key)
            invariant
                g <= groups@.len(),
                forall|k: int| 0 <= k < g ==> key_lt(opt_view((#[trigger] groups@[k]).0), opt_view(key)),
            decreases groups@.len() - g,
        {
            g = g + 1;
        }
        let ghost g0 = groups@;
        if g < groups.len() && key_equal(&groups[g].0, &key) {
            let (k0, mut idx) = groups.remove(g);
            idx.push(i);
            groups.insert(g, (k0, idx));
            proof {
                assert forall|a: int, b: int| 0 <= a < b < groups@.len() implies key_lt(
                    opt_view((#[trigger] groups@[a]).0),
                    opt_view((#[trigger] groups@[b]).0),
                ) by {
                    assert(groups@[a].0 == g0[a].0 && groups@[b].0 == g0[b].0);
                }
                assert forall|gg: int, q: int|
                    0 <= gg < groups@.len() && 0 <= q < groups@[gg].1@.len() implies (#[trigger] groups@[gg].1@[q] as int)
                        < i + 1 && opt_view(tracks@[groups@[gg].1@[q] as int].release_mbid) == opt_view(groups@[gg].0) by {
                    if gg != g as int {
                        assert(groups@[gg] == g0[gg]);
                    } else if q < g0[gg].1@.len() {
                        assert(groups@[gg].1@[q] == g0[gg].1@[q]);
                    }
                }
                assert forall|gg: int, q1: int, q2: int|
                    0 <= gg < groups@.len() && 0 <= q1 < q2 < groups@[gg].1@.len() implies #[trigger] groups@[gg].1@[q1]
                        < #[trigger] groups@[gg].1@[q2] by {
                    if gg != g as int {
                        assert(groups@[gg] == g0[gg]);
                    } else {
                        assert(groups@[gg].1@[q1] == g0[gg].1@[q1] || q1 == g0[gg].1@.len());
                        if q2 < g0[gg].1@.len() {
                            assert(groups@[gg].1@[q2] == g0[gg].1@[q2]);
                        }
                    }
                }
                assert forall|k: int| 0 <= k < i + 1 implies #[trigger] listed(groups@, k) by {
                    if k == i {
                        assert(groups@[g as int].1@[groups@[g as int].1@.len() - 1] == i);
                    } else {
                        assert(listed(g0, k));
                        let (gg, q) = choose|gg: int, q: int|
                            0 <= gg < g0.len() && 0 <= q < g0[gg].1@.len() && #[trigger] g0[gg].1@[q] == k;
                        if gg == g as int {
                            assert(groups@[gg].1@[q] == g0[gg].1@[q]);
                        } else {
                            assert(groups@[gg] == g0[gg]);
                        }
                    }
                }
            }
        } else {
            let mut idx: Vec<usize> = Vec::new();
            idx.push(i);
            let ghost kv = opt_view(key);
            groups.insert(g, (key, idx));
            proof {
                if g < g0.len() {
                    lemma_key_order(opt_view(g0[g as int].0), kv);
                }
                assert forall|a: int, b: int| 0 <= a < b < groups@.len() implies key_lt(
                    opt_view((#[trigger] groups@[a]).0),
                    opt_view((#[trigger] groups@[b]).0),
                ) by {
                    if b < g {
                        assert(groups@[a] == g0[a] && groups@[b] == g0[b]);
                    } else if b == g {
                        assert(groups@[a] == g0[a]);
                    } else if a < g {
                        assert(groups@[a] == g0[a] && groups@[b] == g0[b - 1]);
                        lemma_key_trans(opt_view(g0[a].0), kv, opt_view(g0[g as int].0));
                        if b - 1 > g {
                            lemma_key_trans(kv, opt_view(g0[g as int].0), opt_view(g0[b - 1].0));
                            lemma_key_trans(opt_view(g0[a].0), kv, opt_view(g0[b - 1].0));
                        }
                    } else if a == g {
                        assert(groups@[b] == g0[b - 1]);
                        if b - 1 > g {
                            lemma_key_trans(kv, opt_view(g0[g as int].0), opt_view(g0[b - 1].0));
                        }
                    } else {
                        assert(groups@[a] == g0[a - 1] && groups@[b] == g0[b - 1]);
                    }
                }
                assert forall|gg: int, q: int|
                    0 <= gg < groups@.len() && 0 <= q < groups@[gg].1@.len() implies (#[trigger] groups@[gg].1@[q] as int)
                        < i + 1 && opt_view(tracks@[groups@[gg].1@[q] as int].release_mbid) == opt_view(groups@[gg].0) by {
                    if gg < g {
                        assert(groups@[gg] == g0[gg]);
                    } else if gg > g {
                        assert(groups@[gg] == g0[gg - 1]);
                    }
                }
                assert forall|gg: int, q1: int, q2: int|
                    0 <= gg < groups@.len() && 0 <= q1 < q2 < groups@[gg].1@.len() implies #[trigger] groups@[gg].1@[q1]
                        < #[trigger] groups@[gg].1@[q2] by {
                    if gg < g {
                        assert(groups@[gg] == g0[gg]);
                    } else if gg > g {
                        assert(groups@[gg] == g0[gg - 1]);
                    }
                }
                assert forall|k: int| 0 <= k < i + 1 implies #[trigger] listed(groups@, k) by {
                    if k == i {
                        assert(groups@[g as int].1@[0] == i);
                    } else {
                        assert(listed(g0, k));
                        let (gg, q) = choose|gg: int, q: int|
                            0 <= gg < g0.len() && 0 <= q < g0[gg].1@.len() && #[trigger] g0[gg].1@[q] == k;
                        if gg < g {
                            assert(groups@[gg] == g0[gg]);
                        } else {
                            assert(groups@[gg + 1] == g0[gg]);
                        }
                    }
                }
            }
        }
        i = i + 1;
    }
    groups
}

proof fn lemma_key_order(a: Option<Seq<char>>, b: Option<Seq<char>>)
    ensures
        a == b || key_lt(a, b) || key_lt(b, a),
{
    match (a, b) {
        (Some(x), Some(y)) => crate::text::lemma_seq_lt_total(x, y),
        _ => {},
    }
}

proof fn lemma_key_trans(a: Option<Seq<char>>, b: Option<Seq<char>>, c: Option<Seq<char>>)
    requires
        key_lt(a, b),
        key_lt(b, c),
    ensures
        key_lt(a, c),
{
    match (a, b, c) {
        (Some(x), Some(y), Some(z)) => crate::text::lemma_seq_lt_transitive(x, y, z),
        _ => {},
    }
}

fn key_before(a: &Option<String>, b: &Option<String>) -> (r: bool)
    ensures
        r == key_lt(opt_view(*a), opt_view(*b)),
{
    match (a, b) {
        (None, Some(_)) => true,
        (Some(x), Some(y)) => str_lt(x.as_str(), y.as_str()),
        _ => false,
    }
}

fn key_equal(a: &Option<String>, b: &Option<String>) -> (r: bool)
    ensures
        r == (opt_view(*a) == opt_view(*b)),
{
    match (a, b) {
        (None, None) => true,
        (Some(x), Some(y)) => str_eq(x.as_str(), y.as_str()),
        _ => false,
    }
}

} // verus!
