//! Manual tag overrides and MusicBrainz-alias romanization, applied to a
//! release before matching and tagging. Per field: a manual override wins
//! unconditionally, else a romanization alias when the field is non-Latin,
//! else the field stays; a non-Latin field that neither resolved is reported.

use vstd::prelude::*;
use std::collections::BTreeMap;
use crate::error::Error;
use crate::mb::Alias;
use crate::release::{ArtistCreditPart, NormalizedRelease, NormalizedTrack};
use crate::romanize::{is_non_latin, is_non_latin_spec, is_picked, pick_alias, is_candidate_alias};
use crate::slskd::{debug_quoted, debug_str};
use crate::text::{copy_opt, decimal, fmt_u64, opt_view, parse_u32, parse_u32_spec, split_at_char, split_char_once, str_eq, trim, trim_str};

verus! {

/// Overrides loaded from a `--tags` file, with CLI flags layered on top.
pub struct TagOverrides {
    pub artist: Option<String>,
    pub album: Option<String>,
    pub date: Option<String>,
    pub label: Option<String>,
    pub genre: Option<String>,
    pub cover: Option<String>,
    /// Track position to manual title (single-disc releases only).
    pub tracks: BTreeMap<u32, String>,
}

/// One-shot CLI flag values layered on top of loaded overrides.
pub struct FlagOverrides {
    pub artist: Option<String>,
    pub album: Option<String>,
    pub date: Option<String>,
    pub label: Option<String>,
    pub genre: Option<String>,
    pub cover: Option<String>,
    /// `<position>=<title>` strings.
    pub track_titles: Vec<String>,
}

/// The manual title for position `k`.
pub open spec fn title_at(m: Map<u32, String>, k: u32) -> Option<Seq<char>> {
    if m.contains_key(k) {
        Some(m[k]@)
    } else {
        None
    }
}

/// `u32` keys are ordered as the map needs.
proof fn lemma_u32_keys_ordered()
    ensures
        vstd::laws_cmp::obeys_cmp::<u32>(),
{
    broadcast use vstd::laws_cmp::group_laws_cmp;
}

/// A `--track-title` value read as a position and title, or the message it
/// is refused with.
pub open spec fn parse_track_title(raw: Seq<char>) -> Result<(u32, Seq<char>), Seq<char>> {
    match split_at_char(raw, '=') {
        None => Err("--track-title "@ + debug_str(raw) + " must be \"<position>=<title>\""@),
        Some((p, t)) => match parse_u32_spec(trim(p)) {
            None => Err("--track-title "@ + debug_str(raw) + " has a non-numeric position"@),
            Some(n) => Ok((n, t)),
        },
    }
}

/// How many leading `--track-title` values are well-formed.
pub open spec fn good_prefix(raws: Seq<Seq<char>>) -> int
    decreases raws.len(),
{
    if raws.len() == 0 {
        0
    } else if good_prefix(raws.drop_last()) == raws.len() - 1 && parse_track_title(raws.last()) is Ok {
        raws.len() as int
    } else {
        good_prefix(raws.drop_last())
    }
}

/// The title position `k` ends up with after the first `n` values are
/// applied in order over `old`.
pub open spec fn titles_after(old: Map<u32, String>, raws: Seq<Seq<char>>, n: int, k: u32) -> Option<Seq<char>>
    decreases n,
{
    if n <= 0 {
        title_at(old, k)
    } else {
        match parse_track_title(raws[n - 1]) {
            Ok((p, t)) => if p == k {
                Some(t)
            } else {
                titles_after(old, raws, n - 1, k)
            },
            Err(_) => titles_after(old, raws, n - 1, k),
        }
    }
}

pub open spec fn layered(flag: Option<String>, old: Option<String>) -> Option<Seq<char>> {
    if flag is Some {
        opt_view(flag)
    } else {
        opt_view(old)
    }
}

proof fn lemma_good_prefix_bounds(raws: Seq<Seq<char>>)
    ensures
        0 <= good_prefix(raws) <= raws.len(),
        good_prefix(raws) < raws.len() ==> parse_track_title(raws[good_prefix(raws)]) is Err,
        forall|i: int| 0 <= i < good_prefix(raws) ==> parse_track_title(#[trigger] raws[i]) is Ok,
    decreases raws.len(),
{
    if raws.len() > 0 {
        lemma_good_prefix_bounds(raws.drop_last());
        assert forall|i: int| 0 <= i < good_prefix(raws) implies parse_track_title(
            #[trigger] raws[i],
        ) is Ok by {
            if i < raws.len() - 1 {
                assert(raws[i] == raws.drop_last()[i]);
            }
        }
        if good_prefix(raws) < raws.len() {
            let g = good_prefix(raws.drop_last());
            if g < raws.len() - 1 {
                assert(raws[g] == raws.drop_last()[g]);
            }
        }
    }
}

proof fn lemma_good_prefix_extend(raws: Seq<Seq<char>>, i: int)
    requires
        0 <= i < raws.len(),
        forall|k: int| 0 <= k < i ==> parse_track_title(#[trigger] raws[k]) is Ok,
    ensures
        good_prefix(raws.subrange(0, i)) == i,
    decreases i,
{
    if i > 0 {
        lemma_good_prefix_extend(raws, i - 1);
        assert(raws.subrange(0, i).drop_last() =~= raws.subrange(0, i - 1));
        assert(raws.subrange(0, i).last() == raws[i - 1]);
    }
}

proof fn lemma_good_prefix_stop(raws: Seq<Seq<char>>, i: int)
    requires
        0 <= i <= raws.len(),
        good_prefix(raws.subrange(0, i)) < i,
    ensures
        good_prefix(raws) == good_prefix(raws.subrange(0, i)),
    decreases raws.len() - i,
{
    if i < raws.len() {
        assert(raws.subrange(0, i + 1).drop_last() =~= raws.subrange(0, i));
        lemma_good_prefix_stop(raws, i + 1);
    } else {
        assert(raws.subrange(0, i) =~= raws);
    }
}

fn layer(flag: Option<String>, field: &mut Option<String>)
    ensures
        opt_view(*final(field)) == layered(flag, *old(field)),
{
    if flag.is_some() {
        *field = flag;
    }
}

impl TagOverrides {
    /// CLI flags win over what the overrides file set for the same field;
    /// each `<position>=<title>` flag sets that position's title, in order.
    /// A malformed one stops there with its message, the fields and the
    /// titles before it already applied.
    pub fn apply_flag_overrides(&mut self, flags: FlagOverrides) -> (r: Result<(), Error>)
        ensures
            opt_view(final(self).artist) == layered(flags.artist, old(self).artist),
            opt_view(final(self).album) == layered(flags.album, old(self).album),
            opt_view(final(self).date) == layered(flags.date, old(self).date),
            opt_view(final(self).label) == layered(flags.label, old(self).label),
            opt_view(final(self).genre) == layered(flags.genre, old(self).genre),
            opt_view(final(self).cover) == layered(flags.cover, old(self).cover),
            ({
                let raws = crate::text::strs_view(flags.track_titles@);
                let g = good_prefix(raws);
                &&& forall|k: u32|
                    #[trigger] title_at(final(self).tracks@, k) == titles_after(
                        old(self).tracks@,
                        raws,
                        g,
                        k,
                    )
                &&& if g == raws.len() {
                    r is Ok
                } else {
                    r matches Err(Error::TagOverrides(m)) && parse_track_title(raws[g]) == Err::<
                        (u32, Seq<char>),
                        Seq<char>,
                    >(m@)
                }
            }),
    {
        let FlagOverrides { artist, album, date, label, genre, cover, track_titles } = flags;
        layer(artist, &mut self.artist);
        layer(album, &mut self.album);
        layer(date, &mut self.date);
        layer(label, &mut self.label);
        layer(genre, &mut self.genre);
        layer(cover, &mut self.cover);
        let ghost raws = crate::text::strs_view(track_titles@);
        let ghost t0 = self.tracks@;
        let ghost fields = (self.artist, self.album, self.date, self.label, self.genre, self.cover);
        assert(raws == crate::text::strs_view(flags.track_titles@));
        assert(t0 == old(self).tracks@);
        proof {
            lemma_good_prefix_bounds(raws);
        }
        let mut i: usize = 0;
        while i < track_titles.len()
            invariant
                i <= track_titles@.len(),
                raws == crate::text::strs_view(track_titles@),
                raws == crate::text::strs_view(flags.track_titles@),
                t0 == old(self).tracks@,
                fields == (self.artist, self.album, self.date, self.label, self.genre, self.cover),
                opt_view(self.artist) == layered(flags.artist, old(self).artist),
                opt_view(self.album) == layered(flags.album, old(self).album),
                opt_view(self.date) == layered(flags.date, old(self).date),
                opt_view(self.label) == layered(flags.label, old(self).label),
                opt_view(self.genre) == layered(flags.genre, old(self).genre),
                opt_view(self.cover) == layered(flags.cover, old(self).cover),
                forall|k: int| 0 <= k < i ==> parse_track_title(#[trigger] raws[k]) is Ok,
                forall|k: u32| #[trigger] title_at(self.tracks@, k) == titles_after(t0, raws, i as int, k),
            decreases track_titles@.len() - i,
        {
            let raw = track_titles[i].as_str();
            assert(raws[i as int] == raw@);
            let (pos_str, title) = match split_char_once(raw, '=') {
                Some(pt) => pt,
                None => {
                    let d = debug_quoted(raw);
                    let mut m = String::from_str("--track-title ");
                    m.append(d.as_str());
                    m.append(" must be \"<position>=<title>\"");
                    proof {
                        assert(parse_track_title(raws[i as int]) == Err::<(u32, Seq<char>), Seq<char>>(m@));
                        lemma_good_prefix_extend(raws, i as int);
                        assert(raws.subrange(0, i + 1).drop_last() =~= raws.subrange(0, i as int));
                        assert(raws.subrange(0, i + 1).last() == raws[i as int]);
                        assert(good_prefix(raws.subrange(0, i + 1)) == i as int);
                        lemma_good_prefix_stop(raws, i + 1);
                        assert(good_prefix(raws) == i as int);
                    }
                    return Err(Error::TagOverrides(m));
                },
            };
            let p = trim_str(pos_str.as_str());
            let pos = match parse_u32(p.as_str()) {
                Some(n) => n,
                None => {
                    let d = debug_quoted(raw);
                    let mut m = String::from_str("--track-title ");
                    m.append(d.as_str());
                    m.append(" has a non-numeric position");
                    proof {
                        assert(parse_track_title(raws[i as int]) == Err::<(u32, Seq<char>), Seq<char>>(m@));
                        lemma_good_prefix_extend(raws, i as int);
                        assert(raws.subrange(0, i + 1).drop_last() =~= raws.subrange(0, i as int));
                        assert(raws.subrange(0, i + 1).last() == raws[i as int]);
                        assert(good_prefix(raws.subrange(0, i + 1)) == i as int);
                        lemma_good_prefix_stop(raws, i + 1);
                        assert(good_prefix(raws) == i as int);
                    }
                    return Err(Error::TagOverrides(m));
                },
            };
            let ghost tv = title@;
            proof {
                lemma_u32_keys_ordered();
            }
            let ghost before = self.tracks@;
            let ghost title_val = title;
            self.tracks.insert(pos, title);
            proof {
                assert(self.tracks@ == before.insert(pos, title_val));
                assert(parse_track_title(raws[i as int]) == Ok::<(u32, Seq<char>), Seq<char>>((pos, tv)));
                assert forall|k: u32| #[trigger] title_at(self.tracks@, k) == titles_after(
                    t0,
                    raws,
                    i + 1,
                    k,
                ) by {
                    assert(title_at(before, k) == titles_after(t0, raws, i as int, k));
                    if k != pos {
                        assert(self.tracks@.contains_key(k) == before.contains_key(k));
                        if before.contains_key(k) {
                            assert(self.tracks@[k] == before[k]);
                        }
                    }
                }
            }
            i = i + 1;
        }
        proof {
            lemma_good_prefix_extend_full(raws);
        }
        Ok(())
    }
}

proof fn lemma_good_prefix_extend_full(raws: Seq<Seq<char>>)
    requires
        forall|k: int| 0 <= k < raws.len() ==> parse_track_title(#[trigger] raws[k]) is Ok,
    ensures
        good_prefix(raws) == raws.len(),
    decreases raws.len(),
{
    if raws.len() > 0 {
        assert forall|k: int| 0 <= k < raws.drop_last().len() implies parse_track_title(
            #[trigger] raws.drop_last()[k],
        ) is Ok by {
            assert(raws.drop_last()[k] == raws[k]);
        }
        lemma_good_prefix_extend_full(raws.drop_last());
    }
}

// ---------------------------------------------------------------------------
// Unresolved fields
// ---------------------------------------------------------------------------

/// A non-Latin field that neither an override nor an alias resolved.
pub struct Unresolved {
    pub field: String,
    pub native: String,
}

pub open spec fn unresolved_line(u: Unresolved) -> Seq<char> {
    "  "@ + u.field@ + ": "@ + u.native@
}

/// `  <field>: <native>` per entry, one per line.
pub fn format_unresolved(unresolved: &[Unresolved]) -> (r: String)
    ensures
        r@ == crate::slskd::join_seqs(
            unresolved@.map_values(|u: Unresolved| unresolved_line(u)),
            "\n"@,
        ),
{
    let ghost lines = unresolved@.map_values(|u: Unresolved| unresolved_line(u));
    let mut out = String::new();
    let mut i: usize = 0;
    while i < unresolved.len()
        invariant
            i <= unresolved@.len(),
            lines == unresolved@.map_values(|u: Unresolved| unresolved_line(u)),
            out@ == crate::slskd::join_seqs(lines.subrange(0, i as int), "\n"@),
        decreases unresolved@.len() - i,
    {
        if i > 0 {
            out.append("\n");
        }
        out.append("  ");
        out.append(unresolved[i].field.as_str());
        out.append(": ");
        out.append(unresolved[i].native.as_str());
        proof {
            let ls = lines.subrange(0, i + 1);
            assert(ls.drop_last() =~= lines.subrange(0, i as int));
            assert(ls.last() == unresolved_line(unresolved@[i as int]));
            if i == 0 {
                assert(ls.len() == 1);
            }
        }
        i = i + 1;
    }
    assert(lines.subrange(0, unresolved@.len() as int) =~= lines);
    out
}

} // verus!

verus! {

// ---------------------------------------------------------------------------
// Resolution
// ---------------------------------------------------------------------------

/// The alias lookups resolution needs, in the order they are made: the
/// release group's (for a non-Latin title without an override), each credited
/// artist's with a non-Latin name (when the joined credit is non-Latin and not
/// overridden), and each non-Latin track title's recording (when the track
/// has no manual title).
pub struct AliasRequests {
    pub release_group: Option<String>,
    /// Per credit part: the artist mbid to look up, if any.
    pub artists: Vec<Option<String>>,
    /// Per track: the recording mbid to look up, if any.
    pub recordings: Vec<Option<String>>,
}

/// What the lookups returned (`None` for a lookup not made or failed),
/// indexed as in `AliasRequests`.
pub struct AliasAnswers {
    pub release_group: Option<Vec<Alias>>,
    pub artists: Vec<Option<Vec<Alias>>>,
    pub recordings: Vec<Option<Vec<Alias>>>,
}

pub open spec fn answer_pick(a: Option<Vec<Alias>>) -> Option<Seq<char>> {
    match a {
        Some(v) => crate::romanize::picked_name(v@),
        None => None,
    }
}

/// The credit as MB joins it: each name followed by its join phrase.
pub open spec fn parts_joined(parts: Seq<ArtistCreditPart>) -> Seq<char>
    decreases parts.len(),
{
    if parts.len() == 0 {
        Seq::empty()
    } else {
        parts_joined(parts.drop_last()) + parts.last().name@ + parts.last().join_phrase@
    }
}

/// The credit rebuilt with each non-Latin name replaced by its picked alias,
/// and whether every such name had one.
pub open spec fn parts_rejoined(parts: Seq<ArtistCreditPart>, answers: Seq<Option<Vec<Alias>>>) -> (Seq<char>, bool)
    decreases parts.len(),
{
    if parts.len() == 0 {
        (Seq::empty(), true)
    } else {
        let (s, ok) = parts_rejoined(parts.drop_last(), answers.drop_last());
        let p = parts.last();
        if is_non_latin_spec(p.name@) {
            match answer_pick(answers.last()) {
                Some(r) => (s + r + p.join_phrase@, ok),
                None => (s + p.name@ + p.join_phrase@, false),
            }
        } else {
            (s + p.name@ + p.join_phrase@, ok)
        }
    }
}

pub open spec fn manual_title(ov: TagOverrides, t: NormalizedTrack) -> Option<Seq<char>> {
    match t.position {
        Some(p) => title_at(ov.tracks@, p),
        None => None,
    }
}

/// The request list for a release and its overrides.
pub open spec fn requests_spec(r: NormalizedRelease, ov: TagOverrides) -> (Option<Seq<char>>, Seq<Option<Seq<char>>>, Seq<Option<Seq<char>>>) {
    let group = if ov.album is None && is_non_latin_spec(r.title@) {
        opt_view(r.release_group_id)
    } else {
        None
    };
    let nj = parts_joined(r.artist_credit_parts@);
    let artists = r.artist_credit_parts@.map_values(
        |p: ArtistCreditPart|
            if ov.artist is None && is_non_latin_spec(nj) && is_non_latin_spec(p.name@) {
                Some(p.id@)
            } else {
                None
            },
    );
    let recs = r.tracks@.map_values(
        |t: NormalizedTrack|
            if manual_title(ov, t) is None && is_non_latin_spec(t.title@) {
                opt_view(t.recording_id)
            } else {
                None
            },
    );
    (group, artists, recs)
}

pub open spec fn opt_views(v: Seq<Option<String>>) -> Seq<Option<Seq<char>>> {
    v.map_values(|o: Option<String>| opt_view(o))
}

fn credit_joined(parts: &Vec<ArtistCreditPart>) -> (s: String)
    ensures
        s@ == parts_joined(parts@),
{
    let mut s = String::new();
    let mut i: usize = 0;
    while i < parts.len()
        invariant
            i <= parts@.len(),
            s@ == parts_joined(parts@.subrange(0, i as int)),
        decreases parts@.len() - i,
    {
        assert(parts@.subrange(0, i + 1).drop_last() =~= parts@.subrange(0, i as int));
        s.append(parts[i].name.as_str());
        s.append(parts[i].join_phrase.as_str());
        i = i + 1;
    }
    assert(parts@.subrange(0, parts@.len() as int) =~= parts@);
    s
}

fn manual_title_exec(ov: &TagOverrides, t: &NormalizedTrack) -> (r: Option<String>)
    ensures
        opt_view(r) == manual_title(*ov, *t),
{
    match t.position {
        None => None,
        Some(p) => {
            proof {
                lemma_u32_keys_ordered();
            }
            match ov.tracks.get(&p) {
                Some(s) => Some(s.clone()),
                None => None,
            }
        },
    }
}

/// Which alias lookups resolving `release` with `overrides` makes.
pub fn alias_requests(release: &NormalizedRelease, overrides: &TagOverrides) -> (q: AliasRequests)
    ensures
        (opt_view(q.release_group), opt_views(q.artists@), opt_views(q.recordings@)) == requests_spec(
            *release,
            *overrides,
        ),
{
    let group = if overrides.album.is_none() && is_non_latin(release.title.as_str()) {
        copy_opt(&release.release_group_id)
    } else {
        None
    };
    let nj = credit_joined(&release.artist_credit_parts);
    let credit_non_latin = overrides.artist.is_none() && is_non_latin(nj.as_str());
    let mut artists: Vec<Option<String>> = Vec::new();
    let mut i: usize = 0;
    while i < release.artist_credit_parts.len()
        invariant
            i <= release.artist_credit_parts@.len(),
            credit_non_latin == (overrides.artist is None && is_non_latin_spec(
                parts_joined(release.artist_credit_parts@),
            )),
            artists@.len() == i,
            forall|k: int|
                0 <= k < i ==> opt_view(#[trigger] artists@[k]) == (if credit_non_latin
                    && is_non_latin_spec(release.artist_credit_parts@[k].name@) {
                    Some(release.artist_credit_parts@[k].id@)
                } else {
                    None
                }),
        decreases release.artist_credit_parts@.len() - i,
    {
        let p = &release.artist_credit_parts[i];
        if credit_non_latin && is_non_latin(p.name.as_str()) {
            artists.push(Some(p.id.clone()));
        } else {
            artists.push(None);
        }
        i = i + 1;
    }
    let mut recs: Vec<Option<String>> = Vec::new();
    let mut j: usize = 0;
    while j < release.tracks.len()
        invariant
            j <= release.tracks@.len(),
            recs@.len() == j,
            forall|k: int|
                0 <= k < j ==> opt_view(#[trigger] recs@[k]) == (if manual_title(
                    *overrides,
                    release.tracks@[k],
                ) is None && is_non_latin_spec(release.tracks@[k].title@) {
                    opt_view(release.tracks@[k].recording_id)
                } else {
                    None
                }),
        decreases release.tracks@.len() - j,
    {
        let t = &release.tracks[j];
        let manual = manual_title_exec(overrides, t);
        if manual.is_none() && is_non_latin(t.title.as_str()) {
            recs.push(copy_opt(&t.recording_id));
        } else {
            recs.push(None);
        }
        j = j + 1;
    }
    let q = AliasRequests { release_group: group, artists, recordings: recs };
    assert(opt_views(q.artists@) =~= requests_spec(*release, *overrides).1);
    assert(opt_views(q.recordings@) =~= requests_spec(*release, *overrides).2);
    q
}

fn pick_answer(a: &Option<Vec<Alias>>) -> (r: Option<String>)
    ensures
        opt_view(r) == answer_pick(*a),
{
    match a {
        Some(v) => pick_alias(v.as_slice()),
        None => None,
    }
}

/// Album resolution: the new title and native title, and whether the title
/// stays unresolved.
pub open spec fn album_outcome(r: NormalizedRelease, ov: TagOverrides, ans: AliasAnswers) -> (Seq<char>, Option<Seq<char>>, bool) {
    match ov.album {
        Some(a) => if a@ != r.title@ {
            (a@, Some(r.title@), false)
        } else {
            (r.title@, opt_view(r.title_native), false)
        },
        None => if !is_non_latin_spec(r.title@) {
            (r.title@, opt_view(r.title_native), false)
        } else {
            match (if r.release_group_id is Some { answer_pick(ans.release_group) } else { None }) {
                Some(n) => (n, Some(r.title@), false),
                None => (r.title@, opt_view(r.title_native), true),
            }
        },
    }
}

/// Artist resolution: the new credit and native credit, and whether the
/// credit stays unresolved.
pub open spec fn artist_outcome(r: NormalizedRelease, ov: TagOverrides, ans: AliasAnswers) -> (Option<Seq<char>>, Option<Seq<char>>, bool) {
    let parts = r.artist_credit_parts@;
    let nj = parts_joined(parts);
    if parts.len() == 0 {
        (if ov.artist is Some { opt_view(ov.artist) } else { opt_view(r.artist_credit) }, opt_view(
            r.artist_credit_native,
        ), false)
    } else {
        match ov.artist {
            Some(a) => if a@ != nj {
                (Some(a@), Some(nj), false)
            } else {
                (opt_view(r.artist_credit), opt_view(r.artist_credit_native), false)
            },
            None => if !is_non_latin_spec(nj) {
                (opt_view(r.artist_credit), opt_view(r.artist_credit_native), false)
            } else {
                let (s, ok) = parts_rejoined(parts, ans.artists@);
                if ok {
                    (Some(s), Some(nj), false)
                } else {
                    (opt_view(r.artist_credit), opt_view(r.artist_credit_native), true)
                }
            },
        }
    }
}

/// Track resolution: new title and native title, and whether it stays
/// unresolved.
pub open spec fn track_outcome(t: NormalizedTrack, ov: TagOverrides, ans: Option<Vec<Alias>>) -> (Seq<char>, Option<Seq<char>>, bool) {
    match manual_title(ov, t) {
        Some(m) => if m != t.title@ {
            (m, Some(t.title@), false)
        } else {
            (t.title@, opt_view(t.title_native), false)
        },
        None => if !is_non_latin_spec(t.title@) {
            (t.title@, opt_view(t.title_native), false)
        } else {
            match (if t.recording_id is Some { answer_pick(ans) } else { None }) {
                Some(n) => (n, Some(t.title@), false),
                None => (t.title@, opt_view(t.title_native), true),
            }
        },
    }
}

/// How an unresolved track is named.
pub open spec fn track_field_name(t: NormalizedTrack) -> Seq<char> {
    match t.position {
        Some(p) => "track "@ + decimal(p as nat),
        None => "track (no position)"@,
    }
}

pub open spec fn unresolved_view(u: Unresolved) -> (Seq<char>, Seq<char>) {
    (u.field@, u.native@)
}

/// Unresolved tracks among the first `n`, in order.
pub open spec fn unresolved_tracks(ts: Seq<NormalizedTrack>, ov: TagOverrides, ans: Seq<Option<Vec<Alias>>>, n: int) -> Seq<(Seq<char>, Seq<char>)>
    decreases n,
{
    if n <= 0 {
        Seq::empty()
    } else {
        unresolved_tracks(ts, ov, ans, n - 1) + if track_outcome(ts[n - 1], ov, ans[n - 1]).2 {
            seq![(track_field_name(ts[n - 1]), ts[n - 1].title@)]
        } else {
            Seq::empty()
        }
    }
}

/// Everything left unresolved, in order: album, artist, then tracks.
pub open spec fn unresolved_spec(r: NormalizedRelease, ov: TagOverrides, ans: AliasAnswers) -> Seq<(Seq<char>, Seq<char>)> {
    (if album_outcome(r, ov, ans).2 {
        seq![("album"@, r.title@)]
    } else {
        Seq::empty()
    }) + (if artist_outcome(r, ov, ans).2 {
        seq![("artist"@, parts_joined(r.artist_credit_parts@))]
    } else {
        Seq::empty()
    }) + unresolved_tracks(r.tracks@, ov, ans.recordings@, r.tracks@.len() as int)
}

fn rejoin_parts(parts: &Vec<ArtistCreditPart>, answers: &Vec<Option<Vec<Alias>>>) -> (r: (String, bool))
    requires
        answers@.len() == parts@.len(),
    ensures
        (r.0@, r.1) == parts_rejoined(parts@, answers@),
{
    let mut s = String::new();
    let mut ok = true;
    let mut i: usize = 0;
    while i < parts.len()
        invariant
            answers@.len() == parts@.len(),
            i <= parts@.len(),
            (s@, ok) == parts_rejoined(parts@.subrange(0, i as int), answers@.subrange(0, i as int)),
        decreases parts@.len() - i,
    {
        assert(parts@.subrange(0, i + 1).drop_last() =~= parts@.subrange(0, i as int));
        assert(answers@.subrange(0, i + 1).drop_last() =~= answers@.subrange(0, i as int));
        let p = &parts[i];
        if is_non_latin(p.name.as_str()) {
            match pick_answer(&answers[i]) {
                Some(r) => s.append(r.as_str()),
                None => {
                    ok = false;
                    s.append(p.name.as_str());
                },
            }
        } else {
            s.append(p.name.as_str());
        }
        s.append(p.join_phrase.as_str());
        i = i + 1;
    }
    assert(parts@.subrange(0, parts@.len() as int) =~= parts@);
    assert(answers@.subrange(0, answers@.len() as int) =~= answers@);
    (s, ok)
}

fn resolve_track(t: &NormalizedTrack, ov: &TagOverrides, ans: &Option<Vec<Alias>>) -> (r: (NormalizedTrack, bool))
    ensures
        (r.0.title@, opt_view(r.0.title_native), r.1) == track_outcome(*t, *ov, *ans),
        r.0.position == t.position,
        r.0.length_ms == t.length_ms,
        opt_view(r.0.recording_id) == opt_view(t.recording_id),
        opt_view(r.0.medium_format) == opt_view(t.medium_format),
        r.0.medium_position == t.medium_position,
        opt_view(r.0.raw_position) == opt_view(t.raw_position),
{
    let manual = manual_title_exec(ov, t);
    let (title, native, unresolved): (String, Option<String>, bool) = match manual {
        Some(m) => {
            if !str_eq(m.as_str(), t.title.as_str()) {
                (m, Some(t.title.clone()), false)
            } else {
                (t.title.clone(), copy_opt(&t.title_native), false)
            }
        },
        None => {
            if !is_non_latin(t.title.as_str()) {
                (t.title.clone(), copy_opt(&t.title_native), false)
            } else {
                let picked = if t.recording_id.is_some() { pick_answer(ans) } else { None };
                match picked {
                    Some(n) => (n, Some(t.title.clone()), false),
                    None => (t.title.clone(), copy_opt(&t.title_native), true),
                }
            }
        },
    };
    (
        NormalizedTrack {
            position: t.position,
            title,
            length_ms: t.length_ms,
            recording_id: copy_opt(&t.recording_id),
            medium_format: copy_opt(&t.medium_format),
            medium_position: t.medium_position,
            raw_position: copy_opt(&t.raw_position),
            title_native: native,
        },
        unresolved,
    )
}

fn track_field_text(t: &NormalizedTrack) -> (s: String)
    ensures
        s@ == track_field_name(*t),
{
    match t.position {
        Some(p) => {
            let mut s = String::from_str("track ");
            let n = fmt_u64(p as u64);
            s.append(n.as_str());
            s
        },
        None => String::from_str("track (no position)"),
    }
}

/// Applies the overrides and the looked-up romanization aliases to `release`
/// in place: manual values win; a non-Latin title, credit or track title
/// takes its picked alias; date and label take the override when set, genre
/// always takes it. Returns every non-Latin field that neither resolved.
pub fn resolve(release: &mut NormalizedRelease, overrides: &TagOverrides, answers: &AliasAnswers) -> (u: Vec<Unresolved>)
    requires
        answers.artists@.len() == old(release).artist_credit_parts@.len(),
        answers.recordings@.len() == old(release).tracks@.len(),
    ensures
        ({
            let r0 = *old(release);
            let r1 = *final(release);
            let (title, title_native, _) = album_outcome(r0, *overrides, *answers);
            let (credit, credit_native, _) = artist_outcome(r0, *overrides, *answers);
            &&& r1.title@ == title
            &&& opt_view(r1.title_native) == title_native
            &&& opt_view(r1.artist_credit) == credit
            &&& opt_view(r1.artist_credit_native) == credit_native
            &&& opt_view(r1.date) == layered(overrides.date, r0.date)
            &&& opt_view(r1.label) == layered(overrides.label, r0.label)
            &&& opt_view(r1.genre) == opt_view(overrides.genre)
            &&& r1.id == r0.id
            &&& r1.artist_credit_parts == r0.artist_credit_parts
            &&& r1.release_group_id == r0.release_group_id
            &&& r1.track_count == r0.track_count
            &&& r1.tracks@.len() == r0.tracks@.len()
            &&& forall|j: int|
                0 <= j < r1.tracks@.len() ==> (#[trigger] r1.tracks@[j]).title@ == track_outcome(
                    r0.tracks@[j],
                    *overrides,
                    answers.recordings@[j],
                ).0 && opt_view(r1.tracks@[j].title_native) == track_outcome(
                    r0.tracks@[j],
                    *overrides,
                    answers.recordings@[j],
                ).1 && r1.tracks@[j].position == r0.tracks@[j].position
                    && r1.tracks@[j].medium_position == r0.tracks@[j].medium_position
                    && opt_view(r1.tracks@[j].recording_id) == opt_view(r0.tracks@[j].recording_id)
            &&& u@.map_values(|x: Unresolved| unresolved_view(x)) == unresolved_spec(
                r0,
                *overrides,
                *answers,
            )
        }),
{
    let ghost r0 = *release;
    let mut unresolved: Vec<Unresolved> = Vec::new();
    // album
    let mut album_unresolved = false;
    match &overrides.album {
        Some(a) => {
            if !str_eq(a.as_str(), release.title.as_str()) {
                release.title_native = Some(release.title.clone());
                release.title = a.clone();
            }
        },
        None => {
            if is_non_latin(release.title.as_str()) {
                let picked = if release.release_group_id.is_some() {
                    pick_answer(&answers.release_group)
                } else {
                    None
                };
                match picked {
                    Some(n) => {
                        release.title_native = Some(release.title.clone());
                        release.title = n;
                    },
                    None => {
                        album_unresolved = true;
                        unresolved.push(Unresolved { field: String::from_str("album"), native: release.title.clone() });
                    },
                }
            }
        },
    }
    assert(album_unresolved == album_outcome(r0, *overrides, *answers).2);
    // artist
    let mut artist_unresolved = false;
    if release.artist_credit_parts.len() == 0 {
        match &overrides.artist {
            Some(a) => release.artist_credit = Some(a.clone()),
            None => {},
        }
    } else {
        let nj = credit_joined(&release.artist_credit_parts);
        match &overrides.artist {
            Some(a) => {
                if !str_eq(a.as_str(), nj.as_str()) {
                    release.artist_credit_native = Some(nj);
                    release.artist_credit = Some(a.clone());
                }
            },
            None => {
                if is_non_latin(nj.as_str()) {
                    let (s, ok) = rejoin_parts(&release.artist_credit_parts, &answers.artists);
                    if ok {
                        release.artist_credit_native = Some(nj);
                        release.artist_credit = Some(s);
                    } else {
                        artist_unresolved = true;
                        unresolved.push(Unresolved { field: String::from_str("artist"), native: nj });
                    }
                }
            },
        }
    }
    assert(artist_unresolved == artist_outcome(r0, *overrides, *answers).2);
    let ghost head = unresolved@.map_values(|x: Unresolved| unresolved_view(x));
    assert(head =~= (if album_outcome(r0, *overrides, *answers).2 {
        seq![("album"@, r0.title@)]
    } else {
        Seq::empty()
    }) + (if artist_outcome(r0, *overrides, *answers).2 {
        seq![("artist"@, parts_joined(r0.artist_credit_parts@))]
    } else {
        Seq::empty()
    }));
    // date, label, genre
    if overrides.date.is_some() {
        release.date = copy_opt(&overrides.date);
    }
    if overrides.label.is_some() {
        release.label = copy_opt(&overrides.label);
    }
    release.genre = copy_opt(&overrides.genre);
    // tracks
    let mut tracks: Vec<NormalizedTrack> = Vec::new();
    let mut j: usize = 0;
    while j < release.tracks.len()
        invariant
            release.tracks@ == r0.tracks@,
            answers.recordings@.len() == r0.tracks@.len(),
            j <= r0.tracks@.len(),
            tracks@.len() == j,
            forall|k: int|
                0 <= k < j ==> (#[trigger] tracks@[k]).title@ == track_outcome(
                    r0.tracks@[k],
                    *overrides,
                    answers.recordings@[k],
                ).0 && opt_view(tracks@[k].title_native) == track_outcome(
                    r0.tracks@[k],
                    *overrides,
                    answers.recordings@[k],
                ).1 && tracks@[k].position == r0.tracks@[k].position && tracks@[k].medium_position
                    == r0.tracks@[k].medium_position && opt_view(tracks@[k].recording_id) == opt_view(
                    r0.tracks@[k].recording_id,
                ),
            unresolved@.map_values(|x: Unresolved| unresolved_view(x)) == head + unresolved_tracks(
                r0.tracks@,
                *overrides,
                answers.recordings@,
                j as int,
            ),
        decreases r0.tracks@.len() - j,
    {
        let (nt, unres) = resolve_track(&release.tracks[j], overrides, &answers.recordings[j]);
        let ghost u0 = unresolved@;
        let ghost t_j = r0.tracks@[j as int];
        assert(release.tracks@[j as int] == t_j);
        assert(unres == track_outcome(t_j, *overrides, answers.recordings@[j as int]).2);
        if unres {
            let f = track_field_text(&release.tracks[j]);
            let native = release.tracks[j].title.clone();
            let ghost entry = (f@, native@);
            unresolved.push(Unresolved { field: f, native });
            proof {
                assert(entry == (track_field_name(t_j), t_j.title@));
                assert(unresolved@.map_values(|x: Unresolved| unresolved_view(x)) =~= u0.map_values(
                    |x: Unresolved| unresolved_view(x),
                ).push(entry));
            }
        }
        proof {
            let ut0 = unresolved_tracks(r0.tracks@, *overrides, answers.recordings@, j as int);
            let ut1 = unresolved_tracks(r0.tracks@, *overrides, answers.recordings@, j + 1);
            assert(ut1 == ut0 + if track_outcome(t_j, *overrides, answers.recordings@[j as int]).2 {
                seq![(track_field_name(t_j), t_j.title@)]
            } else {
                Seq::empty()
            });
            assert(unresolved@.map_values(|x: Unresolved| unresolved_view(x)) =~= head + ut1);
        }
        tracks.push(nt);
        j = j + 1;
    }
    release.tracks = tracks;
    unresolved
}


/// A manual artist override wins: the resolved credit is the override
/// whenever the release has no credit parts to compare it with (a Lidarr or
/// synthetic release), whenever it differs from the joined credit parts
/// (which are then kept as the native credit), and whenever the release's
/// credit already spells those parts; and an overridden artist is never
/// reported unresolved and asks for no alias.
pub proof fn law_artist_override_wins(r: NormalizedRelease, ov: TagOverrides, ans: AliasAnswers)
    requires
        ov.artist is Some,
    ensures
        ({
            let a = ov.artist->0@;
            let nj = parts_joined(r.artist_credit_parts@);
            let (credit, native, unresolved) = artist_outcome(r, ov, ans);
            &&& r.artist_credit_parts@.len() == 0 ==> credit == Some(a) && native == opt_view(
                r.artist_credit_native,
            )
            &&& r.artist_credit_parts@.len() > 0 && a != nj ==> credit == Some(a) && native == Some(nj)
            &&& opt_view(r.artist_credit) == Some(nj) ==> credit == Some(a)
            &&& !unresolved
        }),
{
}

/// The album title is reported unresolved exactly when, with no album
/// override, the title it ends with is still non-Latin: an alias, when one
/// is taken, is Latin.
pub proof fn law_album_unresolved_iff_native(r: NormalizedRelease, ov: TagOverrides, ans: AliasAnswers)
    ensures
        album_outcome(r, ov, ans).2 <==> (ov.album is None && is_non_latin_spec(album_outcome(r, ov, ans).0)),
{
    crate::romanize::law_picked_name_is_latin(ans.release_group.unwrap()@);
}

/// A track title is reported unresolved exactly when, with no title
/// override for its position, the title it ends with is still non-Latin.
pub proof fn law_track_unresolved_iff_native(t: NormalizedTrack, ov: TagOverrides, ans: Option<Vec<Alias>>)
    ensures
        track_outcome(t, ov, ans).2 <==> (manual_title(ov, t) is None && is_non_latin_spec(
            track_outcome(t, ov, ans).0,
        )),
{
    crate::romanize::law_picked_name_is_latin(ans.unwrap()@);
}

} // verus!
