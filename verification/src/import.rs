//! Importing matched files: library file naming, filename hints, the
//! assignment of local files to release tracks, forced mappings and the
//! destination plan.

use vstd::prelude::*;
use vstd::string::StringSliceAdditionalSpecFns;

use crate::paths::{file_stem, path_file_stem};
use crate::release::{NormalizedRelease, NormalizedTrack};
use crate::text::{copy_opt, opt_view, decimal, decimal_pad2, fmt_u64, fmt_u64_pad2};
use crate::paths::{extension, join, path_equal, path_extension, path_join, paths_equal};
use crate::slskd::{debug_quoted, debug_str};
use crate::error::Error;
use crate::text::{
    chars_of, is_first_char, is_ws, parse_u32, parse_u32_spec, slice_range, string_of, trim,
    trim_bounds, trim_str,
};

verus! {

/// Characters that may not appear in a library file or directory name.
pub open spec fn is_reserved(c: char) -> bool {
    c == '/' || c == '\\' || c == ':' || c == '*' || c == '?' || c == '"' || c == '<' || c == '>'
        || c == '|'
}

/// `str::trim_end_matches('.')`.
pub open spec fn trim_end_dots(s: Seq<char>) -> Seq<char>
    decreases s.len(),
{
    if s.len() > 0 && s.last() == '.' {
        trim_end_dots(s.drop_last())
    } else {
        s
    }
}

/// Reserved characters become `_`, then surrounding whitespace and any
/// trailing dots are removed.
pub open spec fn sanitize_spec(s: Seq<char>) -> Seq<char> {
    trim_end_dots(trim(s.map_values(|c: char| if is_reserved(c) { '_' } else { c })))
}

/// Makes a string safe as a single path component.
pub fn sanitize(s: &str) -> (r: String)
    ensures
        r@ == sanitize_spec(s@),
{
    let cs = chars_of(s);
    let mut mapped: Vec<char> = Vec::new();
    let mut i: usize = 0;
    while i < cs.len()
        invariant
            cs@ == s@,
            i <= cs@.len(),
            mapped@ == s@.subrange(0, i as int).map_values(
                |c: char| if is_reserved(c) { '_' } else { c },
            ),
        decreases cs@.len() - i,
    {
        let c = cs[i];
        let m = if c == '/' || c == '\\' || c == ':' || c == '*' || c == '?' || c == '"' || c
            == '<' || c == '>' || c == '|' {
            '_'
        } else {
            c
        };
        mapped.push(m);
        assert(s@.subrange(0, i + 1).map_values(|c: char| if is_reserved(c) { '_' } else { c })
            =~= s@.subrange(0, i as int).map_values(
            |c: char| if is_reserved(c) { '_' } else { c },
        ).push(m));
        i = i + 1;
    }
    assert(s@.subrange(0, cs@.len() as int) =~= s@);
    let (lo, hi) = trim_bounds(&mapped);
    let t = slice_range(&mapped, lo, hi);
    let mut end: usize = t.len();
    assert(t@.subrange(0, end as int) =~= t@);
    while end > 0 && t[end - 1] == '.'
        invariant
            end <= t@.len(),
            trim_end_dots(t@) == trim_end_dots(t@.subrange(0, end as int)),
        decreases end,
    {
        assert(t@.subrange(0, end as int).drop_last() =~= t@.subrange(0, end - 1));
        end = end - 1;
    }
    string_of(slice_range(t, 0, end))
}

/// No character of `s` is reserved.
pub open spec fn no_reserved(s: Seq<char>) -> bool {
    forall|i: int| 0 <= i < s.len() ==> !is_reserved(#[trigger] s[i])
}

proof fn lemma_no_reserved_trim_start(s: Seq<char>)
    requires
        no_reserved(s),
    ensures
        no_reserved(crate::text::trim_start(s)),
    decreases s.len(),
{
    if s.len() > 0 && is_ws(s[0]) {
        assert forall|i: int| 0 <= i < s.drop_first().len() implies !is_reserved(#[trigger] s.drop_first()[i]) by {
            assert(s.drop_first()[i] == s[i + 1]);
        }
        lemma_no_reserved_trim_start(s.drop_first());
    }
}

proof fn lemma_no_reserved_trim_end(s: Seq<char>)
    requires
        no_reserved(s),
    ensures
        no_reserved(crate::text::trim_end(s)),
    decreases s.len(),
{
    if s.len() > 0 && is_ws(s.last()) {
        assert forall|i: int| 0 <= i < s.drop_last().len() implies !is_reserved(#[trigger] s.drop_last()[i]) by {
            assert(s.drop_last()[i] == s[i]);
        }
        lemma_no_reserved_trim_end(s.drop_last());
    }
}

proof fn lemma_trim_end_dots(s: Seq<char>)
    requires
        no_reserved(s),
    ensures
        no_reserved(trim_end_dots(s)),
        trim_end_dots(s).len() > 0 ==> trim_end_dots(s).last() != '.',
    decreases s.len(),
{
    if s.len() > 0 && s.last() == '.' {
        assert forall|i: int| 0 <= i < s.drop_last().len() implies !is_reserved(#[trigger] s.drop_last()[i]) by {
            assert(s.drop_last()[i] == s[i]);
        }
        lemma_trim_end_dots(s.drop_last());
    }
}

/// A sanitized name holds no reserved character and does not end with a
/// dot.
pub proof fn law_sanitized_name_is_safe(s: Seq<char>)
    ensures
        no_reserved(sanitize_spec(s)),
        sanitize_spec(s).len() > 0 ==> sanitize_spec(s).last() != '.',
{
    let m = s.map_values(|c: char| if is_reserved(c) { '_' } else { c });
    assert forall|i: int| 0 <= i < m.len() implies !is_reserved(#[trigger] m[i]) by {}
    lemma_no_reserved_trim_start(m);
    lemma_no_reserved_trim_end(crate::text::trim_start(m));
    lemma_trim_end_dots(trim(m));
}

pub open spec fn count_char(s: Seq<char>, c: char) -> nat
    decreases s.len(),
{
    if s.len() == 0 {
        0
    } else {
        count_char(s.drop_last(), c) + if s.last() == c {
            1nat
        } else {
            0nat
        }
    }
}

/// 36 bytes with exactly four dashes: the shape of a MusicBrainz id.
pub open spec fn looks_like_mbid_spec(s: Seq<char>) -> bool {
    vstd::utf8::encode_utf8(s).len() as usize == 36 && count_char(s, '-') == 4
}

pub fn looks_like_mbid(s: &str) -> (r: bool)
    ensures
        r == looks_like_mbid_spec(s@),
{
    if s.len() != 36 {
        return false;
    }
    let cs = chars_of(s);
    let mut n: usize = 0;
    let mut i: usize = 0;
    while i < cs.len()
        invariant
            cs@ == s@,
            i <= cs@.len(),
            n == count_char(s@.subrange(0, i as int), '-'),
            n <= i,
        decreases cs@.len() - i,
    {
        assert(s@.subrange(0, i + 1).drop_last() =~= s@.subrange(0, i as int));
        if cs[i] == '-' {
            n = n + 1;
        }
        i = i + 1;
    }
    assert(s@.subrange(0, cs@.len() as int) =~= s@);
    n == 4
}

/// Title and track number a file name suggests: `"<n> - <title>"` stems give
/// both (when the part before the first `-` trims to a number), any other
/// stem is taken whole as the title; an empty title is no title.
pub open spec fn filename_hint_spec(path: Seq<char>) -> (Option<Seq<char>>, Option<u32>) {
    let stem = match path_file_stem(path) {
        Some(s) => s,
        None => Seq::empty(),
    };
    let (num, title) = if stem.contains('-') {
        let i = choose|i: int| is_first_char(stem, '-', i);
        match parse_u32_spec(trim(stem.subrange(0, i))) {
            Some(n) => (Some(n), trim(stem.subrange(i + 1, stem.len() as int))),
            None => (None, stem),
        }
    } else {
        (None, stem)
    };
    (if title.len() == 0 { None } else { Some(title) }, num)
}

pub fn filename_hint(path: &str) -> (r: (Option<String>, Option<u32>))
    ensures
        r.1 == filename_hint_spec(path@).1,
        match r.0 {
            Some(t) => filename_hint_spec(path@).0 == Some(t@),
            None => filename_hint_spec(path@).0 is None,
        },
{
    let stem = match file_stem(path) {
        Some(s) => s,
        None => String::new(),
    };
    let cs = chars_of(stem.as_str());
    let n = cs.len();
    let (num, title): (Option<u32>, String) = match crate::text::find_char(&cs, '-') {
        Some(i) => {
            proof {
                let j = choose|j: int| is_first_char(stem@, '-', j);
                assert(stem@.contains('-')) by {
                    assert(stem@[i as int] == '-');
                }
                if j < i {
                    assert(stem@[j] != '-');
                } else if i < j {
                    assert(stem@[i as int] != '-');
                }
            }
            let head = trim_str(string_of(slice_range(&cs, 0, i)).as_str());
            match parse_u32(head.as_str()) {
                Some(v) => {
                    let tail = trim_str(string_of(slice_range(&cs, i + 1, n)).as_str());
                    (Some(v), tail)
                },
                None => (None, stem),
            }
        },
        None => (None, stem),
    };
    if char_count_is_zero(title.as_str()) {
        (None, num)
    } else {
        (Some(title), num)
    }
}

fn char_count_is_zero(s: &str) -> (r: bool)
    ensures
        r == (s@.len() == 0),
{
    crate::text::char_count(s) == 0
}

/// A release track no local file was matched to.
#[derive(Debug)]
pub struct MissingTrack {
    pub position: Option<u32>,
    pub medium_position: Option<u32>,
    pub title: String,
    pub recording_id: Option<String>,
}

/// Where an import places a file.
#[derive(Debug)]
pub struct ImportedFile {
    pub source: String,
    pub dest: String,
}

pub struct ImportOptions {
    pub dry_run: bool,
    pub library_root: String,
    /// Move instead of copy; falls back to copy+remove across filesystems.
    pub move_files: bool,
}

} // verus!

verus! {

// ---------------------------------------------------------------------------
// Matching local files to release tracks
// ---------------------------------------------------------------------------

/// Scaled distance of a hopeless pair; also what a padding row or column
/// costs, so real matches win and leftovers can go unmatched.
pub const SCALE: i64 = 1_000_000;

/// A local audio file as the matcher sees it (its duration, a float, stays
/// with the caller that computes distances).
pub struct LocalTrack {
    pub path: String,
    pub title: Option<String>,
    pub artist: Option<String>,
    pub track_number: Option<u32>,
    pub musicbrainz_recording_id: Option<String>,
}

/// A local file paired with a release track.
pub struct MatchedTrack {
    pub file: String,
    pub position: Option<u32>,
    pub medium_position: Option<u32>,
    pub title: String,
    /// Original title, set only when `title` was romanized.
    pub title_native: Option<String>,
    pub recording_id: Option<String>,
    /// The matched track's raw MB track number.
    pub raw_position: Option<String>,
}

pub struct MatchReport {
    pub matched: Vec<MatchedTrack>,
    pub unmatched_files: Vec<String>,
    pub missing_tracks: Vec<MissingTrack>,
}

impl MatchReport {
    /// Blocks the copy/tag step whenever either set is non-empty.
    pub fn blocked(&self) -> (r: bool)
        ensures
            r == (self.unmatched_files@.len() > 0 || self.missing_tracks@.len() > 0),
    {
        self.unmatched_files.len() > 0 || self.missing_tracks.len() > 0
    }

    /// Blocks only on unmatched files; missing release tracks (a partial
    /// album) are reported, not fatal.
    pub fn blocked_unmatched(&self) -> (r: bool)
        ensures
            r == (self.unmatched_files@.len() > 0),
    {
        self.unmatched_files.len() > 0
    }
}

/// Which local file (row) went to which release track (column), by index.
pub struct MatchPlan {
    pub pairs: Vec<(usize, usize)>,
    pub unmatched_files: Vec<usize>,
    pub missing_tracks: Vec<usize>,
}

pub open spec fn cost_rows(costs: Seq<Vec<i64>>) -> Seq<Seq<i64>> {
    costs.map_values(|r: Vec<i64>| r@)
}

pub open spec fn bool_rows(rows: Seq<Vec<bool>>) -> Seq<Seq<bool>> {
    rows.map_values(|r: Vec<bool>| r@)
}

/// The assignment `kuhn_munkres_min` returns for a square cost matrix.
pub uninterp spec fn kuhn_munkres_assignment(costs: Seq<Seq<i64>>) -> Seq<usize>;

/// `a` gives each of `k` rows its own column among `k`.
pub open spec fn is_assignment(a: Seq<usize>, k: int) -> bool {
    &&& a.len() == k
    &&& forall|i: int| 0 <= i < k ==> (#[trigger] a[i] as int) < k
    &&& forall|i: int, j: int| 0 <= i < j < k ==> #[trigger] a[i] != #[trigger] a[j]
}

/// Total cost of an assignment.
pub open spec fn assignment_cost(costs: Seq<Seq<i64>>, a: Seq<usize>) -> int
    decreases a.len(),
{
    if a.len() == 0 {
        0
    } else {
        assignment_cost(costs, a.drop_last()) + costs[a.len() - 1][a.last() as int]
    }
}

pub open spec fn square_costs(costs: Seq<Seq<i64>>, k: int) -> bool {
    &&& costs.len() == k
    &&& forall|i: int| 0 <= i < k ==> (#[trigger] costs[i]).len() == k
    &&& forall|i: int, j: int| 0 <= i < k && 0 <= j < k ==> 0 <= #[trigger] costs[i][j] <= SCALE
}

/// pathfinding's `kuhn_munkres_min` on a square matrix (built with
/// `Matrix::from_rows`): the column it gives each row. The crate documents the
/// result as a minimum-weight maximum matching, so it is an assignment whose
/// total cost no other assignment undercuts; the contract names the result
/// and states that. Sizes are kept far below where its weight sums could
/// overflow.
#[verifier::external_body]
fn min_cost_assignment(costs: Vec<Vec<i64>>) -> (r: Vec<usize>)
    requires
        0 < costs@.len() <= 1_000_000,
        square_costs(cost_rows(costs@), costs@.len() as int),
    ensures
        r@ == kuhn_munkres_assignment(cost_rows(costs@)),
        is_assignment(r@, costs@.len() as int),
        forall|p: Seq<usize>|
            is_assignment(p, costs@.len() as int) ==> assignment_cost(cost_rows(costs@), r@)
                <= #[trigger] assignment_cost(cost_rows(costs@), p),
{
    match pathfinding::matrix::Matrix::from_rows(costs) {
        Ok(weights) => pathfinding::kuhn_munkres::kuhn_munkres_min(&weights).1,
        Err(_) => Vec::new(),
    }
}

pub open spec fn max_int(a: int, b: int) -> int {
    if a < b {
        b
    } else {
        a
    }
}

/// The `n x m` costs padded to a `k x k` square with `SCALE`.
pub open spec fn padded_costs(costs: Seq<Seq<i64>>, n: int, m: int, k: int) -> Seq<Seq<i64>> {
    Seq::new(
        k as nat,
        |i: int| Seq::new(k as nat, |j: int| if i < n && j < m { costs[i][j] } else { SCALE }),
    )
}

/// Row `i` keeps its assigned column: a real track, at a distance the caller
/// accepted.
pub open spec fn accepted(a: Seq<usize>, accept: Seq<Seq<bool>>, m: int, i: int) -> bool {
    (a[i] as int) < m && accept[i][a[i] as int]
}

pub open spec fn matched_pairs(a: Seq<usize>, accept: Seq<Seq<bool>>, m: int, i: int) -> Seq<
    (usize, usize),
>
    decreases i,
{
    if i <= 0 {
        Seq::empty()
    } else {
        matched_pairs(a, accept, m, i - 1) + if accepted(a, accept, m, i - 1) {
            seq![((i - 1) as usize, a[i - 1])]
        } else {
            Seq::empty()
        }
    }
}

pub open spec fn unmatched_rows(a: Seq<usize>, accept: Seq<Seq<bool>>, m: int, i: int) -> Seq<usize>
    decreases i,
{
    if i <= 0 {
        Seq::empty()
    } else {
        unmatched_rows(a, accept, m, i - 1) + if accepted(a, accept, m, i - 1) {
            Seq::empty()
        } else {
            seq![(i - 1) as usize]
        }
    }
}

/// Some accepted row among the first `n` was given column `j`.
pub open spec fn taken(a: Seq<usize>, accept: Seq<Seq<bool>>, n: int, m: int, j: int) -> bool {
    exists|i: int| 0 <= i < n && accepted(a, accept, m, i) && a[i] as int == j
}

pub open spec fn missing_cols(a: Seq<usize>, accept: Seq<Seq<bool>>, n: int, m: int, j: int) -> Seq<
    usize,
>
    decreases j,
{
    if j <= 0 {
        Seq::empty()
    } else {
        missing_cols(a, accept, n, m, j - 1) + if taken(a, accept, n, m, j - 1) {
            Seq::empty()
        } else {
            seq![(j - 1) as usize]
        }
    }
}

/// The assignment the plan reads: Kuhn-Munkres on the padded matrix.
pub open spec fn plan_assignment(costs: Seq<Seq<i64>>, n: int, m: int) -> Seq<usize> {
    kuhn_munkres_assignment(padded_costs(costs, n, m, max_int(n, m)))
}

pub open spec fn costs_shape(costs: Seq<Seq<i64>>, accept: Seq<Seq<bool>>, m: int) -> bool {
    &&& costs.len() == accept.len()
    &&& forall|i: int| 0 <= i < costs.len() ==> (#[trigger] costs[i]).len() == m
    &&& forall|i: int| 0 <= i < accept.len() ==> (#[trigger] accept[i]).len() == m
    &&& forall|i: int, j: int|
        0 <= i < costs.len() && 0 <= j < m ==> 0 <= #[trigger] costs[i][j] <= SCALE
}

fn padded_matrix(costs: &Vec<Vec<i64>>, m: usize, k: usize) -> (r: Vec<Vec<i64>>)
    requires
        forall|i: int| 0 <= i < costs@.len() ==> (#[trigger] costs@[i])@.len() == m,
        costs@.len() <= k,
        m <= k,
    ensures
        cost_rows(r@) == padded_costs(cost_rows(costs@), costs@.len() as int, m as int, k as int),
{
    let n = costs.len();
    let mut out: Vec<Vec<i64>> = Vec::new();
    let mut i: usize = 0;
    while i < k
        invariant
            n == costs@.len(),
            i <= k,
            n <= k,
            m <= k,
            forall|q: int| 0 <= q < n ==> (#[trigger] costs@[q])@.len() == m,
            out@.len() == i,
            forall|q: int|
                0 <= q < i ==> (#[trigger] out@[q])@ == padded_costs(
                    cost_rows(costs@),
                    n as int,
                    m as int,
                    k as int,
                )[q],
        decreases k - i,
    {
        let mut row: Vec<i64> = Vec::new();
        let mut j: usize = 0;
        while j < k
            invariant
                n == costs@.len(),
                i < k,
                j <= k,
                forall|q: int| 0 <= q < n ==> (#[trigger] costs@[q])@.len() == m,
                row@.len() == j,
                forall|q: int|
                    0 <= q < j ==> #[trigger] row@[q] == (if (i as int) < n && q < m {
                        costs@[i as int]@[q]
                    } else {
                        SCALE
                    }),
            decreases k - j,
        {
            if i < n && j < m {
                row.push(costs[i][j]);
            } else {
                row.push(SCALE);
            }
            j = j + 1;
        }
        assert(row@ =~= padded_costs(cost_rows(costs@), n as int, m as int, k as int)[i as int]);
        out.push(row);
        i = i + 1;
    }
    assert(cost_rows(out@) =~= padded_costs(cost_rows(costs@), n as int, m as int, k as int));
    out
}

/// Pairs local files (rows) with release tracks (columns) by a minimum-cost
/// assignment over the scaled distances, padded to a square so that files
/// and tracks can go unmatched rather than be forced onto a leftover; an
/// assigned pair is kept only where `accept` allows it. Every file is either
/// in a pair or unmatched, and every track either in a pair or missing.
pub fn plan_matches(costs: &Vec<Vec<i64>>, accept: &Vec<Vec<bool>>, tracks: usize) -> (p: MatchPlan)
    requires
        costs_shape(cost_rows(costs@), bool_rows(accept@), tracks as int),
        costs@.len() <= 1_000_000,
        tracks <= 1_000_000,
    ensures
        ({
            let n = costs@.len() as int;
            let m = tracks as int;
            let a = plan_assignment(cost_rows(costs@), n, m);
            let k = max_int(n, m);
            &&& k > 0 ==> is_assignment(a, k)
            &&& k > 0 ==> forall|q: Seq<usize>|
                is_assignment(q, k) ==> assignment_cost(
                    padded_costs(cost_rows(costs@), n, m, k),
                    a,
                ) <= #[trigger] assignment_cost(padded_costs(cost_rows(costs@), n, m, k), q)
            &&& p.pairs@ == matched_pairs(a, bool_rows(accept@), m, n)
            &&& p.unmatched_files@ == unmatched_rows(a, bool_rows(accept@), m, n)
            &&& p.missing_tracks@ == missing_cols(a, bool_rows(accept@), n, m, m)
        }),
{
    let n = costs.len();
    let m = tracks;
    let k = if n < m { m } else { n };
    let ghost cr = cost_rows(costs@);
    let ghost ar = bool_rows(accept@);
    let ghost a = plan_assignment(cr, n as int, m as int);
    if k == 0 {
        return MatchPlan { pairs: Vec::new(), unmatched_files: Vec::new(), missing_tracks: Vec::new() };
    }
    proof {
        assert forall|q: int| 0 <= q < n implies (#[trigger] costs@[q])@.len() == m by {
            assert(cr[q] == costs@[q]@);
        }
        assert forall|q: int| 0 <= q < n implies (#[trigger] accept@[q])@.len() == m by {
            assert(ar[q] == accept@[q]@);
        }
    }
    let padded = padded_matrix(costs, m, k);
    proof {
        let pc = padded_costs(cr, n as int, m as int, k as int);
        assert forall|i: int, j: int| 0 <= i < k && 0 <= j < k implies 0 <= #[trigger] pc[i][j]
            <= SCALE by {
            if i < n && j < m {
                assert(pc[i][j] == cr[i][j]);
            }
        }
    }
    assert(cost_rows(padded@).len() == padded@.len());
    assert(padded@.len() == k);
    let asg = min_cost_assignment(padded);
    assert(asg@ == a);
    let mut pairs: Vec<(usize, usize)> = Vec::new();
    let mut unmatched: Vec<usize> = Vec::new();
    let mut taken_v: Vec<bool> = Vec::new();
    let mut t: usize = 0;
    while t < m
        invariant
            t <= m,
            taken_v@.len() == t,
            forall|q: int| 0 <= q < t ==> !(#[trigger] taken_v@[q]),
        decreases m - t,
    {
        taken_v.push(false);
        t = t + 1;
    }
    let mut i: usize = 0;
    while i < n
        invariant
            n == costs@.len(),
            n <= k,
            m <= k,
            asg@ == a,
            is_assignment(a, k as int),
            ar == bool_rows(accept@),
            accept@.len() == n,
            forall|q: int| 0 <= q < n ==> (#[trigger] accept@[q])@.len() == m,
            i <= n,
            taken_v@.len() == m,
            pairs@ == matched_pairs(a, ar, m as int, i as int),
            unmatched@ == unmatched_rows(a, ar, m as int, i as int),
            forall|j: int| 0 <= j < m ==> #[trigger] taken_v@[j] == taken(a, ar, i as int, m as int, j),
        decreases n - i,
    {
        let j = asg[i];
        assert(ar[i as int] == accept@[i as int]@);
        let keep = j < m && accept[i][j];
        assert(keep == accepted(a, ar, m as int, i as int));
        if keep {
            pairs.push((i, j));
            taken_v.set(j, true);
        } else {
            unmatched.push(i);
        }
        proof {
            assert forall|jj: int| 0 <= jj < m implies #[trigger] taken_v@[jj] == taken(
                a,
                ar,
                i + 1,
                m as int,
                jj,
            ) by {
                if taken(a, ar, i as int, m as int, jj) {
                    let w = choose|w: int|
                        0 <= w < i && accepted(a, ar, m as int, w) && a[w] as int == jj;
                    assert(0 <= w < i + 1 && accepted(a, ar, m as int, w) && a[w] as int == jj);
                }
                if keep && jj == j as int {
                    assert(0 <= i < i + 1 && accepted(a, ar, m as int, i as int) && a[i as int] as int
                        == jj);
                }
                if taken(a, ar, i + 1, m as int, jj) && !taken(a, ar, i as int, m as int, jj) {
                    let w = choose|w: int|
                        0 <= w < i + 1 && accepted(a, ar, m as int, w) && a[w] as int == jj;
                    assert(w == i);
                }
            }
        }
        i = i + 1;
    }
    let mut missing: Vec<usize> = Vec::new();
    let mut j: usize = 0;
    while j < m
        invariant
            j <= m,
            taken_v@.len() == m,
            forall|q: int| 0 <= q < m ==> #[trigger] taken_v@[q] == taken(a, ar, n as int, m as int, q),
            missing@ == missing_cols(a, ar, n as int, m as int, j as int),
        decreases m - j,
    {
        if !taken_v[j] {
            missing.push(j);
        }
        j = j + 1;
    }
    MatchPlan { pairs, unmatched_files: unmatched, missing_tracks: missing }
}

} // verus!

verus! {

proof fn lemma_matched_pairs(a: Seq<usize>, acc: Seq<Seq<bool>>, m: int, i: int)
    requires
        0 <= i <= usize::MAX,
    ensures
        ({
            let ps = matched_pairs(a, acc, m, i);
            &&& forall|q: int|
                0 <= q < ps.len() ==> 0 <= (#[trigger] ps[q]).0 < i && accepted(
                    a,
                    acc,
                    m,
                    ps[q].0 as int,
                ) && ps[q].1 == a[ps[q].0 as int]
            &&& forall|q1: int, q2: int|
                0 <= q1 < q2 < ps.len() ==> (#[trigger] ps[q1]).0 < (#[trigger] ps[q2]).0
            &&& forall|r: int|
                0 <= r < i && accepted(a, acc, m, r) ==> exists|q: int|
                    0 <= q < ps.len() && (#[trigger] ps[q]).0 as int == r
            &&& ps.len() + unmatched_rows(a, acc, m, i).len() == i
        }),
    decreases i,
{
    if i > 0 {
        lemma_matched_pairs(a, acc, m, i - 1);
        let ps0 = matched_pairs(a, acc, m, i - 1);
        let ps = matched_pairs(a, acc, m, i);
        assert forall|r: int| 0 <= r < i && accepted(a, acc, m, r) implies exists|q: int|
            0 <= q < ps.len() && (#[trigger] ps[q]).0 as int == r by {
            if r < i - 1 {
                let q = choose|q: int| 0 <= q < ps0.len() && (#[trigger] ps0[q]).0 as int == r;
                assert(ps[q] == ps0[q]);
            } else {
                assert(ps[ps0.len() as int].0 as int == r);
            }
        }
    }
}

proof fn lemma_unmatched_rows(a: Seq<usize>, acc: Seq<Seq<bool>>, m: int, i: int)
    requires
        0 <= i <= usize::MAX,
    ensures
        ({
            let us = unmatched_rows(a, acc, m, i);
            &&& forall|q: int|
                0 <= q < us.len() ==> 0 <= #[trigger] us[q] < i && !accepted(a, acc, m, us[q] as int)
            &&& forall|r: int| 0 <= r < i && !accepted(a, acc, m, r) ==> us.contains(r as usize)
        }),
    decreases i,
{
    if i > 0 {
        lemma_unmatched_rows(a, acc, m, i - 1);
        let us0 = unmatched_rows(a, acc, m, i - 1);
        let us = unmatched_rows(a, acc, m, i);
        assert forall|r: int| 0 <= r < i && !accepted(a, acc, m, r) implies us.contains(
            r as usize,
        ) by {
            if r < i - 1 {
                let q = choose|q: int| 0 <= q < us0.len() && us0[q] == r as usize;
                assert(us[q] == us0[q]);
            } else {
                assert(us[us0.len() as int] == r as usize);
            }
        }
    }
}

proof fn lemma_missing_cols(a: Seq<usize>, acc: Seq<Seq<bool>>, n: int, m: int, j: int)
    requires
        0 <= j <= usize::MAX,
    ensures
        ({
            let ms = missing_cols(a, acc, n, m, j);
            &&& forall|q: int|
                0 <= q < ms.len() ==> 0 <= #[trigger] ms[q] < j && !taken(a, acc, n, m, ms[q] as int)
            &&& forall|c: int| 0 <= c < j && !taken(a, acc, n, m, c) ==> ms.contains(c as usize)
        }),
    decreases j,
{
    if j > 0 {
        lemma_missing_cols(a, acc, n, m, j - 1);
        let ms0 = missing_cols(a, acc, n, m, j - 1);
        let ms = missing_cols(a, acc, n, m, j);
        assert forall|c: int| 0 <= c < j && !taken(a, acc, n, m, c) implies ms.contains(
            c as usize,
        ) by {
            if c < j - 1 {
                let q = choose|q: int| 0 <= q < ms0.len() && ms0[q] == c as usize;
                assert(ms[q] == ms0[q]);
            } else {
                assert(ms[ms0.len() as int] == c as usize);
            }
        }
    }
}

/// Some pair holds file `i`.
pub open spec fn pairs_have_file(ps: Seq<(usize, usize)>, i: int) -> bool {
    exists|q: int| 0 <= q < ps.len() && (#[trigger] ps[q]).0 as int == i
}

/// Some pair holds track `j`.
pub open spec fn pairs_have_track(ps: Seq<(usize, usize)>, j: int) -> bool {
    exists|q: int| 0 <= q < ps.len() && (#[trigger] ps[q]).1 as int == j
}

/// Every local file is reported exactly once: in a matched pair or among the
/// unmatched files, and never both.
pub proof fn law_each_file_reported_once(a: Seq<usize>, accept: Seq<Seq<bool>>, n: int, m: int)
    requires
        0 <= n <= usize::MAX,
    ensures
        ({
            let ps = matched_pairs(a, accept, m, n);
            let us = unmatched_rows(a, accept, m, n);
            &&& ps.len() + us.len() == n
            &&& forall|i: int| 0 <= i < n ==> #[trigger] pairs_have_file(ps, i) != us.contains(i as usize)
        }),
{
    lemma_matched_pairs(a, accept, m, n);
    lemma_unmatched_rows(a, accept, m, n);
    let ps = matched_pairs(a, accept, m, n);
    let us = unmatched_rows(a, accept, m, n);
    assert forall|i: int| 0 <= i < n implies #[trigger] pairs_have_file(ps, i) != us.contains(
        i as usize,
    ) by {
        if accepted(a, accept, m, i) {
            if us.contains(i as usize) {
                let q = choose|q: int| 0 <= q < us.len() && us[q] == i as usize;
                assert(!accepted(a, accept, m, us[q] as int));
            }
        } else {
            if exists|q: int| 0 <= q < ps.len() && (#[trigger] ps[q]).0 as int == i {
                let q = choose|q: int| 0 <= q < ps.len() && (#[trigger] ps[q]).0 as int == i;
                assert(accepted(a, accept, m, ps[q].0 as int));
            }
        }
    }
}

/// Given an assignment, no release track is matched twice, and every track
/// is either matched or reported missing, never both.
pub proof fn law_each_track_reported_once(
    a: Seq<usize>,
    accept: Seq<Seq<bool>>,
    n: int,
    m: int,
    k: int,
)
    requires
        0 <= n <= k,
        0 <= m <= k <= usize::MAX,
        is_assignment(a, k),
    ensures
        ({
            let ps = matched_pairs(a, accept, m, n);
            let ms = missing_cols(a, accept, n, m, m);
            &&& forall|q1: int, q2: int|
                0 <= q1 < q2 < ps.len() ==> (#[trigger] ps[q1]).1 != (#[trigger] ps[q2]).1
            &&& forall|q: int| 0 <= q < ps.len() ==> ((#[trigger] ps[q]).1 as int) < m
            &&& forall|j: int| 0 <= j < m ==> #[trigger] pairs_have_track(ps, j) != ms.contains(j as usize)
        }),
{
    lemma_matched_pairs(a, accept, m, n);
    lemma_missing_cols(a, accept, n, m, m);
    let ps = matched_pairs(a, accept, m, n);
    let ms = missing_cols(a, accept, n, m, m);
    assert forall|q1: int, q2: int| 0 <= q1 < q2 < ps.len() implies (#[trigger] ps[q1]).1
        != (#[trigger] ps[q2]).1 by {
        let r1 = ps[q1].0 as int;
        let r2 = ps[q2].0 as int;
        assert(r1 < r2);
        assert(a[r1] != a[r2]);
    }
    assert forall|j: int| 0 <= j < m implies #[trigger] pairs_have_track(ps, j) != ms.contains(
        j as usize,
    ) by {
        if taken(a, accept, n, m, j) {
            let r = choose|r: int| 0 <= r < n && accepted(a, accept, m, r) && a[r] as int == j;
            let q = choose|q: int| 0 <= q < ps.len() && (#[trigger] ps[q]).0 as int == r;
            assert(ps[q].1 as int == j);
            if ms.contains(j as usize) {
                let w = choose|w: int| 0 <= w < ms.len() && ms[w] == j as usize;
                assert(!taken(a, accept, n, m, ms[w] as int));
            }
        } else {
            if exists|q: int| 0 <= q < ps.len() && (#[trigger] ps[q]).1 as int == j {
                let q = choose|q: int| 0 <= q < ps.len() && (#[trigger] ps[q]).1 as int == j;
                let r = ps[q].0 as int;
                assert(0 <= r < n && accepted(a, accept, m, r) && a[r] as int == j);
            }
        }
    }
}

} // verus!

verus! {

// ---------------------------------------------------------------------------
// Reports
// ---------------------------------------------------------------------------

/// `mt` carries local file `l` matched to release track `t`.
pub open spec fn matched_from(mt: MatchedTrack, l: LocalTrack, t: NormalizedTrack) -> bool {
    &&& mt.file@ == l.path@
    &&& mt.position == t.position
    &&& mt.medium_position == t.medium_position
    &&& mt.title@ == t.title@
    &&& opt_view(mt.title_native) == opt_view(t.title_native)
    &&& opt_view(mt.recording_id) == opt_view(t.recording_id)
    &&& opt_view(mt.raw_position) == opt_view(t.raw_position)
}

/// `mt` reports release track `t` as missing.
pub open spec fn missing_from(mt: MissingTrack, t: NormalizedTrack) -> bool {
    &&& mt.position == t.position
    &&& mt.medium_position == t.medium_position
    &&& mt.title@ == t.title@
    &&& opt_view(mt.recording_id) == opt_view(t.recording_id)
}

/// `r` lists, in order, the given pairs, unmatched files and missing tracks.
pub open spec fn report_of(
    r: MatchReport,
    locals: Seq<LocalTrack>,
    tracks: Seq<NormalizedTrack>,
    pairs: Seq<(usize, usize)>,
    unmatched: Seq<usize>,
    missing: Seq<usize>,
) -> bool {
    &&& r.matched@.len() == pairs.len()
    &&& forall|q: int|
        0 <= q < pairs.len() ==> matched_from(
            #[trigger] r.matched@[q],
            locals[pairs[q].0 as int],
            tracks[pairs[q].1 as int],
        )
    &&& r.unmatched_files@.len() == unmatched.len()
    &&& forall|q: int|
        0 <= q < unmatched.len() ==> (#[trigger] r.unmatched_files@[q])@ == locals[unmatched[q] as int].path@
    &&& r.missing_tracks@.len() == missing.len()
    &&& forall|q: int|
        0 <= q < missing.len() ==> missing_from(#[trigger] r.missing_tracks@[q], tracks[missing[q] as int])
}

pub open spec fn plan_in_range(p: MatchPlan, n: int, m: int) -> bool {
    &&& forall|q: int|
        0 <= q < p.pairs@.len() ==> ((#[trigger] p.pairs@[q]).0 as int) < n && (p.pairs@[q].1 as int) < m
    &&& forall|q: int| 0 <= q < p.unmatched_files@.len() ==> (#[trigger] p.unmatched_files@[q] as int) < n
    &&& forall|q: int| 0 <= q < p.missing_tracks@.len() ==> (#[trigger] p.missing_tracks@[q] as int) < m
}

fn matched_track(l: &LocalTrack, t: &NormalizedTrack) -> (mt: MatchedTrack)
    ensures
        matched_from(mt, *l, *t),
{
    MatchedTrack {
        file: l.path.clone(),
        position: t.position,
        medium_position: t.medium_position,
        title: t.title.clone(),
        title_native: copy_opt(&t.title_native),
        recording_id: copy_opt(&t.recording_id),
        raw_position: copy_opt(&t.raw_position),
    }
}

fn missing_track(t: &NormalizedTrack) -> (mt: MissingTrack)
    ensures
        missing_from(mt, *t),
{
    MissingTrack {
        position: t.position,
        medium_position: t.medium_position,
        title: t.title.clone(),
        recording_id: copy_opt(&t.recording_id),
    }
}

/// The report a plan describes, built from the local files and the release's
/// tracks it indexes.
pub fn report_from_plan(locals: &[LocalTrack], release: &NormalizedRelease, plan: &MatchPlan) -> (r: MatchReport)
    requires
        plan_in_range(*plan, locals@.len() as int, release.tracks@.len() as int),
    ensures
        report_of(
            r,
            locals@,
            release.tracks@,
            plan.pairs@,
            plan.unmatched_files@,
            plan.missing_tracks@,
        ),
{
    let mut matched: Vec<MatchedTrack> = Vec::new();
    let mut q: usize = 0;
    while q < plan.pairs.len()
        invariant
            plan_in_range(*plan, locals@.len() as int, release.tracks@.len() as int),
            q <= plan.pairs@.len(),
            matched@.len() == q,
            forall|w: int|
                0 <= w < q ==> matched_from(
                    #[trigger] matched@[w],
                    locals@[plan.pairs@[w].0 as int],
                    release.tracks@[plan.pairs@[w].1 as int],
                ),
        decreases plan.pairs@.len() - q,
    {
        let (i, j) = plan.pairs[q];
        matched.push(matched_track(&locals[i], &release.tracks[j]));
        q = q + 1;
    }
    let mut unmatched: Vec<String> = Vec::new();
    let mut q: usize = 0;
    while q < plan.unmatched_files.len()
        invariant
            plan_in_range(*plan, locals@.len() as int, release.tracks@.len() as int),
            q <= plan.unmatched_files@.len(),
            unmatched@.len() == q,
            forall|w: int|
                0 <= w < q ==> (#[trigger] unmatched@[w])@ == locals@[plan.unmatched_files@[w] as int].path@,
        decreases plan.unmatched_files@.len() - q,
    {
        let i = plan.unmatched_files[q];
        unmatched.push(locals[i].path.clone());
        q = q + 1;
    }
    let mut missing: Vec<MissingTrack> = Vec::new();
    let mut q: usize = 0;
    while q < plan.missing_tracks.len()
        invariant
            plan_in_range(*plan, locals@.len() as int, release.tracks@.len() as int),
            q <= plan.missing_tracks@.len(),
            missing@.len() == q,
            forall|w: int|
                0 <= w < q ==> missing_from(
                    #[trigger] missing@[w],
                    release.tracks@[plan.missing_tracks@[w] as int],
                ),
        decreases plan.missing_tracks@.len() - q,
    {
        let j = plan.missing_tracks[q];
        missing.push(missing_track(&release.tracks[j]));
        q = q + 1;
    }
    MatchReport { matched, unmatched_files: unmatched, missing_tracks: missing }
}

/// Matches local files against a release's tracks: `costs[i][j]` is the
/// scaled distance of file `i` to track `j` and `accept[i][j]` whether that
/// distance is within the rejection threshold. The pairs come from a
/// minimum-cost assignment padded to a square (see `plan_matches`); files
/// and tracks left out are reported unmatched and missing.
pub fn match_tracks(
    locals: &[LocalTrack],
    release: &NormalizedRelease,
    costs: &Vec<Vec<i64>>,
    accept: &Vec<Vec<bool>>,
) -> (r: MatchReport)
    requires
        costs@.len() == locals@.len(),
        costs_shape(cost_rows(costs@), bool_rows(accept@), release.tracks@.len() as int),
        locals@.len() <= 1_000_000,
        release.tracks@.len() <= 1_000_000,
    ensures
        ({
            let n = locals@.len() as int;
            let m = release.tracks@.len() as int;
            let a = plan_assignment(cost_rows(costs@), n, m);
            let k = max_int(n, m);
            &&& k > 0 ==> is_assignment(a, k)
            &&& k > 0 ==> forall|q: Seq<usize>|
                is_assignment(q, k) ==> assignment_cost(
                    padded_costs(cost_rows(costs@), n, m, k),
                    a,
                ) <= #[trigger] assignment_cost(padded_costs(cost_rows(costs@), n, m, k), q)
            &&& report_of(
                r,
                locals@,
                release.tracks@,
                matched_pairs(a, bool_rows(accept@), m, n),
                unmatched_rows(a, bool_rows(accept@), m, n),
                missing_cols(a, bool_rows(accept@), n, m, m),
            )
        }),
{
    let plan = plan_matches(costs, accept, release.tracks.len());
    proof {
        let n = locals@.len() as int;
        let m = release.tracks@.len() as int;
        let a = plan_assignment(cost_rows(costs@), n, m);
        let ar = bool_rows(accept@);
        lemma_matched_pairs(a, ar, m, n);
        lemma_unmatched_rows(a, ar, m, n);
        if max_int(n, m) > 0 {
            assert forall|q: int| 0 <= q < plan.pairs@.len() implies ((#[trigger] plan.pairs@[q]).0
                as int) < n && (plan.pairs@[q].1 as int) < m by {
                assert(accepted(a, ar, m, plan.pairs@[q].0 as int));
            }
        }
        lemma_missing_cols(a, ar, n, m, m);
        assert forall|q: int| 0 <= q < plan.missing_tracks@.len() implies (
        #[trigger] plan.missing_tracks@[q] as int) < m by {}
    }
    report_from_plan(locals, release, &plan)
}

} // verus!

verus! {

// ---------------------------------------------------------------------------
// Forced mappings
// ---------------------------------------------------------------------------

/// One entry of a `{"<file path>": <track position>}` mapping: the file, the
/// track position and, optionally, the disc.
pub struct ForceEntry {
    pub file: String,
    pub position: u32,
    pub disc: Option<u32>,
}

pub open spec fn local_paths(locals: Seq<LocalTrack>) -> Seq<Seq<char>> {
    locals.map_values(|l: LocalTrack| l.path@)
}

/// `i` is the first local whose path equals `f`.
pub open spec fn is_first_local(paths: Seq<Seq<char>>, f: Seq<char>, i: int) -> bool {
    &&& 0 <= i < paths.len()
    &&& path_equal(paths[i], f)
    &&& forall|k: int| 0 <= k < i ==> !path_equal(#[trigger] paths[k], f)
}

pub open spec fn find_local(paths: Seq<Seq<char>>, f: Seq<char>) -> Option<int> {
    if exists|i: int| 0 <= i < paths.len() && path_equal(#[trigger] paths[i], f) {
        Some(choose|i: int| is_first_local(paths, f, i))
    } else {
        None
    }
}

/// Track `t` sits at `position` (on `disc`, when one is given).
pub open spec fn is_candidate(t: NormalizedTrack, position: u32, disc: Option<u32>) -> bool {
    t.position == Some(position) && match disc {
        Some(d) => t.medium_position == Some(d),
        None => true,
    }
}

/// Indices of the first `j` tracks at `position` (on `disc`).
pub open spec fn candidates(tracks: Seq<NormalizedTrack>, position: u32, disc: Option<u32>, j: int) -> Seq<
    int,
>
    decreases j,
{
    if j <= 0 {
        Seq::empty()
    } else {
        candidates(tracks, position, disc, j - 1) + if is_candidate(tracks[j - 1], position, disc) {
            seq![j - 1]
        } else {
            Seq::empty()
        }
    }
}

/// `Debug` of an `Option<u32>`.
pub open spec fn debug_opt_u32(d: Option<u32>) -> Seq<char> {
    match d {
        Some(v) => "Some("@ + decimal(v as nat) + ")"@,
        None => "None"@,
    }
}

/// Pairs (local index, track index) for the mapping's entries in order, or
/// the message of the first entry that cannot be applied: a file that is not
/// one of the scanned locals, a position with no track, a position on several
/// discs with no disc given, or a track that an earlier entry already took.
pub open spec fn force_pairs(
    paths: Seq<Seq<char>>,
    tracks: Seq<NormalizedTrack>,
    entries: Seq<ForceEntry>,
) -> Result<Seq<(int, int)>, Seq<char>>
    decreases entries.len(),
{
    if entries.len() == 0 {
        Ok(Seq::empty())
    } else {
        match force_pairs(paths, tracks, entries.drop_last()) {
            Err(e) => Err(e),
            Ok(ps) => {
                let e = entries.last();
                match find_local(paths, e.file@) {
                    None => Err(debug_str(e.file@) + " is not one of the scanned local files"@),
                    Some(i) => {
                        let c = candidates(tracks, e.position, e.disc, tracks.len() as int);
                        if c.len() == 0 {
                            Err("no track at position "@ + decimal(e.position as nat)
                                + " in the release"@)
                        } else if c.len() > 1 {
                            Err("position "@ + decimal(e.position as nat)
                                + " is ambiguous across discs; specify a disc"@)
                        } else if exists|q: int| 0 <= q < ps.len() && (#[trigger] ps[q]).1 == c[0] {
                            Err("multiple files map to position "@ + decimal(e.position as nat)
                                + " on disc "@ + debug_opt_u32(e.disc))
                        } else {
                            Ok(ps.push((i, c[0])))
                        }
                    },
                }
            },
        }
    }
}

/// Local `l` is the same path as the file of some pair.
pub open spec fn forced_file(paths: Seq<Seq<char>>, ps: Seq<(int, int)>, l: int) -> bool {
    exists|q: int| 0 <= q < ps.len() && path_equal(paths[(#[trigger] ps[q]).0], paths[l])
}

pub open spec fn forced_track(ps: Seq<(int, int)>, j: int) -> bool {
    exists|q: int| 0 <= q < ps.len() && (#[trigger] ps[q]).1 == j
}

pub open spec fn unforced_files(paths: Seq<Seq<char>>, ps: Seq<(int, int)>, l: int) -> Seq<usize>
    decreases l,
{
    if l <= 0 {
        Seq::empty()
    } else {
        unforced_files(paths, ps, l - 1) + if forced_file(paths, ps, l - 1) {
            Seq::empty()
        } else {
            seq![(l - 1) as usize]
        }
    }
}

pub open spec fn unforced_tracks(ps: Seq<(int, int)>, j: int) -> Seq<usize>
    decreases j,
{
    if j <= 0 {
        Seq::empty()
    } else {
        unforced_tracks(ps, j - 1) + if forced_track(ps, j - 1) {
            Seq::empty()
        } else {
            seq![(j - 1) as usize]
        }
    }
}

pub open spec fn usize_pairs(ps: Seq<(int, int)>) -> Seq<(usize, usize)> {
    ps.map_values(|p: (int, int)| (p.0 as usize, p.1 as usize))
}

proof fn lemma_first_local_unique(paths: Seq<Seq<char>>, f: Seq<char>, i: int, j: int)
    requires
        is_first_local(paths, f, i),
        is_first_local(paths, f, j),
    ensures
        i == j,
{
    if i < j {
        assert(path_equal(paths[i], f));
    } else if j < i {
        assert(path_equal(paths[j], f));
    }
}

fn find_local_exec(locals: &[LocalTrack], f: &str) -> (r: Option<usize>)
    ensures
        r matches Some(i) ==> i < locals@.len(),
        match r {
            Some(i) => find_local(local_paths(locals@), f@) == Some(i as int),
            None => find_local(local_paths(locals@), f@) is None,
        },
{
    let ghost ps = local_paths(locals@);
    let mut i: usize = 0;
    while i < locals.len()
        invariant
            i <= locals@.len(),
            ps == local_paths(locals@),
            forall|k: int| 0 <= k < i ==> !path_equal(#[trigger] ps[k], f@),
        decreases locals@.len() - i,
    {
        assert(ps[i as int] == locals@[i as int].path@);
        if paths_equal(locals[i].path.as_str(), f) {
            proof {
                assert(is_first_local(ps, f@, i as int));
                let c = choose|c: int| is_first_local(ps, f@, c);
                lemma_first_local_unique(ps, f@, i as int, c);
            }
            return Some(i);
        }
        i = i + 1;
    }
    None
}

fn candidates_exec(tracks: &Vec<NormalizedTrack>, position: u32, disc: Option<u32>) -> (r: Vec<usize>)
    ensures
        r@.len() == candidates(tracks@, position, disc, tracks@.len() as int).len(),
        forall|q: int|
            0 <= q < r@.len() ==> #[trigger] r@[q] as int == candidates(
                tracks@,
                position,
                disc,
                tracks@.len() as int,
            )[q],
{
    let mut out: Vec<usize> = Vec::new();
    let mut j: usize = 0;
    while j < tracks.len()
        invariant
            j <= tracks@.len(),
            out@.len() == candidates(tracks@, position, disc, j as int).len(),
            forall|q: int|
                0 <= q < out@.len() ==> #[trigger] out@[q] as int == candidates(
                    tracks@,
                    position,
                    disc,
                    j as int,
                )[q],
        decreases tracks@.len() - j,
    {
        let t = &tracks[j];
        let hit = t.position == Some(position) && match disc {
            Some(d) => t.medium_position == Some(d),
            None => true,
        };
        if hit {
            out.push(j);
        }
        j = j + 1;
    }
    out
}

fn debug_opt_u32_exec(d: Option<u32>) -> (r: String)
    ensures
        r@ == debug_opt_u32(d),
{
    match d {
        Some(v) => {
            let mut s = String::from_str("Some(");
            let n = fmt_u64(v as u64);
            s.append(n.as_str());
            s.append(")");
            proof {
                reveal_strlit("Some(");
                reveal_strlit(")");
            }
            s
        },
        None => String::from_str("None"),
    }
}

fn concat(parts: &[&str]) -> (r: String)
    ensures
        r@ == parts@.fold_left(Seq::<char>::empty(), |acc: Seq<char>, p: &str| acc + p@),
{
    let mut s = String::new();
    let mut i: usize = 0;
    while i < parts.len()
        invariant
            i <= parts@.len(),
            s@ == parts@.subrange(0, i as int).fold_left(
                Seq::<char>::empty(),
                |acc: Seq<char>, p: &str| acc + p@,
            ),
        decreases parts@.len() - i,
    {
        assert(parts@.subrange(0, i + 1).drop_last() =~= parts@.subrange(0, i as int));
        s.append(parts[i]);
        i = i + 1;
    }
    assert(parts@.subrange(0, parts@.len() as int) =~= parts@);
    s
}

proof fn lemma_fold2(a: &str, b: &str)
    ensures
        seq![a, b].fold_left(Seq::<char>::empty(), |acc: Seq<char>, p: &str| acc + p@) == a@ + b@,
{
    let f = |acc: Seq<char>, p: &str| acc + p@;
    assert(seq![a, b].drop_last() =~= seq![a]);
    assert(seq![a].drop_last() =~= Seq::<&str>::empty());
    assert(Seq::<&str>::empty().fold_left(Seq::<char>::empty(), f) == Seq::<char>::empty());
    assert(seq![a].fold_left(Seq::<char>::empty(), f) == f(Seq::<char>::empty(), a));
    assert(seq![a].fold_left(Seq::<char>::empty(), f) =~= a@);
}

proof fn lemma_fold3(a: &str, b: &str, c: &str)
    ensures
        seq![a, b, c].fold_left(Seq::<char>::empty(), |acc: Seq<char>, p: &str| acc + p@) == a@
            + b@ + c@,
{
    lemma_fold2(a, b);
    assert(seq![a, b, c].drop_last() =~= seq![a, b]);
}

proof fn lemma_fold4(a: &str, b: &str, c: &str, d: &str)
    ensures
        seq![a, b, c, d].fold_left(Seq::<char>::empty(), |acc: Seq<char>, p: &str| acc + p@) == a@
            + b@ + c@ + d@,
{
    lemma_fold3(a, b, c);
    assert(seq![a, b, c, d].drop_last() =~= seq![a, b, c]);
}

/// Applies a forced file-to-track mapping (entries in the mapping's key
/// order), bypassing matching. Files and tracks it does not name are still
/// reported unmatched and missing. Fails, with the message `force_pairs`
/// gives, on the first entry that cannot be applied.
pub fn apply_force_mapping(
    locals: &[LocalTrack],
    release: &NormalizedRelease,
    mapping: &[ForceEntry],
) -> (r: Result<MatchReport, Error>)
    ensures
        ({
            let paths = local_paths(locals@);
            match force_pairs(paths, release.tracks@, mapping@) {
                Err(msg) => r matches Err(Error::ForceMapping(m)) && m@ == msg,
                Ok(ps) => r matches Ok(rep) && report_of(
                    rep,
                    locals@,
                    release.tracks@,
                    usize_pairs(ps),
                    unforced_files(paths, ps, locals@.len() as int),
                    unforced_tracks(ps, release.tracks@.len() as int),
                ),
            }
        }),
{
    let ghost paths = local_paths(locals@);
    let mut pairs: Vec<(usize, usize)> = Vec::new();
    let mut taken_v: Vec<bool> = Vec::new();
    let mut t: usize = 0;
    while t < release.tracks.len()
        invariant
            t <= release.tracks@.len(),
            taken_v@.len() == t,
            forall|q: int| 0 <= q < t ==> !(#[trigger] taken_v@[q]),
        decreases release.tracks@.len() - t,
    {
        taken_v.push(false);
        t = t + 1;
    }
    let mut e: usize = 0;
    while e < mapping.len()
        invariant
            e <= mapping@.len(),
            paths == local_paths(locals@),
            taken_v@.len() == release.tracks@.len(),
            force_pairs(paths, release.tracks@, mapping@.subrange(0, e as int)) matches Ok(ps) && pairs@
                == usize_pairs(ps) && (forall|q: int|
                0 <= q < ps.len() ==> 0 <= (#[trigger] ps[q]).0 < locals@.len() && 0 <= ps[q].1
                    < release.tracks@.len()) && (forall|j: int|
                0 <= j < release.tracks@.len() ==> #[trigger] taken_v@[j] == forced_track(ps, j)),
        decreases mapping@.len() - e,
    {
        let ghost ps = force_pairs(paths, release.tracks@, mapping@.subrange(0, e as int))->Ok_0;
        assert(mapping@.subrange(0, e + 1).drop_last() =~= mapping@.subrange(0, e as int));
        let ent = &mapping[e];
        assert(mapping@.subrange(0, e + 1).last() == *ent);
        let li = match find_local_exec(locals, ent.file.as_str()) {
            Some(i) => i,
            None => {
                let d = debug_quoted(ent.file.as_str());
                let parts = [d.as_str(), " is not one of the scanned local files"];
                let err = Error::ForceMapping(concat(&parts));
                proof {
                    lemma_fold2(parts[0], parts[1]);
                    lemma_force_prefix_err(paths, release.tracks@, mapping@, e as int + 1);
                }
                return Err(err);
            },
        };
        let cands = candidates_exec(&release.tracks, ent.position, ent.disc);
        let pos = fmt_u64(ent.position as u64);
        if cands.len() == 0 {
            let parts = ["no track at position ", pos.as_str(), " in the release"];
            let err = Error::ForceMapping(concat(&parts));
            proof {
                lemma_fold3(parts[0], parts[1], parts[2]);
                lemma_force_prefix_err(paths, release.tracks@, mapping@, e as int + 1);
            }
            return Err(err);
        }
        if cands.len() > 1 {
            let parts = ["position ", pos.as_str(), " is ambiguous across discs; specify a disc"];
            let err = Error::ForceMapping(concat(&parts));
            proof {
                lemma_fold3(parts[0], parts[1], parts[2]);
                lemma_force_prefix_err(paths, release.tracks@, mapping@, e as int + 1);
            }
            return Err(err);
        }
        let j = cands[0];
        proof {
            lemma_candidates_in_range(release.tracks@, ent.position, ent.disc, release.tracks@.len() as int);
        }
        if taken_v[j] {
            let dd = debug_opt_u32_exec(ent.disc);
            let parts = ["multiple files map to position ", pos.as_str(), " on disc ", dd.as_str()];
            let err = Error::ForceMapping(concat(&parts));
            proof {
                lemma_fold4(parts[0], parts[1], parts[2], parts[3]);
                lemma_force_prefix_err(paths, release.tracks@, mapping@, e as int + 1);
            }
            return Err(err);
        }
        let ghost pairs0 = pairs@;
        pairs.push((li, j));
        taken_v.set(j, true);
        proof {
            let ps1 = ps.push((li as int, j as int));
            assert(cands@[0] as int == candidates(release.tracks@, ent.position, ent.disc, release.tracks@.len() as int)[0]);
            assert(0 <= ps1[ps.len() as int].1 < release.tracks@.len());
            assert(0 <= ps1[ps.len() as int].0 < locals@.len());
            assert forall|q: int| 0 <= q < ps1.len() implies 0 <= (#[trigger] ps1[q]).0 < locals@.len()
                && 0 <= ps1[q].1 < release.tracks@.len() by {
                if q < ps.len() {
                    assert(ps1[q] == ps[q]);
                }
            }
            assert(force_pairs(paths, release.tracks@, mapping@.subrange(0, e + 1)) == Ok::<
                Seq<(int, int)>,
                Seq<char>,
            >(ps1));
            assert(pairs@ =~= usize_pairs(ps1));
            assert forall|jj: int| 0 <= jj < release.tracks@.len() implies #[trigger] taken_v@[jj]
                == forced_track(ps1, jj) by {
                if forced_track(ps, jj) {
                    let q = choose|q: int| 0 <= q < ps.len() && (#[trigger] ps[q]).1 == jj;
                    assert(ps1[q] == ps[q]);
                }
                if jj == j as int {
                    assert(ps1[ps.len() as int].1 == jj);
                }
                if forced_track(ps1, jj) && !forced_track(ps, jj) {
                    let q = choose|q: int| 0 <= q < ps1.len() && (#[trigger] ps1[q]).1 == jj;
                    if q < ps.len() {
                        assert(ps1[q] == ps[q]);
                    }
                }
            }
        }
        e = e + 1;
    }
    assert(mapping@.subrange(0, mapping@.len() as int) =~= mapping@);
    let ghost ps = force_pairs(paths, release.tracks@, mapping@)->Ok_0;
    let mut unmatched: Vec<usize> = Vec::new();
    let mut l: usize = 0;
    let nloc = locals.len();
    while l < locals.len()
        invariant
            l <= locals@.len(),
            nloc == locals@.len(),
            paths == local_paths(locals@),
            pairs@ == usize_pairs(ps),
            forall|q: int|
                0 <= q < ps.len() ==> 0 <= (#[trigger] ps[q]).0 < locals@.len() && 0 <= ps[q].1
                    < release.tracks@.len(),
            unmatched@ == unforced_files(paths, ps, l as int),
        decreases locals@.len() - l,
    {
        let mut hit = false;
        let mut q: usize = 0;
        while q < pairs.len()
            invariant
                l < locals@.len(),
                nloc == locals@.len(),
                q <= pairs@.len(),
                paths == local_paths(locals@),
                pairs@ == usize_pairs(ps),
                forall|w: int|
                    0 <= w < ps.len() ==> 0 <= (#[trigger] ps[w]).0 < locals@.len() && 0 <= ps[w].1
                        < release.tracks@.len(),
                hit == exists|w: int| 0 <= w < q && path_equal(paths[(#[trigger] ps[w]).0], paths[l as int]),
            decreases pairs@.len() - q,
        {
            let (pi, _) = pairs[q];
            assert(usize_pairs(ps).len() == ps.len());
            assert(pairs@[q as int] == usize_pairs(ps)[q as int]);
            assert(0 <= ps[q as int].0 < locals@.len());
            assert(usize_pairs(ps)[q as int] == (ps[q as int].0 as usize, ps[q as int].1 as usize));
            assert(pairs@[q as int].0 == pi);
            assert(ps[q as int].0 == pi as int);
            assert(paths[pi as int] == locals@[pi as int].path@);
            assert(paths[l as int] == locals@[l as int].path@);
            if paths_equal(locals[pi].path.as_str(), locals[l].path.as_str()) {
                hit = true;
            }
            q = q + 1;
        }
        if !hit {
            unmatched.push(l);
        }
        l = l + 1;
    }
    let mut missing: Vec<usize> = Vec::new();
    let mut j: usize = 0;
    while j < release.tracks.len()
        invariant
            j <= release.tracks@.len(),
            taken_v@.len() == release.tracks@.len(),
            forall|jj: int| 0 <= jj < release.tracks@.len() ==> #[trigger] taken_v@[jj] == forced_track(ps, jj),
            missing@ == unforced_tracks(ps, j as int),
        decreases release.tracks@.len() - j,
    {
        if !taken_v[j] {
            missing.push(j);
        }
        j = j + 1;
    }
    let plan = MatchPlan { pairs, unmatched_files: unmatched, missing_tracks: missing };
    proof {
        lemma_unforced_files(paths, ps, locals@.len() as int);
        lemma_unforced_tracks(ps, release.tracks@.len() as int);
    }
    Ok(report_from_plan(locals, release, &plan))
}

proof fn lemma_force_prefix_err(
    paths: Seq<Seq<char>>,
    tracks: Seq<NormalizedTrack>,
    entries: Seq<ForceEntry>,
    e: int,
)
    requires
        0 <= e <= entries.len(),
        force_pairs(paths, tracks, entries.subrange(0, e)) is Err,
    ensures
        force_pairs(paths, tracks, entries) == force_pairs(paths, tracks, entries.subrange(0, e)),
    decreases entries.len() - e,
{
    if e < entries.len() {
        assert(entries.subrange(0, e + 1).drop_last() =~= entries.subrange(0, e));
        lemma_force_prefix_err(paths, tracks, entries, e + 1);
    } else {
        assert(entries.subrange(0, e) =~= entries);
    }
}

proof fn lemma_candidates_in_range(tracks: Seq<NormalizedTrack>, position: u32, disc: Option<u32>, j: int)
    requires
        0 <= j <= tracks.len(),
    ensures
        forall|q: int|
            0 <= q < candidates(tracks, position, disc, j).len() ==> 0 <= #[trigger] candidates(
                tracks,
                position,
                disc,
                j,
            )[q] < j,
    decreases j,
{
    if j > 0 {
        lemma_candidates_in_range(tracks, position, disc, j - 1);
        let c0 = candidates(tracks, position, disc, j - 1);
        let c = candidates(tracks, position, disc, j);
        assert forall|q: int| 0 <= q < c.len() implies 0 <= #[trigger] c[q] < j by {
            if q < c0.len() {
                assert(c[q] == c0[q]);
            }
        }
    }
}

proof fn lemma_unforced_files(paths: Seq<Seq<char>>, ps: Seq<(int, int)>, l: int)
    requires
        0 <= l <= usize::MAX,
    ensures
        forall|q: int|
            0 <= q < unforced_files(paths, ps, l).len() ==> (#[trigger] unforced_files(paths, ps, l)[q]
                as int) < l,
    decreases l,
{
    if l > 0 {
        lemma_unforced_files(paths, ps, l - 1);
        let u0 = unforced_files(paths, ps, l - 1);
        let u = unforced_files(paths, ps, l);
        assert forall|q: int| 0 <= q < u.len() implies (#[trigger] u[q] as int) < l by {
            if q < u0.len() {
                assert(u[q] == u0[q]);
            }
        }
    }
}

proof fn lemma_unforced_tracks(ps: Seq<(int, int)>, j: int)
    requires
        0 <= j <= usize::MAX,
    ensures
        forall|q: int|
            0 <= q < unforced_tracks(ps, j).len() ==> (#[trigger] unforced_tracks(ps, j)[q] as int) < j,
    decreases j,
{
    if j > 0 {
        lemma_unforced_tracks(ps, j - 1);
        let u0 = unforced_tracks(ps, j - 1);
        let u = unforced_tracks(ps, j);
        assert forall|q: int| 0 <= q < u.len() implies (#[trigger] u[q] as int) < j by {
            if q < u0.len() {
                assert(u[q] == u0[q]);
            }
        }
    }
}

} // verus!

verus! {

// ---------------------------------------------------------------------------
// Library layout
// ---------------------------------------------------------------------------

/// Some track of the release sits on a disc after the first.
pub open spec fn is_multi_disc(tracks: Seq<NormalizedTrack>) -> bool {
    exists|i: int|
        0 <= i < tracks.len() && match (#[trigger] tracks[i]).medium_position {
            Some(d) => d > 1,
            None => false,
        }
}

/// `<artist>` directory: the sanitized artist credit, or `Unknown Artist`.
pub open spec fn artist_dir_spec(r: NormalizedRelease) -> Seq<char> {
    sanitize_spec(
        match r.artist_credit {
            Some(a) => a@,
            None => "Unknown Artist"@,
        },
    )
}

/// `<album>` directory: the sanitized title, with ` (<year>)` when the
/// release has a non-empty year.
pub open spec fn album_dir_spec(r: NormalizedRelease) -> Seq<char> {
    let year = match crate::release::year_of(r.date) {
        Some(y) => y,
        None => Seq::empty(),
    };
    if year.len() == 0 {
        sanitize_spec(r.title@)
    } else {
        sanitize_spec(r.title@ + " ("@ + year + ")"@)
    }
}

/// The track number part of a file name: the position padded to two digits,
/// else the sanitized raw number when that is non-empty, else `00`.
pub open spec fn track_prefix_spec(m: MatchedTrack) -> Seq<char> {
    match m.position {
        Some(p) => decimal_pad2(p as nat),
        None => match m.raw_position {
            Some(raw) => if sanitize_spec(raw@).len() > 0 {
                sanitize_spec(raw@)
            } else {
                "00"@
            },
            None => "00"@,
        },
    }
}

/// `<nn> - <title>.<ext>`, with a `<disc>-` head on multi-disc releases.
pub open spec fn file_name_spec(m: MatchedTrack, multi_disc: bool) -> Seq<char> {
    let ext = match path_extension(m.file@) {
        Some(e) => e,
        None => Seq::empty(),
    };
    let tail = track_prefix_spec(m) + " - "@ + sanitize_spec(m.title@) + "."@ + ext;
    if multi_disc {
        let disc: u32 = match m.medium_position {
            Some(d) => d,
            None => 1,
        };
        decimal_pad2(disc as nat) + "-"@ + tail
    } else {
        tail
    }
}

/// Where matched track `m` goes under `root`.
pub open spec fn dest_spec(m: MatchedTrack, r: NormalizedRelease, root: Seq<char>) -> Seq<char> {
    path_join(
        path_join(path_join(root, artist_dir_spec(r)), album_dir_spec(r)),
        file_name_spec(m, is_multi_disc(r.tracks@)),
    )
}

/// Placements resolved before anything is touched: each matched file and its
/// destination, in order, up to (not including) the first whose destination
/// equals an earlier one; `duplicate` tells whether there was such a file.
pub struct DestinationPlan {
    pub files: Vec<ImportedFile>,
    /// The destination of the first matched file that would land where an
    /// earlier one does.
    pub duplicate: Option<String>,
}

pub open spec fn dests_distinct_upto(ds: Seq<Seq<char>>, i: int) -> bool {
    forall|a: int, b: int| 0 <= a < b < i ==> !path_equal(#[trigger] ds[a], #[trigger] ds[b])
}

fn multi_disc(tracks: &Vec<NormalizedTrack>) -> (r: bool)
    ensures
        r == is_multi_disc(tracks@),
{
    let mut i: usize = 0;
    while i < tracks.len()
        invariant
            i <= tracks@.len(),
            forall|k: int|
                0 <= k < i ==> !match (#[trigger] tracks@[k]).medium_position {
                    Some(d) => d > 1,
                    None => false,
                },
        decreases tracks@.len() - i,
    {
        let big = match tracks[i].medium_position {
            Some(d) => d > 1,
            None => false,
        };
        if big {
            return true;
        }
        i = i + 1;
    }
    false
}

fn album_dir(r: &NormalizedRelease) -> (s: String)
    ensures
        s@ == album_dir_spec(*r),
{
    let year = match r.year() {
        Some(y) => y,
        None => String::new(),
    };
    if crate::text::char_count(year.as_str()) == 0 {
        sanitize(r.title.as_str())
    } else {
        let mut t = r.title.clone();
        t.append(" (");
        t.append(year.as_str());
        t.append(")");
        sanitize(t.as_str())
    }
}

fn file_name_for(m: &MatchedTrack, multi: bool) -> (s: String)
    ensures
        s@ == file_name_spec(*m, multi),
{
    let ext = match extension(m.file.as_str()) {
        Some(e) => e,
        None => String::new(),
    };
    let prefix = match m.position {
        Some(p) => fmt_u64_pad2(p as u64),
        None => match &m.raw_position {
            Some(raw) => {
                let s = sanitize(raw.as_str());
                if crate::text::char_count(s.as_str()) > 0 {
                    s
                } else {
                    String::from_str("00")
                }
            },
            None => String::from_str("00"),
        },
    };
    let mut tail = prefix;
    tail.append(" - ");
    let t = sanitize(m.title.as_str());
    tail.append(t.as_str());
    tail.append(".");
    tail.append(ext.as_str());
    if multi {
        let disc: u32 = match m.medium_position {
            Some(d) => d,
            None => 1,
        };
        let mut f = fmt_u64_pad2(disc as u64);
        f.append("-");
        f.append(tail.as_str());
        f
    } else {
        tail
    }
}

/// Resolves every destination of an import up front (so that nothing is
/// placed when one of them is bad): `<root>/<artist>/<album>/<file name>`
/// for each matched file in order, stopping at the first destination that
/// repeats an earlier one.
pub fn plan_destinations(matched: &[MatchedTrack], release: &NormalizedRelease, library_root: &str) -> (p: DestinationPlan)
    ensures
        p.files@.len() <= matched@.len(),
        forall|i: int|
            0 <= i < p.files@.len() ==> (#[trigger] p.files@[i]).source@ == matched@[i].file@
                && p.files@[i].dest@ == dest_spec(matched@[i], *release, library_root@),
        dests_distinct_upto(
            Seq::new(p.files@.len(), |i: int| dest_spec(matched@[i], *release, library_root@)),
            p.files@.len() as int,
        ),
        p.duplicate is Some <==> p.files@.len() < matched@.len(),
        p.duplicate matches Some(d) ==> d@ == dest_spec(matched@[p.files@.len() as int], *release, library_root@),
        p.duplicate is Some ==> exists|a: int|
            0 <= a < p.files@.len() && path_equal(
                dest_spec(matched@[a], *release, library_root@),
                dest_spec(matched@[p.files@.len() as int], *release, library_root@),
            ),
{
    let multi = multi_disc(&release.tracks);
    let artist = match &release.artist_credit {
        Some(a) => sanitize(a.as_str()),
        None => sanitize("Unknown Artist"),
    };
    let album = album_dir(release);
    let base = join(join(library_root, artist.as_str()).as_str(), album.as_str());
    let ghost ds = Seq::new(matched@.len(), |i: int| dest_spec(matched@[i], *release, library_root@));
    let mut files: Vec<ImportedFile> = Vec::new();
    let mut i: usize = 0;
    while i < matched.len()
        invariant
            i <= matched@.len(),
            multi == is_multi_disc(release.tracks@),
            base@ == path_join(path_join(library_root@, artist_dir_spec(*release)), album_dir_spec(*release)),
            ds == Seq::new(matched@.len(), |i: int| dest_spec(matched@[i], *release, library_root@)),
            files@.len() == i,
            forall|k: int|
                0 <= k < i ==> (#[trigger] files@[k]).source@ == matched@[k].file@ && files@[k].dest@
                    == ds[k],
            dests_distinct_upto(ds, i as int),
        decreases matched@.len() - i,
    {
        let m = &matched[i];
        let name = file_name_for(m, multi);
        let dest = join(base.as_str(), name.as_str());
        assert(dest@ == ds[i as int]);
        let mut q: usize = 0;
        while q < i
            invariant
                q <= i < matched@.len(),
                files@.len() == i,
                ds == Seq::new(matched@.len(), |i: int| dest_spec(matched@[i], *release, library_root@)),
                forall|k: int|
                    0 <= k < i ==> (#[trigger] files@[k]).source@ == matched@[k].file@ && files@[k].dest@
                        == ds[k],
                dests_distinct_upto(ds, i as int),
                dest@ == ds[i as int],
                forall|k: int| 0 <= k < q ==> !path_equal(#[trigger] ds[k], ds[i as int]),
            decreases i - q,
        {
            if paths_equal(files[q].dest.as_str(), dest.as_str()) {
                proof {
                    let ds2 = Seq::new(files@.len(), |k: int| dest_spec(matched@[k], *release, library_root@));
                    assert forall|a: int, b: int| 0 <= a < b < i implies !path_equal(#[trigger] ds2[a], #[trigger] ds2[b]) by {
                        assert(ds2[a] == ds[a] && ds2[b] == ds[b]);
                    }
                    assert(path_equal(ds[q as int], ds[i as int]));
                }
                return DestinationPlan { files, duplicate: Some(dest) };
            }
            q = q + 1;
        }
        files.push(ImportedFile { source: m.file.clone(), dest });
        i = i + 1;
    }
    proof {
        let ds2 = Seq::new(files@.len(), |k: int| dest_spec(matched@[k], *release, library_root@));
        assert forall|a: int, b: int| 0 <= a < b < files@.len() implies !path_equal(#[trigger] ds2[a], #[trigger] ds2[b]) by {
            assert(ds2[a] == ds[a] && ds2[b] == ds[b]);
        }
    }
    DestinationPlan { files, duplicate: None }
}

} // verus!

verus! {

// ---------------------------------------------------------------------------
// Tags written onto a placed file
// ---------------------------------------------------------------------------

/// One field of the fresh tag an imported file gets.
pub enum TagField {
    Title(String),
    Album(String),
    Artist(String),
    /// Numeric track number.
    Track(u32),
    /// A non-numeric track number kept as text.
    TrackText(String),
    TrackTotal(u32),
    Disc(u32),
    Date(String),
    Label(String),
    Genre(String),
    RecordingId(String),
    OriginalArtist(String),
    OriginalAlbum(String),
    Comment(String),
    ReleaseId(String),
}

pub enum TagFieldView {
    Title(Seq<char>),
    Album(Seq<char>),
    Artist(Seq<char>),
    Track(u32),
    TrackText(Seq<char>),
    TrackTotal(u32),
    Disc(u32),
    Date(Seq<char>),
    Label(Seq<char>),
    Genre(Seq<char>),
    RecordingId(Seq<char>),
    OriginalArtist(Seq<char>),
    OriginalAlbum(Seq<char>),
    Comment(Seq<char>),
    ReleaseId(Seq<char>),
}

impl View for TagField {
    type V = TagFieldView;

    open spec fn view(&self) -> TagFieldView {
        match self {
            TagField::Title(s) => TagFieldView::Title(s@),
            TagField::Album(s) => TagFieldView::Album(s@),
            TagField::Artist(s) => TagFieldView::Artist(s@),
            TagField::Track(n) => TagFieldView::Track(*n),
            TagField::TrackText(s) => TagFieldView::TrackText(s@),
            TagField::TrackTotal(n) => TagFieldView::TrackTotal(*n),
            TagField::Disc(n) => TagFieldView::Disc(*n),
            TagField::Date(s) => TagFieldView::Date(s@),
            TagField::Label(s) => TagFieldView::Label(s@),
            TagField::Genre(s) => TagFieldView::Genre(s@),
            TagField::RecordingId(s) => TagFieldView::RecordingId(s@),
            TagField::OriginalArtist(s) => TagFieldView::OriginalArtist(s@),
            TagField::OriginalAlbum(s) => TagFieldView::OriginalAlbum(s@),
            TagField::Comment(s) => TagFieldView::Comment(s@),
            TagField::ReleaseId(s) => TagFieldView::ReleaseId(s@),
        }
    }
}

pub open spec fn tag_views(v: Seq<TagField>) -> Seq<TagFieldView> {
    v.map_values(|f: TagField| f@)
}

pub open spec fn count_disc(tracks: Seq<NormalizedTrack>, d: u32) -> nat
    decreases tracks.len(),
{
    if tracks.len() == 0 {
        0
    } else {
        count_disc(tracks.drop_last(), d) + if tracks.last().medium_position == Some(d) {
            1nat
        } else {
            0nat
        }
    }
}

/// Tracks on the matched track's disc, or the release's track count when the
/// disc is unknown.
pub open spec fn disc_total_spec(m: MatchedTrack, r: NormalizedRelease) -> nat {
    match m.medium_position {
        Some(d) => count_disc(r.tracks@, d),
        None => r.track_count as nat,
    }
}

pub fn disc_total_for(m: &MatchedTrack, release: &NormalizedRelease) -> (n: usize)
    ensures
        n == disc_total_spec(*m, *release),
{
    match m.medium_position {
        Some(d) => {
            let mut n: usize = 0;
            let mut i: usize = 0;
            while i < release.tracks.len()
                invariant
                    i <= release.tracks@.len(),
                    n == count_disc(release.tracks@.subrange(0, i as int), d),
                    n <= i,
                decreases release.tracks@.len() - i,
            {
                assert(release.tracks@.subrange(0, i + 1).drop_last() =~= release.tracks@.subrange(
                    0,
                    i as int,
                ));
                if release.tracks[i].medium_position == Some(d) {
                    n = n + 1;
                }
                i = i + 1;
            }
            assert(release.tracks@.subrange(0, release.tracks@.len() as int) =~= release.tracks@);
            n
        },
        None => release.track_count as usize,
    }
}

pub open spec fn opt_field(o: Option<String>, f: spec_fn(Seq<char>) -> TagFieldView) -> Seq<TagFieldView> {
    match o {
        Some(s) => seq![f(s@)],
        None => Seq::empty(),
    }
}

pub open spec fn track_field(m: MatchedTrack) -> Seq<TagFieldView> {
    match m.position {
        Some(p) => seq![TagFieldView::Track(p)],
        None => opt_field(m.raw_position, |s: Seq<char>| TagFieldView::TrackText(s)),
    }
}

pub open spec fn total_field(m: MatchedTrack, r: NormalizedRelease) -> Seq<TagFieldView> {
    if disc_total_spec(m, r) > 0 {
        seq![TagFieldView::TrackTotal(disc_total_spec(m, r) as u32)]
    } else {
        Seq::empty()
    }
}

pub open spec fn disc_field(m: MatchedTrack) -> Seq<TagFieldView> {
    match m.medium_position {
        Some(d) => seq![TagFieldView::Disc(d)],
        None => Seq::empty(),
    }
}

pub open spec fn date_field(r: NormalizedRelease) -> Seq<TagFieldView> {
    match r.date {
        Some(d) => if d@.len() > 0 {
            seq![TagFieldView::Date(d@)]
        } else {
            Seq::empty()
        },
        None => Seq::empty(),
    }
}

pub open spec fn release_id_field(r: NormalizedRelease) -> Seq<TagFieldView> {
    if looks_like_mbid_spec(r.id@) {
        seq![TagFieldView::ReleaseId(r.id@)]
    } else {
        Seq::empty()
    }
}

pub open spec fn head_tag_fields(m: MatchedTrack, r: NormalizedRelease) -> Seq<TagFieldView> {
    seq![TagFieldView::Title(m.title@), TagFieldView::Album(r.title@)]
        + opt_field(r.artist_credit, |s: Seq<char>| TagFieldView::Artist(s))
        + track_field(m)
}

pub open spec fn mid_tag_fields(m: MatchedTrack, r: NormalizedRelease) -> Seq<TagFieldView> {
    total_field(m, r) + disc_field(m) + date_field(r)
}

pub open spec fn tail_tag_fields(m: MatchedTrack, r: NormalizedRelease) -> Seq<TagFieldView> {
    opt_field(r.label, |s: Seq<char>| TagFieldView::Label(s))
        + opt_field(r.genre, |s: Seq<char>| TagFieldView::Genre(s))
        + opt_field(m.recording_id, |s: Seq<char>| TagFieldView::RecordingId(s))
        + opt_field(r.artist_credit_native, |s: Seq<char>| TagFieldView::OriginalArtist(s))
        + opt_field(r.title_native, |s: Seq<char>| TagFieldView::OriginalAlbum(s))
        + opt_field(m.title_native, |s: Seq<char>| TagFieldView::Comment("Original title: "@ + s))
        + release_id_field(r)
}

/// The tag written onto an imported file, field by field in writing order:
/// title and album always; the artist credit; the track number (or the raw
/// one as text); the disc's track total when non-zero; the disc; a non-empty
/// date; label, genre, recording id, the native artist and album; a comment
/// carrying the native title; and the release id when it is an mbid.
pub open spec fn tag_fields_spec(m: MatchedTrack, r: NormalizedRelease) -> Seq<TagFieldView> {
    head_tag_fields(m, r) + mid_tag_fields(m, r) + tail_tag_fields(m, r)
}

/// The tag carries what the release and track hold: the title and album
/// always, and each present artist credit, label, genre and recording id as
/// its own field; an absent label, genre or recording id leaves no field of
/// that kind, and the label, genre and recording id come in that order.
#[verifier::spinoff_prover]
pub proof fn law_tag_fields_carry_values(m: MatchedTrack, r: NormalizedRelease)
    ensures
        ({
            let f = tag_fields_spec(m, r);
            &&& f.contains(TagFieldView::Title(m.title@))
            &&& f.contains(TagFieldView::Album(r.title@))
            &&& (r.artist_credit matches Some(a) ==> f.contains(TagFieldView::Artist(a@)))
            &&& (r.label matches Some(l) ==> f.contains(TagFieldView::Label(l@)))
            &&& (r.genre matches Some(g) ==> f.contains(TagFieldView::Genre(g@)))
            &&& (m.recording_id matches Some(x) ==> f.contains(TagFieldView::RecordingId(x@)))
            &&& (r.label is None ==> forall|i: int| 0 <= i < f.len() ==> !(#[trigger] f[i] is Label))
            &&& (r.genre is None ==> forall|i: int| 0 <= i < f.len() ==> !(#[trigger] f[i] is Genre))
            &&& (m.recording_id is None ==> forall|i: int| 0 <= i < f.len() ==> !(#[trigger] f[i] is RecordingId))
            &&& forall|i: int, j: int|
                0 <= i < f.len() && 0 <= j < f.len() && (#[trigger] f[i] is Label) && (#[trigger] f[j] is Genre) ==> i < j
            &&& forall|i: int, j: int|
                0 <= i < f.len() && 0 <= j < f.len() && (#[trigger] f[i] is Genre) && (#[trigger] f[j] is RecordingId) ==> i < j
        }),
{
    let h = head_tag_fields(m, r);
    let mid = mid_tag_fields(m, r);
    let lab = opt_field(r.label, |s: Seq<char>| TagFieldView::Label(s));
    let gen = opt_field(r.genre, |s: Seq<char>| TagFieldView::Genre(s));
    let rec = opt_field(m.recording_id, |s: Seq<char>| TagFieldView::RecordingId(s));
    let rest = opt_field(r.artist_credit_native, |s: Seq<char>| TagFieldView::OriginalArtist(s))
        + opt_field(r.title_native, |s: Seq<char>| TagFieldView::OriginalAlbum(s))
        + opt_field(m.title_native, |s: Seq<char>| TagFieldView::Comment("Original title: "@ + s))
        + release_id_field(r);
    let f = tag_fields_spec(m, r);
    lemma_front_kinds(m, r);
    lemma_rest_kinds(m, r);
    let front = h + mid;
    lemma_tag_split(m, r);
    lemma_kind_regions(front, lab, gen, rec, rest);
    assert(f[0] == TagFieldView::Title(m.title@));
    assert(f[1] == TagFieldView::Album(r.title@));
    if let Some(x) = r.artist_credit {
        assert(f[2] == TagFieldView::Artist(x@));
    }
    let a: int = front.len() as int;
    if let Some(x) = r.label {
        assert(f[a] == TagFieldView::Label(x@));
    }
    if let Some(x) = r.genre {
        assert(f[a + lab.len()] == TagFieldView::Genre(x@));
    }
    if let Some(x) = m.recording_id {
        assert(f[a + lab.len() + gen.len()] == TagFieldView::RecordingId(x@));
    }
}

proof fn lemma_tag_split(m: MatchedTrack, r: NormalizedRelease)
    ensures
        tag_fields_spec(m, r) == head_tag_fields(m, r) + mid_tag_fields(m, r) + opt_field(
            r.label,
            |s: Seq<char>| TagFieldView::Label(s),
        ) + opt_field(r.genre, |s: Seq<char>| TagFieldView::Genre(s)) + opt_field(
            m.recording_id,
            |s: Seq<char>| TagFieldView::RecordingId(s),
        ) + (opt_field(r.artist_credit_native, |s: Seq<char>| TagFieldView::OriginalArtist(s)) + opt_field(
            r.title_native,
            |s: Seq<char>| TagFieldView::OriginalAlbum(s),
        ) + opt_field(m.title_native, |s: Seq<char>| TagFieldView::Comment("Original title: "@ + s))
            + release_id_field(r)),
{
    assert(tag_fields_spec(m, r) =~= head_tag_fields(m, r) + mid_tag_fields(m, r) + opt_field(
        r.label,
        |s: Seq<char>| TagFieldView::Label(s),
    ) + opt_field(r.genre, |s: Seq<char>| TagFieldView::Genre(s)) + opt_field(
        m.recording_id,
        |s: Seq<char>| TagFieldView::RecordingId(s),
    ) + (opt_field(r.artist_credit_native, |s: Seq<char>| TagFieldView::OriginalArtist(s)) + opt_field(
        r.title_native,
        |s: Seq<char>| TagFieldView::OriginalAlbum(s),
    ) + opt_field(m.title_native, |s: Seq<char>| TagFieldView::Comment("Original title: "@ + s))
        + release_id_field(r)));
}

/// No label, genre or recording-id field.
pub open spec fn no_tail_kind(s: Seq<TagFieldView>) -> bool {
    forall|i: int|
        0 <= i < s.len() ==> !(#[trigger] s[i] is Label) && !(s[i] is Genre) && !(s[i] is RecordingId)
}

proof fn lemma_front_kinds(m: MatchedTrack, r: NormalizedRelease)
    ensures
        no_tail_kind(head_tag_fields(m, r) + mid_tag_fields(m, r)),
{
    let s = head_tag_fields(m, r) + mid_tag_fields(m, r);
    assert forall|i: int| 0 <= i < s.len() implies !(#[trigger] s[i] is Label) && !(s[i] is Genre) && !(
    s[i] is RecordingId) by {
        let h = head_tag_fields(m, r);
        if i >= h.len() {
            assert(s[i] == mid_tag_fields(m, r)[i - h.len()]);
        }
    }
}

proof fn lemma_rest_kinds(m: MatchedTrack, r: NormalizedRelease)
    ensures
        no_tail_kind(
            opt_field(r.artist_credit_native, |s: Seq<char>| TagFieldView::OriginalArtist(s)) + opt_field(
                r.title_native,
                |s: Seq<char>| TagFieldView::OriginalAlbum(s),
            ) + opt_field(m.title_native, |s: Seq<char>| TagFieldView::Comment("Original title: "@ + s))
                + release_id_field(r),
        ),
{
}

proof fn lemma_kind_regions(
    front: Seq<TagFieldView>,
    lab: Seq<TagFieldView>,
    gen: Seq<TagFieldView>,
    rec: Seq<TagFieldView>,
    rest: Seq<TagFieldView>,
)
    requires
        no_tail_kind(front),
        no_tail_kind(rest),
        forall|i: int| 0 <= i < lab.len() ==> (#[trigger] lab[i] is Label),
        forall|i: int| 0 <= i < gen.len() ==> (#[trigger] gen[i] is Genre),
        forall|i: int| 0 <= i < rec.len() ==> (#[trigger] rec[i] is RecordingId),
    ensures
        ({
            let f = front + lab + gen + rec + rest;
            let a = front.len() as int;
            let b = a + lab.len();
            let c = b + gen.len();
            let d = c + rec.len();
            &&& forall|i: int| 0 <= i < f.len() && (#[trigger] f[i] is Label) ==> a <= i < b
            &&& forall|i: int| 0 <= i < f.len() && (#[trigger] f[i] is Genre) ==> b <= i < c
            &&& forall|i: int| 0 <= i < f.len() && (#[trigger] f[i] is RecordingId) ==> c <= i < d
        }),
{
    let f = front + lab + gen + rec + rest;
    let a = front.len() as int;
    let b = a + lab.len();
    let c = b + gen.len();
    let d = c + rec.len();
    assert forall|i: int| 0 <= i < f.len() implies (f[i] is Label ==> a <= i < b) && (f[i] is Genre ==> b <= i
        < c) && (f[i] is RecordingId ==> c <= i < d) by {
        if i < a {
            assert(f[i] == front[i]);
        } else if i < b {
            assert(f[i] == lab[i - a]);
        } else if i < c {
            assert(f[i] == gen[i - b]);
        } else if i < d {
            assert(f[i] == rec[i - c]);
        } else {
            assert(f[i] == rest[i - d]);
        }
    }
}

fn head_fields(m: &MatchedTrack, release: &NormalizedRelease) -> (v: Vec<TagField>)
    ensures
        tag_views(v@) == head_tag_fields(*m, *release),
{
    let mut v: Vec<TagField> = Vec::new();
    v.push(TagField::Title(m.title.clone()));
    v.push(TagField::Album(release.title.clone()));
    match &release.artist_credit {
        Some(a) => v.push(TagField::Artist(a.clone())),
        None => {},
    }
    match m.position {
        Some(p) => v.push(TagField::Track(p)),
        None => match &m.raw_position {
            Some(raw) => v.push(TagField::TrackText(raw.clone())),
            None => {},
        },
    }
    assert(tag_views(v@) =~= seq![TagFieldView::Title(m.title@), TagFieldView::Album(release.title@)]
        + opt_field(release.artist_credit, |s: Seq<char>| TagFieldView::Artist(s))
        + track_field(*m));
    v
}

fn mid_fields(m: &MatchedTrack, release: &NormalizedRelease) -> (v: Vec<TagField>)
    ensures
        tag_views(v@) == mid_tag_fields(*m, *release),
{
    let mut v: Vec<TagField> = Vec::new();
    let total = disc_total_for(m, release);
    if total > 0 {
        v.push(TagField::TrackTotal(total as u32));
    }
    match m.medium_position {
        Some(d) => v.push(TagField::Disc(d)),
        None => {},
    }
    match &release.date {
        Some(d) => {
            if crate::text::char_count(d.as_str()) > 0 {
                v.push(TagField::Date(d.clone()));
            }
        },
        None => {},
    }
    assert(tag_views(v@) =~= total_field(*m, *release) + disc_field(*m) + date_field(*release));
    v
}

fn push_opt_label(v: &mut Vec<TagField>, o: &Option<String>, kind: u8)
    requires
        kind < 3,
    ensures
        tag_views(final(v)@) == tag_views(old(v)@) + if kind == 0 {
            opt_field(*o, |s: Seq<char>| TagFieldView::Label(s))
        } else if kind == 1 {
            opt_field(*o, |s: Seq<char>| TagFieldView::Genre(s))
        } else {
            opt_field(*o, |s: Seq<char>| TagFieldView::RecordingId(s))
        },
{
    match o {
        Some(s) => {
            let f = if kind == 0 {
                TagField::Label(s.clone())
            } else if kind == 1 {
                TagField::Genre(s.clone())
            } else {
                TagField::RecordingId(s.clone())
            };
            v.push(f);
        },
        None => {},
    }
    proof {
        let e = if kind == 0 {
            opt_field(*o, |s: Seq<char>| TagFieldView::Label(s))
        } else if kind == 1 {
            opt_field(*o, |s: Seq<char>| TagFieldView::Genre(s))
        } else {
            opt_field(*o, |s: Seq<char>| TagFieldView::RecordingId(s))
        };
        assert(tag_views(v@) =~= tag_views(old(v)@) + e);
    }
}

fn tail_fields(m: &MatchedTrack, release: &NormalizedRelease) -> (v: Vec<TagField>)
    ensures
        tag_views(v@) == tail_tag_fields(*m, *release),
{
    let mut v: Vec<TagField> = Vec::new();
    push_opt_label(&mut v, &release.label, 0);
    push_opt_label(&mut v, &release.genre, 1);
    push_opt_label(&mut v, &m.recording_id, 2);
    let ghost mid = tag_views(v@);
    match &release.artist_credit_native {
        Some(s) => v.push(TagField::OriginalArtist(s.clone())),
        None => {},
    }
    match &release.title_native {
        Some(s) => v.push(TagField::OriginalAlbum(s.clone())),
        None => {},
    }
    match &m.title_native {
        Some(s) => {
            let mut c = String::from_str("Original title: ");
            c.append(s.as_str());
            v.push(TagField::Comment(c));
        },
        None => {},
    }
    if looks_like_mbid(release.id.as_str()) {
        v.push(TagField::ReleaseId(release.id.clone()));
    }
    assert(tag_views(v@) =~= mid + opt_field(
        release.artist_credit_native,
        |s: Seq<char>| TagFieldView::OriginalArtist(s),
    ) + opt_field(release.title_native, |s: Seq<char>| TagFieldView::OriginalAlbum(s))
        + opt_field(m.title_native, |s: Seq<char>| TagFieldView::Comment("Original title: "@ + s))
        + release_id_field(*release));
    v
}

proof fn lemma_tag_views_add(a: Seq<TagField>, b: Seq<TagField>)
    ensures
        tag_views(a + b) == tag_views(a) + tag_views(b),
{
    assert(tag_views(a + b) =~= tag_views(a) + tag_views(b));
}

pub fn tag_fields(m: &MatchedTrack, release: &NormalizedRelease) -> (v: Vec<TagField>)
    ensures
        tag_views(v@) == tag_fields_spec(*m, *release),
{
    let mut v = head_fields(m, release);
    let mut b = mid_fields(m, release);
    let mut c = tail_fields(m, release);
    let ghost a0 = v@;
    let ghost b0 = b@;
    let ghost c0 = c@;
    v.append(&mut b);
    v.append(&mut c);
    proof {
        assert(v@ == a0 + b0 + c0);
        lemma_tag_views_add(a0, b0);
        lemma_tag_views_add(a0 + b0, c0);
    }
    v
}

} // verus!
