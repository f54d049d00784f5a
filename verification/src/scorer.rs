//! Edition scoring: the canonical track count and titles of a release
//! group, the title normalisation and edit distance behind every fuzzy text
//! comparison, and the classification rules each score component rests on.

use vstd::prelude::*;

use crate::release::{NormalizedRelease, NormalizedTrack};
use crate::text::{
    chars_of, insert_sorted, string_of, strictly_sorted, strs_contain, to_lowercase, trim, trim_str,
    unicode_lowercase,
};

verus! {

// ---------------------------------------------------------------------------
// Title normalisation and edit distance
// ---------------------------------------------------------------------------

/// Typographic quotes and dashes folded to their ASCII forms.
pub open spec fn fold_punct(c: char) -> char {
    if c == '\u{2018}' || c == '\u{2019}' || c == '\u{2032}' {
        '\''
    } else if c == '\u{201c}' || c == '\u{201d}' {
        '"'
    } else if c == '\u{2013}' || c == '\u{2014}' {
        '-'
    } else {
        c
    }
}

/// Trimmed, lowercased, with curly quotes, primes and dashes made ASCII.
pub open spec fn normalize_title_spec(s: Seq<char>) -> Seq<char> {
    unicode_lowercase(trim(s)).map_values(|c: char| fold_punct(c))
}

fn fold_punct_exec(c: char) -> (r: char)
    ensures
        r == fold_punct(c),
{
    if c == '\u{2018}' || c == '\u{2019}' || c == '\u{2032}' {
        '\''
    } else if c == '\u{201c}' || c == '\u{201d}' {
        '"'
    } else if c == '\u{2013}' || c == '\u{2014}' {
        '-'
    } else {
        c
    }
}

/// Normalised form used to compare titles: trimmed, lowercased, curly quotes
/// and dashes made ASCII.
pub fn normalize_title(title: &str) -> (r: String)
    ensures
        r@ == normalize_title_spec(title@),
{
    let t = trim_str(title);
    let l = to_lowercase(t.as_str());
    let cs = chars_of(l.as_str());
    let mut out: Vec<char> = Vec::new();
    let mut i: usize = 0;
    while i < cs.len()
        invariant
            cs@ == unicode_lowercase(trim(title@)),
            i <= cs@.len(),
            out@ == cs@.subrange(0, i as int).map_values(|c: char| fold_punct(c)),
        decreases cs@.len() - i,
    {
        out.push(fold_punct_exec(cs[i]));
        assert(cs@.subrange(0, i + 1).map_values(|c: char| fold_punct(c)) =~= cs@.subrange(
            0,
            i as int,
        ).map_values(|c: char| fold_punct(c)).push(fold_punct(cs@[i as int])));
        i = i + 1;
    }
    assert(cs@.subrange(0, cs@.len() as int) =~= cs@);
    string_of(&out)
}

pub open spec fn min3(a: int, b: int, c: int) -> int {
    if a <= b && a <= c {
        a
    } else if b <= c {
        b
    } else {
        c
    }
}

/// Levenshtein edit distance (insert, delete, substitute; all cost 1).
pub open spec fn lev(a: Seq<char>, b: Seq<char>) -> int
    decreases a.len() + b.len(),
{
    if a.len() == 0 {
        b.len() as int
    } else if b.len() == 0 {
        a.len() as int
    } else {
        min3(
            lev(a.drop_last(), b) + 1,
            lev(a, b.drop_last()) + 1,
            lev(a.drop_last(), b.drop_last()) + if a.last() == b.last() {
                0int
            } else {
                1int
            },
        )
    }
}

proof fn lemma_lev_bounds(a: Seq<char>, b: Seq<char>)
    ensures
        0 <= lev(a, b) <= a.len() + b.len(),
    decreases a.len() + b.len(),
{
    if a.len() > 0 && b.len() > 0 {
        lemma_lev_bounds(a.drop_last(), b);
        lemma_lev_bounds(a, b.drop_last());
        lemma_lev_bounds(a.drop_last(), b.drop_last());
    }
}

/// Edit distance between two character sequences.
pub fn levenshtein(a: &[char], b: &[char]) -> (r: usize)
    requires
        a@.len() + b@.len() <= usize::MAX,
    ensures
        r == lev(a@, b@),
{
    let n = a.len();
    let m = b.len();
    if n == 0 {
        return m;
    }
    if m == 0 {
        return n;
    }
    let mut prev: Vec<usize> = Vec::new();
    let mut j: usize = 0;
    while j <= m
        invariant
            m == b@.len(),
            n == a@.len(),
            n >= 1,
            n + m <= usize::MAX,
            j <= m + 1,
            prev@.len() == j,
            forall|k: int| 0 <= k < j ==> prev@[k] == lev(a@.subrange(0, 0), b@.subrange(0, k)),
        decreases m + 1 - j,
    {
        proof {
            assert(a@.subrange(0, 0).len() == 0);
        }
        prev.push(j);
        j = j + 1;
    }
    let mut i: usize = 1;
    while i <= n
        invariant
            n == a@.len(),
            m == b@.len(),
            m >= 1,
            n + m <= usize::MAX,
            1 <= i <= n + 1,
            prev@.len() == m + 1,
            forall|k: int| 0 <= k <= m ==> prev@[k] == lev(a@.subrange(0, i - 1), b@.subrange(0, k)),
        decreases n + 1 - i,
    {
        let ghost ai = a@.subrange(0, i as int);
        let ghost ap = a@.subrange(0, i - 1);
        assert(ai.drop_last() =~= ap);
        let mut curr: Vec<usize> = Vec::new();
        curr.push(i);
        proof {
            assert(b@.subrange(0, 0).len() == 0);
        }
        let mut j: usize = 1;
        while j <= m
            invariant
                n == a@.len(),
                m == b@.len(),
                n + m <= usize::MAX,
                n >= 1,
                1 <= i <= n,
                1 <= j <= m + 1,
                ai == a@.subrange(0, i as int),
                ap == a@.subrange(0, i - 1),
                ai.drop_last() == ap,
                prev@.len() == m + 1,
                curr@.len() == j,
                forall|k: int| 0 <= k <= m ==> prev@[k] == lev(ap, b@.subrange(0, k)),
                forall|k: int| 0 <= k < j ==> curr@[k] == lev(ai, b@.subrange(0, k)),
            decreases m + 1 - j,
        {
            let ghost bj = b@.subrange(0, j as int);
            assert(bj.drop_last() =~= b@.subrange(0, j - 1));
            assert(ai.last() == a@[i - 1]);
            assert(bj.last() == b@[j - 1]);
            proof {
                lemma_lev_bounds(ap, b@.subrange(0, j as int));
                lemma_lev_bounds(ai, b@.subrange(0, j - 1));
                lemma_lev_bounds(ap, b@.subrange(0, j - 1));
            }
            let cost: usize = if a[i - 1] == b[j - 1] { 0 } else { 1 };
            let del = prev[j] + 1;
            let ins = curr[j - 1] + 1;
            let sub = prev[j - 1] + cost;
            let best = if del <= ins && del <= sub {
                del
            } else if ins <= sub {
                ins
            } else {
                sub
            };
            curr.push(best);
            j = j + 1;
        }
        prev = curr;
        i = i + 1;
    }
    assert(a@.subrange(0, n as int) =~= a@);
    assert(b@.subrange(0, m as int) =~= b@);
    prev[m]
}

/// `~fuzzy` similarity test: `1 - dist/max_len >= 0.7` over normalised
/// titles, decided exactly as `10 * dist <= 3 * max_len`; two empty titles
/// are identical.
pub open spec fn fuzzy_hit(a: Seq<char>, b: Seq<char>) -> bool {
    let x = normalize_title_spec(a);
    let y = normalize_title_spec(b);
    let m = if x.len() >= y.len() {
        x.len()
    } else {
        y.len()
    };
    m == 0 || 10 * lev(x, y) <= 3 * m
}

proof fn lemma_lev_self(a: Seq<char>)
    ensures
        lev(a, a) == 0,
    decreases a.len(),
{
    if a.len() > 0 {
        lemma_lev_self(a.drop_last());
        lemma_lev_bounds(a.drop_last(), a);
        lemma_lev_bounds(a, a.drop_last());
    }
}

proof fn lemma_lev_symmetric(a: Seq<char>, b: Seq<char>)
    ensures
        lev(a, b) == lev(b, a),
    decreases a.len() + b.len(),
{
    if a.len() > 0 && b.len() > 0 {
        lemma_lev_symmetric(a.drop_last(), b);
        lemma_lev_symmetric(a, b.drop_last());
        lemma_lev_symmetric(a.drop_last(), b.drop_last());
    }
}

/// A title fuzzy-matches itself, and the test does not depend on the order
/// of its arguments.
pub proof fn law_fuzzy_match_reflexive_symmetric(a: Seq<char>, b: Seq<char>)
    ensures
        fuzzy_hit(a, a),
        fuzzy_hit(a, b) == fuzzy_hit(b, a),
{
    lemma_lev_self(normalize_title_spec(a));
    lemma_lev_symmetric(normalize_title_spec(a), normalize_title_spec(b));
}

pub fn fuzzy_match(a: &str, b: &str) -> (r: bool)
    ensures
        r == fuzzy_hit(a@, b@),
{
    let x = normalize_title(a);
    let y = normalize_title(b);
    let xs = chars_of(x.as_str());
    let ys = chars_of(y.as_str());
    let xl = xs.len();
    let yl = ys.len();
    let m = if xl >= yl { xl } else { yl };
    if m == 0 {
        return true;
    }
    let d = levenshtein(&xs, &ys);
    proof {
        lemma_lev_bounds(x@, y@);
    }
    (d as u128) * 10 <= (m as u128) * 3
}

} // verus!

verus! {

// ---------------------------------------------------------------------------
// Canonical track count and titles of a release group
// ---------------------------------------------------------------------------

/// How many of the releases have `v` tracks.
pub open spec fn count_freq(rs: Seq<NormalizedRelease>, v: u32) -> nat
    decreases rs.len(),
{
    if rs.len() == 0 {
        0
    } else {
        count_freq(rs.drop_last(), v) + if rs.last().track_count == v {
            1nat
        } else {
            0nat
        }
    }
}

/// `v` is the most common non-zero track count, the smallest among equally
/// common ones.
pub open spec fn is_canonical_count(rs: Seq<NormalizedRelease>, v: u32) -> bool {
    &&& v > 0
    &&& count_freq(rs, v) > 0
    &&& forall|w: u32|
        w > 0 ==> #[trigger] count_freq(rs, w) < count_freq(rs, v) || (count_freq(rs, w) == count_freq(
            rs,
            v,
        ) && v <= w)
}

fn freq_exec(rs: &[NormalizedRelease], v: u32) -> (n: usize)
    ensures
        n == count_freq(rs@, v),
{
    let mut n: usize = 0;
    let mut i: usize = 0;
    while i < rs.len()
        invariant
            i <= rs@.len(),
            n == count_freq(rs@.subrange(0, i as int), v),
            n <= i,
        decreases rs@.len() - i,
    {
        assert(rs@.subrange(0, i + 1).drop_last() =~= rs@.subrange(0, i as int));
        if rs[i].track_count == v {
            n = n + 1;
        }
        i = i + 1;
    }
    assert(rs@.subrange(0, rs@.len() as int) =~= rs@);
    n
}

proof fn lemma_freq_positive(rs: Seq<NormalizedRelease>, i: int)
    requires
        0 <= i < rs.len(),
    ensures
        count_freq(rs, rs[i].track_count) > 0,
    decreases rs.len(),
{
    if i < rs.len() - 1 {
        lemma_freq_positive(rs.drop_last(), i);
    }
}

proof fn lemma_freq_zero(rs: Seq<NormalizedRelease>, w: u32)
    requires
        forall|i: int| 0 <= i < rs.len() ==> (#[trigger] rs[i]).track_count != w,
    ensures
        count_freq(rs, w) == 0,
    decreases rs.len(),
{
    if rs.len() > 0 {
        assert(rs.last() == rs[rs.len() - 1]);
        lemma_freq_zero(rs.drop_last(), w);
    }
}

/// The most common non-zero track count among a group's releases (ties go to
/// the smaller count); `None` when every count is zero.
pub fn canonical_track_count(releases: &[NormalizedRelease]) -> (r: Option<u32>)
    ensures
        match r {
            None => forall|i: int| 0 <= i < releases@.len() ==> (#[trigger] releases@[i]).track_count == 0,
            Some(v) => is_canonical_count(releases@, v),
        },
{
    let mut best: Option<(u32, usize)> = None;
    let mut i: usize = 0;
    while i < releases.len()
        invariant
            i <= releases@.len(),
            match best {
                None => forall|k: int| 0 <= k < i ==> (#[trigger] releases@[k]).track_count == 0,
                Some((v, f)) => v > 0 && f == count_freq(releases@, v) && f > 0 && (exists|k: int|
                    0 <= k < i && releases@[k].track_count == v) && forall|k: int|
                    0 <= k < i && (#[trigger] releases@[k]).track_count > 0 ==> count_freq(
                        releases@,
                        releases@[k].track_count,
                    ) < f || (count_freq(releases@, releases@[k].track_count) == f && v
                        <= releases@[k].track_count),
            },
        decreases releases@.len() - i,
    {
        let c = releases[i].track_count;
        if c > 0 {
            let f = freq_exec(releases, c);
            proof {
                lemma_freq_positive(releases@, i as int);
            }
            match best {
                None => {
                    best = Some((c, f));
                },
                Some((v, bf)) => {
                    if f > bf || (f == bf && c < v) {
                        best = Some((c, f));
                    }
                },
            }
        }
        i = i + 1;
    }
    match best {
        None => None,
        Some((v, f)) => {
            proof {
                assert forall|w: u32| w > 0 implies #[trigger] count_freq(releases@, w) < count_freq(
                    releases@,
                    v,
                ) || (count_freq(releases@, w) == count_freq(releases@, v) && v <= w) by {
                    if exists|k: int| 0 <= k < releases@.len() && releases@[k].track_count == w {
                        let k: int = choose|k: int| 0 <= k < releases@.len() && releases@[k].track_count == w;
                        assert(releases@[k].track_count > 0);
                    } else {
                        lemma_freq_zero(releases@, w);
                    }
                }
            }
            Some(v)
        },
    }
}

/// Release `r` has a track whose normalised title is `t`.
pub open spec fn release_has_title(r: NormalizedRelease, t: Seq<char>) -> bool {
    exists|j: int| 0 <= j < r.tracks@.len() && normalize_title_spec((#[trigger] r.tracks@[j]).title@) == t
}

/// How many releases have a track titled `t` (normalised).
pub open spec fn title_freq(rs: Seq<NormalizedRelease>, t: Seq<char>) -> nat
    decreases rs.len(),
{
    if rs.len() == 0 {
        0
    } else {
        title_freq(rs.drop_last(), t) + if release_has_title(rs.last(), t) {
            1nat
        } else {
            0nat
        }
    }
}

/// `t` is a canonical title: a normalised track title found on at least half
/// of the releases.
pub open spec fn is_canonical_title(rs: Seq<NormalizedRelease>, t: Seq<char>) -> bool {
    title_freq(rs, t) > 0 && 2 * title_freq(rs, t) >= rs.len()
}

fn normalized_titles(r: &NormalizedRelease) -> (v: Vec<String>)
    ensures
        v@.len() == r.tracks@.len(),
        forall|j: int| 0 <= j < v@.len() ==> (#[trigger] v@[j])@ == normalize_title_spec(r.tracks@[j].title@),
{
    let mut v: Vec<String> = Vec::new();
    let mut j: usize = 0;
    while j < r.tracks.len()
        invariant
            j <= r.tracks@.len(),
            v@.len() == j,
            forall|k: int| 0 <= k < j ==> (#[trigger] v@[k])@ == normalize_title_spec(r.tracks@[k].title@),
        decreases r.tracks@.len() - j,
    {
        v.push(normalize_title(r.tracks[j].title.as_str()));
        j = j + 1;
    }
    v
}

fn has_string(v: &Vec<String>, s: &str) -> (r: bool)
    ensures
        r == exists|k: int| 0 <= k < v@.len() && (#[trigger] v@[k])@ == s@,
{
    let mut k: usize = 0;
    while k < v.len()
        invariant
            k <= v@.len(),
            forall|q: int| 0 <= q < k ==> (#[trigger] v@[q])@ != s@,
        decreases v@.len() - k,
    {
        if crate::text::str_eq(v[k].as_str(), s) {
            return true;
        }
        k = k + 1;
    }
    false
}

/// The titles found (normalised) on at least half of a group's releases,
/// each once, in order of first appearance.
fn canonical_titles_found(releases: &[NormalizedRelease]) -> (r: Vec<String>)
    ensures
        forall|a: int, b: int| 0 <= a < b < r@.len() ==> (#[trigger] r@[a])@ != (#[trigger] r@[b])@,
        forall|a: int| 0 <= a < r@.len() ==> is_canonical_title(releases@, (#[trigger] r@[a])@),
        forall|i: int, j: int|
            0 <= i < releases@.len() && 0 <= j < releases@[i].tracks@.len() && is_canonical_title(
                releases@,
                normalize_title_spec((#[trigger] releases@[i].tracks@[j]).title@),
            ) ==> exists|a: int|
                0 <= a < r@.len() && (#[trigger] r@[a])@ == normalize_title_spec(
                    releases@[i].tracks@[j].title@,
                ),
{
    let mut norm: Vec<Vec<String>> = Vec::new();
    let mut i: usize = 0;
    while i < releases.len()
        invariant
            i <= releases@.len(),
            norm@.len() == i,
            forall|k: int|
                0 <= k < i ==> (#[trigger] norm@[k])@.len() == releases@[k].tracks@.len() && forall|j: int|
                    0 <= j < norm@[k]@.len() ==> (#[trigger] norm@[k]@[j])@ == normalize_title_spec(
                        releases@[k].tracks@[j].title@,
                    ),
        decreases releases@.len() - i,
    {
        norm.push(normalized_titles(&releases[i]));
        i = i + 1;
    }
    let mut out: Vec<String> = Vec::new();
    let mut i: usize = 0;
    while i < releases.len()
        invariant
            i <= releases@.len(),
            norm@.len() == releases@.len(),
            forall|k: int|
                0 <= k < releases@.len() ==> (#[trigger] norm@[k])@.len() == releases@[k].tracks@.len()
                    && forall|j: int|
                    0 <= j < norm@[k]@.len() ==> (#[trigger] norm@[k]@[j])@ == normalize_title_spec(
                        releases@[k].tracks@[j].title@,
                    ),
            forall|a: int, b: int| 0 <= a < b < out@.len() ==> (#[trigger] out@[a])@ != (#[trigger] out@[b])@,
            forall|a: int| 0 <= a < out@.len() ==> is_canonical_title(releases@, (#[trigger] out@[a])@),
            forall|k: int, j: int|
                0 <= k < i && 0 <= j < releases@[k].tracks@.len() && is_canonical_title(
                    releases@,
                    normalize_title_spec((#[trigger] releases@[k].tracks@[j]).title@),
                ) ==> exists|a: int|
                    0 <= a < out@.len() && (#[trigger] out@[a])@ == normalize_title_spec(
                        releases@[k].tracks@[j].title@,
                    ),
        decreases releases@.len() - i,
    {
        let row = &norm[i];
        let mut j: usize = 0;
        while j < row.len()
            invariant
                i < releases@.len(),
                j <= row@.len(),
                *row == norm@[i as int],
                norm@.len() == releases@.len(),
                forall|k: int|
                    0 <= k < releases@.len() ==> (#[trigger] norm@[k])@.len() == releases@[k].tracks@.len()
                        && forall|j: int|
                        0 <= j < norm@[k]@.len() ==> (#[trigger] norm@[k]@[j])@ == normalize_title_spec(
                            releases@[k].tracks@[j].title@,
                        ),
                forall|a: int, b: int| 0 <= a < b < out@.len() ==> (#[trigger] out@[a])@ != (#[trigger] out@[b])@,
                forall|a: int| 0 <= a < out@.len() ==> is_canonical_title(releases@, (#[trigger] out@[a])@),
                forall|k: int, jj: int|
                    (0 <= k < i && 0 <= jj < releases@[k].tracks@.len() || k == i && 0 <= jj < j)
                        && is_canonical_title(
                        releases@,
                        normalize_title_spec((#[trigger] releases@[k].tracks@[jj]).title@),
                    ) ==> exists|a: int|
                        0 <= a < out@.len() && (#[trigger] out@[a])@ == normalize_title_spec(
                            releases@[k].tracks@[jj].title@,
                        ),
            decreases row@.len() - j,
        {
            let t = row[j].as_str();
            let ghost tv = t@;
            assert(tv == normalize_title_spec(releases@[i as int].tracks@[j as int].title@));
            let ghost out0 = out@;
            let present = has_string(&out, t);
            if !present {
                let f = title_freq_exec(releases, &norm, t);
                if f > 0 && f >= releases.len() - f {
                    out.push(row[j].clone());
                    proof {
                        assert(out@.last()@ == tv);
                        assert forall|a: int, b: int| 0 <= a < b < out@.len() implies (#[trigger] out@[a])@
                            != (#[trigger] out@[b])@ by {
                            if b < out0.len() {
                                assert(out@[a] == out0[a] && out@[b] == out0[b]);
                            } else {
                                assert(out@[a] == out0[a]);
                            }
                        }
                    }
                }
            }
            proof {
                assert forall|a: int| 0 <= a < out0.len() implies #[trigger] out@[a] == out0[a] by {}
                assert forall|k: int, jj: int|
                    (0 <= k < i && 0 <= jj < releases@[k].tracks@.len() || k == i && 0 <= jj < j + 1)
                        && is_canonical_title(
                        releases@,
                        normalize_title_spec((#[trigger] releases@[k].tracks@[jj]).title@),
                    ) implies exists|a: int|
                        0 <= a < out@.len() && (#[trigger] out@[a])@ == normalize_title_spec(
                            releases@[k].tracks@[jj].title@,
                        ) by {
                    if k == i && jj == j {
                        if present {
                            let a = choose|a: int| 0 <= a < out0.len() && (#[trigger] out0[a])@ == tv;
                            assert(out@[a] == out0[a]);
                        } else {
                            assert(out@[out@.len() - 1]@ == tv);
                        }
                    } else {
                        let a = choose|a: int|
                            0 <= a < out0.len() && (#[trigger] out0[a])@ == normalize_title_spec(
                                releases@[k].tracks@[jj].title@,
                            );
                        assert(out@[a] == out0[a]);
                    }
                }
            }
            j = j + 1;
        }
        i = i + 1;
    }
    out
}

/// The titles found (normalised) on at least half of a group's releases,
/// each once, in ascending order.
pub fn canonical_track_titles(releases: &[NormalizedRelease]) -> (r: Vec<String>)
    ensures
        strictly_sorted(r@),
        forall|a: int, b: int| 0 <= a < b < r@.len() ==> (#[trigger] r@[a])@ != (#[trigger] r@[b])@,
        forall|a: int| 0 <= a < r@.len() ==> is_canonical_title(releases@, (#[trigger] r@[a])@),
        forall|i: int, j: int|
            0 <= i < releases@.len() && 0 <= j < releases@[i].tracks@.len() && is_canonical_title(
                releases@,
                normalize_title_spec((#[trigger] releases@[i].tracks@[j]).title@),
            ) ==> exists|a: int|
                0 <= a < r@.len() && (#[trigger] r@[a])@ == normalize_title_spec(
                    releases@[i].tracks@[j].title@,
                ),
{
    let titles = canonical_titles_found(releases);
    let mut sorted: Vec<String> = Vec::new();
    let mut i: usize = 0;
    while i < titles.len()
        invariant
            i <= titles@.len(),
            strictly_sorted(sorted@),
            forall|t: Seq<char>|
                #[trigger] strs_contain(sorted@, t) <==> strs_contain(titles@.subrange(0, i as int), t),
        decreases titles@.len() - i,
    {
        let ghost before = sorted@;
        let s = titles[i].clone();
        insert_sorted(&mut sorted, s);
        proof {
            assert forall|t: Seq<char>|
                #[trigger] strs_contain(sorted@, t) <==> strs_contain(titles@.subrange(0, i + 1), t) by {
                let sub = titles@.subrange(0, i as int);
                let sub1 = titles@.subrange(0, i + 1);
                if strs_contain(sub1, t) {
                    let k: int = choose|k: int| 0 <= k < sub1.len() && (#[trigger] sub1[k])@ == t;
                    if k < i {
                        assert(sub[k] == sub1[k]);
                        assert(strs_contain(sub, t));
                    }
                }
                if strs_contain(sub, t) {
                    let k: int = choose|k: int| 0 <= k < sub.len() && (#[trigger] sub[k])@ == t;
                    assert(sub1[k] == sub[k]);
                }
                if t == titles@[i as int]@ {
                    assert(sub1[i as int] == titles@[i as int]);
                }
            }
        }
        i = i + 1;
    }
    proof {
        assert(titles@.subrange(0, titles@.len() as int) =~= titles@);
        assert forall|a: int, b: int| 0 <= a < b < sorted@.len() implies (#[trigger] sorted@[a])@
            != (#[trigger] sorted@[b])@ by {
            crate::text::lemma_seq_lt_irreflexive(sorted@[a]@);
        }
        assert forall|a: int| 0 <= a < sorted@.len() implies is_canonical_title(
            releases@,
            (#[trigger] sorted@[a])@,
        ) by {
            assert(strs_contain(sorted@, sorted@[a]@));
            let k: int = choose|k: int| 0 <= k < titles@.len() && (#[trigger] titles@[k])@ == sorted@[a]@;
        }
        assert forall|i: int, j: int|
            0 <= i < releases@.len() && 0 <= j < releases@[i].tracks@.len() && is_canonical_title(
                releases@,
                normalize_title_spec((#[trigger] releases@[i].tracks@[j]).title@),
            ) implies exists|a: int|
                0 <= a < sorted@.len() && (#[trigger] sorted@[a])@ == normalize_title_spec(
                    releases@[i].tracks@[j].title@,
                ) by {
            let t = normalize_title_spec(releases@[i].tracks@[j].title@);
            let k: int = choose|k: int| 0 <= k < titles@.len() && (#[trigger] titles@[k])@ == t;
            assert(strs_contain(titles@, t));
            assert(strs_contain(sorted@, t));
        }
    }
    sorted
}

fn title_freq_exec(releases: &[NormalizedRelease], norm: &Vec<Vec<String>>, t: &str) -> (n: usize)
    requires
        norm@.len() == releases@.len(),
        forall|k: int|
            0 <= k < releases@.len() ==> (#[trigger] norm@[k])@.len() == releases@[k].tracks@.len()
                && forall|j: int|
                0 <= j < norm@[k]@.len() ==> (#[trigger] norm@[k]@[j])@ == normalize_title_spec(
                    releases@[k].tracks@[j].title@,
                ),
    ensures
        n == title_freq(releases@, t@),
        n <= releases@.len(),
{
    let mut n: usize = 0;
    let mut i: usize = 0;
    while i < releases.len()
        invariant
            i <= releases@.len(),
            norm@.len() == releases@.len(),
            forall|k: int|
                0 <= k < releases@.len() ==> (#[trigger] norm@[k])@.len() == releases@[k].tracks@.len()
                    && forall|j: int|
                    0 <= j < norm@[k]@.len() ==> (#[trigger] norm@[k]@[j])@ == normalize_title_spec(
                        releases@[k].tracks@[j].title@,
                    ),
            n == title_freq(releases@.subrange(0, i as int), t@),
            n <= i,
        decreases releases@.len() - i,
    {
        assert(releases@.subrange(0, i + 1).drop_last() =~= releases@.subrange(0, i as int));
        assert(releases@.subrange(0, i + 1).last() == releases@[i as int]);
        let hit = has_string(&norm[i], t);
        proof {
            let r = releases@[i as int];
            if hit {
                let k: int = choose|k: int| 0 <= k < norm@[i as int]@.len() && (#[trigger] norm@[i as int]@[k])@ == t@;
                assert(normalize_title_spec(r.tracks@[k].title@) == t@);
            }
            if release_has_title(r, t@) {
                let k: int = choose|k: int|
                    0 <= k < r.tracks@.len() && normalize_title_spec((#[trigger] r.tracks@[k]).title@) == t@;
                assert(norm@[i as int]@[k]@ == t@);
            }
        }
        if hit {
            n = n + 1;
        }
        i = i + 1;
    }
    assert(releases@.subrange(0, releases@.len() as int) =~= releases@);
    n
}

} // verus!

verus! {

// ---------------------------------------------------------------------------
// What each score component is awarded for
// ---------------------------------------------------------------------------

/// How a release's status scores.
pub enum StatusClass {
    Official,
    /// Any other status, lower-cased.
    Other(String),
}

/// `official` (any case) scores as official; any other status as `Other`
/// with its lower-cased text; no status scores nothing.
pub fn status_class(status: &Option<String>) -> (r: Option<StatusClass>)
    ensures
        match status {
            None => r is None,
            Some(s) => if unicode_lowercase(s@) == "official"@ {
                r matches Some(StatusClass::Official)
            } else {
                r matches Some(StatusClass::Other(l)) && l@ == unicode_lowercase(s@)
            },
        },
{
    match status {
        None => None,
        Some(s) => {
            let l = to_lowercase(s.as_str());
            if crate::text::str_eq(l.as_str(), "official") {
                Some(StatusClass::Official)
            } else {
                Some(StatusClass::Other(l))
            }
        },
    }
}

/// Some format, lower-cased, contains `digital`.
pub fn is_digital_media(formats: &[String]) -> (r: bool)
    ensures
        r == exists|i: int|
            0 <= i < formats@.len() && crate::text::seq_contains(
                unicode_lowercase((#[trigger] formats@[i])@),
                "digital"@,
            ),
{
    let mut i: usize = 0;
    while i < formats.len()
        invariant
            i <= formats@.len(),
            forall|k: int|
                0 <= k < i ==> !crate::text::seq_contains(
                    unicode_lowercase((#[trigger] formats@[k])@),
                    "digital"@,
                ),
        decreases formats@.len() - i,
    {
        let l = to_lowercase(formats[i].as_str());
        if crate::text::contains_str(l.as_str(), "digital") {
            return true;
        }
        i = i + 1;
    }
    false
}

/// Kinds of physical media a format can be.
#[derive(PartialEq, Eq, Structural)]
pub enum FormatClass {
    Vinyl,
    OtherPhysical,
    Cd,
    OtherNonDigital,
}

pub open spec fn format_class_spec(l: Seq<char>) -> FormatClass {
    if crate::text::seq_contains(l, "vinyl"@) {
        FormatClass::Vinyl
    } else if crate::text::seq_contains(l, "cassette"@) || crate::text::seq_contains(l, "shellac"@)
        || crate::text::seq_contains(l, "8-track"@) || crate::text::seq_contains(l, "cylinder"@) {
        FormatClass::OtherPhysical
    } else if crate::text::seq_contains(l, "cd"@) {
        FormatClass::Cd
    } else {
        FormatClass::OtherNonDigital
    }
}

/// A medium format, lower-cased, and what kind of medium it is (vinyl
/// first, then cassette/shellac/8-track/cylinder, then CD).
pub fn format_class(format: &str) -> (r: (String, FormatClass))
    ensures
        r.0@ == unicode_lowercase(format@),
        r.1 == format_class_spec(unicode_lowercase(format@)),
{
    let l = to_lowercase(format);
    let c = if crate::text::contains_str(l.as_str(), "vinyl") {
        FormatClass::Vinyl
    } else if crate::text::contains_str(l.as_str(), "cassette") || crate::text::contains_str(
        l.as_str(),
        "shellac",
    ) || crate::text::contains_str(l.as_str(), "8-track") || crate::text::contains_str(
        l.as_str(),
        "cylinder",
    ) {
        FormatClass::OtherPhysical
    } else if crate::text::contains_str(l.as_str(), "cd") {
        FormatClass::Cd
    } else {
        FormatClass::OtherNonDigital
    };
    (l, c)
}

/// How a release's track count compares with the canonical one: nothing to
/// say (no canonical count, or no tracks), it matches, or it differs.
pub fn track_count_verdict(canonical: Option<u32>, count: u32) -> (r: Option<bool>)
    ensures
        r == match canonical {
            None => None,
            Some(c) => if count == 0 {
                None
            } else {
                Some(count == c)
            },
        },
{
    match canonical {
        None => None,
        Some(c) => if count == 0 {
            None
        } else {
            Some(count == c)
        },
    }
}

pub open spec fn hits_in(hay: Seq<char>, terms: Seq<String>) -> nat
    decreases terms.len(),
{
    if terms.len() == 0 {
        0
    } else {
        hits_in(hay, terms.drop_last()) + if crate::text::seq_contains(hay, terms.last()@) {
            1nat
        } else {
            0nat
        }
    }
}

/// How many of `terms` the lower-cased text contains.
pub fn term_hits(text: &str, terms: &[String]) -> (n: usize)
    ensures
        n == hits_in(unicode_lowercase(text@), terms@),
{
    let hay = to_lowercase(text);
    let mut n: usize = 0;
    let mut i: usize = 0;
    while i < terms.len()
        invariant
            hay@ == unicode_lowercase(text@),
            i <= terms@.len(),
            n == hits_in(hay@, terms@.subrange(0, i as int)),
            n <= i,
        decreases terms@.len() - i,
    {
        assert(terms@.subrange(0, i + 1).drop_last() =~= terms@.subrange(0, i as int));
        if crate::text::contains_str(hay.as_str(), terms[i].as_str()) {
            n = n + 1;
        }
        i = i + 1;
    }
    assert(terms@.subrange(0, terms@.len() as int) =~= terms@);
    n
}

/// Primary release-group types that score.
#[derive(PartialEq, Eq, Structural)]
pub enum PrimaryType {
    Album,
    Ep,
    Single,
}

/// The scoring primary type of a release group (compared lower-cased).
pub fn primary_class(primary: &Option<String>) -> (r: Option<PrimaryType>)
    ensures
        r == match primary {
            None => None,
            Some(p) => {
                let l = unicode_lowercase(p@);
                if l == "album"@ {
                    Some(PrimaryType::Album)
                } else if l == "ep"@ {
                    Some(PrimaryType::Ep)
                } else if l == "single"@ {
                    Some(PrimaryType::Single)
                } else {
                    None
                }
            },
        },
{
    match primary {
        None => None,
        Some(p) => {
            let l = to_lowercase(p.as_str());
            if crate::text::str_eq(l.as_str(), "album") {
                Some(PrimaryType::Album)
            } else if crate::text::str_eq(l.as_str(), "ep") {
                Some(PrimaryType::Ep)
            } else if crate::text::str_eq(l.as_str(), "single") {
                Some(PrimaryType::Single)
            } else {
                None
            }
        },
    }
}

/// A secondary type is penalised when its lower-cased text is one of the
/// configured ones.
pub fn is_penalised_secondary(secondary: &str, penalised: &[String]) -> (r: bool)
    ensures
        r == exists|i: int|
            0 <= i < penalised@.len() && (#[trigger] penalised@[i])@ == unicode_lowercase(secondary@),
{
    let l = to_lowercase(secondary);
    let mut i: usize = 0;
    while i < penalised.len()
        invariant
            l@ == unicode_lowercase(secondary@),
            i <= penalised@.len(),
            forall|k: int| 0 <= k < i ==> (#[trigger] penalised@[k])@ != l@,
        decreases penalised@.len() - i,
    {
        if crate::text::str_eq(penalised[i].as_str(), l.as_str()) {
            return true;
        }
        i = i + 1;
    }
    false
}

/// The status is `official`, ASCII-case-insensitively.
pub fn is_official_status(status: &Option<String>) -> (r: bool)
    ensures
        r == match status {
            Some(s) => crate::text::seq_ascii_lower(s@) == "official"@,
            None => false,
        },
{
    match status {
        Some(s) => {
            let l = crate::text::to_ascii_lowercase(s.as_str());
            crate::text::str_eq(l.as_str(), "official")
        },
        None => false,
    }
}

pub open spec fn is_extra_medium(l: Seq<char>) -> bool {
    crate::text::seq_contains(l, "dvd"@) || crate::text::seq_contains(l, "data"@)
        || crate::text::seq_contains(l, "cd-rom"@) || crate::text::seq_contains(l, "video"@)
}

/// A track of an official release can earn the bonus-track points: it has a
/// length, is not on a DVD/data/CD-ROM/video medium, its normalised title is
/// not canonical nor contains a canonical title, and its title draws no term
/// penalty.
pub open spec fn bonus_candidate_spec(t: NormalizedTrack, canonical: Seq<String>, term_penalty: bool) -> bool {
    let title = normalize_title_spec(t.title@);
    &&& t.length_ms is Some
    &&& match t.medium_format {
        Some(m) => !is_extra_medium(unicode_lowercase(m@)),
        None => true,
    }
    &&& !(exists|i: int| 0 <= i < canonical.len() && (#[trigger] canonical[i])@ == title)
    &&& !term_penalty
    &&& !(exists|i: int|
        0 <= i < canonical.len() && crate::text::seq_contains(title, (#[trigger] canonical[i])@))
}

pub fn bonus_candidate(t: &NormalizedTrack, canonical: &[String], term_penalty: bool) -> (r: bool)
    ensures
        r == bonus_candidate_spec(*t, canonical@, term_penalty),
{
    if t.length_ms.is_none() {
        return false;
    }
    match &t.medium_format {
        Some(m) => {
            let l = to_lowercase(m.as_str());
            if crate::text::contains_str(l.as_str(), "dvd") || crate::text::contains_str(l.as_str(), "data")
                || crate::text::contains_str(l.as_str(), "cd-rom") || crate::text::contains_str(
                l.as_str(),
                "video",
            ) {
                return false;
            }
        },
        None => {},
    }
    let title = normalize_title(t.title.as_str());
    let mut i: usize = 0;
    while i < canonical.len()
        invariant
            title@ == normalize_title_spec(t.title@),
            i <= canonical@.len(),
            forall|k: int| 0 <= k < i ==> (#[trigger] canonical@[k])@ != title@,
        decreases canonical@.len() - i,
    {
        if crate::text::str_eq(canonical[i].as_str(), title.as_str()) {
            return false;
        }
        i = i + 1;
    }
    if term_penalty {
        return false;
    }
    let mut i: usize = 0;
    while i < canonical.len()
        invariant
            title@ == normalize_title_spec(t.title@),
            i <= canonical@.len(),
            forall|k: int| 0 <= k < i ==> !crate::text::seq_contains(title@, (#[trigger] canonical@[k])@),
        decreases canonical@.len() - i,
    {
        if crate::text::contains_str(title.as_str(), canonical[i].as_str()) {
            return false;
        }
        i = i + 1;
    }
    true
}

/// Sort key of a release date: present non-blank dates first, by their text.
pub fn date_key(date: &Option<String>) -> (r: (u8, String))
    ensures
        match date {
            Some(d) => if trim(d@).len() > 0 {
                r.0 == 0 && r.1@ == d@
            } else {
                r.0 == 1 && r.1@ == Seq::<char>::empty()
            },
            None => r.0 == 1 && r.1@ == Seq::<char>::empty(),
        },
{
    match date {
        Some(d) => {
            let t = trim_str(d.as_str());
            if crate::text::char_count(t.as_str()) > 0 {
                (0, d.clone())
            } else {
                (1, String::new())
            }
        },
        None => (1, String::new()),
    }
}

} // verus!
