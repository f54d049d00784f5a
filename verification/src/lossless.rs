//! The default presentation of a Soulseek search: lossless files only, the
//! responses that have any ranked free upload slot first, then fastest upload,
//! then shortest queue, and only the first few. Fetch selectors never go
//! through this view: they resolve against the full search.

use vstd::prelude::*;

use crate::slskd::{split_remote_path, split_remote_spec, SearchResponseItem, SlskdFile};
use crate::text::{rsplit_char_once, seq_ascii_lower, split_at_last_char, str_eq, to_ascii_lowercase};

verus! {

/// How many responses the lossless view keeps.
pub const LOSSLESS_VIEW_TOP: usize = 5;

/// What follows the last `.` of a remote file's basename, if it has one.
pub open spec fn remote_ext(name: Seq<char>) -> Option<Seq<char>> {
    match split_at_last_char(split_remote_spec(name).1, '.') {
        Some(parts) => Some(parts.1),
        None => None,
    }
}

/// The lossless formats among the audio extensions the importer takes.
pub open spec fn is_lossless_ext(e: Seq<char>) -> bool {
    let l = seq_ascii_lower(e);
    l == "flac"@ || l == "wav"@ || l == "ape"@ || l == "wv"@
}

pub open spec fn is_lossless_spec(f: SlskdFile) -> bool {
    remote_ext(f.filename@) matches Some(e) && is_lossless_ext(e)
}

/// Whether a shared file is in a lossless format, judged by its extension
/// (any ASCII case).
pub fn is_lossless(f: &SlskdFile) -> (r: bool)
    ensures
        r == is_lossless_spec(*f),
{
    let (_, base) = split_remote_path(f.filename.as_str());
    match rsplit_char_once(base, '.') {
        Some((_, ext)) => {
            let l = to_ascii_lowercase(ext.as_str());
            str_eq(l.as_str(), "flac") || str_eq(l.as_str(), "wav") || str_eq(l.as_str(), "ape")
                || str_eq(l.as_str(), "wv")
        },
        None => false,
    }
}

/// The positions of the lossless files, in their order.
pub fn lossless_files(files: &Vec<SlskdFile>) -> (r: Vec<usize>)
    ensures
        forall|k: int|
            #![trigger r@[k]]
            0 <= k < r@.len() ==> (r@[k] as int) < files@.len() && is_lossless_spec(files@[r@[k] as int]),
        forall|k1: int, k2: int| 0 <= k1 < k2 < r@.len() ==> r@[k1] < r@[k2],
        forall|i: int| 0 <= i < files@.len() && is_lossless_spec(#[trigger] files@[i]) ==> r@.contains(i as usize),
{
    let mut r: Vec<usize> = Vec::new();
    let mut i: usize = 0;
    while i < files.len()
        invariant
            i <= files@.len(),
            forall|k: int|
                #![trigger r@[k]]
                0 <= k < r@.len() ==> (r@[k] as int) < i && is_lossless_spec(files@[r@[k] as int]),
            forall|k1: int, k2: int| 0 <= k1 < k2 < r@.len() ==> r@[k1] < r@[k2],
            forall|j: int| 0 <= j < i && is_lossless_spec(#[trigger] files@[j]) ==> r@.contains(j as usize),
        decreases files@.len() - i,
    {
        if is_lossless(&files[i]) {
            let ghost before = r@;
            r.push(i);
            proof {
                assert forall|j: int| 0 <= j < i + 1 && is_lossless_spec(#[trigger] files@[j]) implies r@.contains(
                    j as usize,
                ) by {
                    if j < i {
                        let k: int = choose|k: int| 0 <= k < before.len() && before[k] == j as usize;
                        assert(r@[k] == j as usize);
                    } else {
                        assert(r@[r@.len() - 1] == j as usize);
                    }
                }
            }
        }
        i += 1;
    }
    r
}

/// A response that shares at least one lossless file.
pub open spec fn has_lossless(r: SearchResponseItem) -> bool {
    exists|k: int| 0 <= k < r.files@.len() && is_lossless_spec(#[trigger] r.files@[k])
}

fn response_has_lossless(r: &SearchResponseItem) -> (b: bool)
    ensures
        b == has_lossless(*r),
{
    let mut k: usize = 0;
    while k < r.files.len()
        invariant
            k <= r.files@.len(),
            forall|j: int| 0 <= j < k ==> !is_lossless_spec(#[trigger] r.files@[j]),
        decreases r.files@.len() - k,
    {
        if is_lossless(&r.files[k]) {
            return true;
        }
        k += 1;
    }
    false
}

/// Response `i` is shown before response `j`: a free upload slot first, then
/// the faster upload, then the shorter queue, then the earlier response.
pub open spec fn ranks_before(rs: Seq<SearchResponseItem>, i: int, j: int) -> bool {
    let a = rs[i];
    let b = rs[j];
    if a.has_free_upload_slot != b.has_free_upload_slot {
        a.has_free_upload_slot
    } else if a.upload_speed != b.upload_speed {
        a.upload_speed > b.upload_speed
    } else if a.queue_length != b.queue_length {
        a.queue_length < b.queue_length
    } else {
        i < j
    }
}

proof fn lemma_ranks_before_order(rs: Seq<SearchResponseItem>, a: int, b: int, c: int)
    ensures
        !ranks_before(rs, a, a),
        a != b ==> (ranks_before(rs, a, b) <==> !ranks_before(rs, b, a)),
        ranks_before(rs, a, b) && ranks_before(rs, b, c) ==> ranks_before(rs, a, c),
{
}

fn ranks_before_exec(rs: &Vec<SearchResponseItem>, i: usize, j: usize) -> (r: bool)
    requires
        i < rs@.len(),
        j < rs@.len(),
    ensures
        r == ranks_before(rs@, i as int, j as int),
{
    let a = &rs[i];
    let b = &rs[j];
    if a.has_free_upload_slot != b.has_free_upload_slot {
        a.has_free_upload_slot
    } else if a.upload_speed != b.upload_speed {
        a.upload_speed > b.upload_speed
    } else if a.queue_length != b.queue_length {
        a.queue_length < b.queue_length
    } else {
        i < j
    }
}

/// The responses of the lossless view, best first: the at most `limit`
/// responses with a lossless file that rank before every other such
/// response, in rank order.
pub fn lossless_ranking(rs: &Vec<SearchResponseItem>, limit: usize) -> (r: Vec<usize>)
    ensures
        r@.len() <= limit,
        forall|k: int|
            #![trigger r@[k]]
            0 <= k < r@.len() ==> (r@[k] as int) < rs@.len() && has_lossless(rs@[r@[k] as int]),
        forall|k1: int, k2: int|
            0 <= k1 < k2 < r@.len() ==> #[trigger] ranks_before(rs@, r@[k1] as int, r@[k2] as int),
        forall|i: int, k: int|
            0 <= i < rs@.len() && has_lossless(rs@[i]) && !r@.contains(i as usize) && 0 <= k < r@.len()
                ==> #[trigger] ranks_before(rs@, r@[k] as int, i),
        r@.len() < limit ==> forall|i: int|
            0 <= i < rs@.len() && has_lossless(#[trigger] rs@[i]) ==> r@.contains(i as usize),
{
    let n: usize = rs.len();
    let mut qual: Vec<bool> = Vec::new();
    let mut taken: Vec<bool> = Vec::new();
    let mut i: usize = 0;
    while i < n
        invariant
            i <= n,
            n == rs@.len(),
            qual@.len() == i,
            taken@.len() == i,
            forall|j: int| 0 <= j < i ==> qual@[j] == has_lossless(#[trigger] rs@[j]),
            forall|j: int| 0 <= j < i ==> !(#[trigger] taken@[j]),
        decreases n - i,
    {
        qual.push(response_has_lossless(&rs[i]));
        taken.push(false);
        i += 1;
    }
    let mut out: Vec<usize> = Vec::new();
    while out.len() < limit
        invariant
            n == rs@.len(),
            qual@.len() == n,
            taken@.len() == n,
            out@.len() <= limit,
            forall|j: int| 0 <= j < n ==> qual@[j] == has_lossless(#[trigger] rs@[j]),
            forall|j: int| 0 <= j < n ==> (#[trigger] taken@[j] <==> out@.contains(j as usize)),
            forall|k: int|
                #![trigger out@[k]]
                0 <= k < out@.len() ==> (out@[k] as int) < n && qual@[out@[k] as int],
            forall|k1: int, k2: int|
                0 <= k1 < k2 < out@.len() ==> #[trigger] ranks_before(rs@, out@[k1] as int, out@[k2] as int),
            forall|x: int, k: int|
                0 <= x < n && qual@[x] && !taken@[x] && 0 <= k < out@.len() ==> #[trigger] ranks_before(
                    rs@,
                    out@[k] as int,
                    x,
                ),
        ensures
            out@.len() < limit ==> forall|x: int| 0 <= x < n && qual@[x] ==> taken@[x],
        decreases limit - out@.len(),
    {
        let mut best: Option<usize> = None;
        let mut j: usize = 0;
        while j < n
            invariant
                j <= n,
                n == rs@.len(),
                qual@.len() == n,
                taken@.len() == n,
                match best {
                    None => forall|x: int| 0 <= x < j ==> !(qual@[x] && !taken@[x]),
                    Some(b) => (b as int) < j && qual@[b as int] && !taken@[b as int] && forall|x: int|
                        0 <= x < j && qual@[x] && !taken@[x] && x != b as int ==> #[trigger] ranks_before(
                            rs@,
                            b as int,
                            x,
                        ),
                },
            decreases n - j,
        {
            if qual[j] && !taken[j] {
                match best {
                    None => {
                        best = Some(j);
                    },
                    Some(b) => {
                        proof {
                            lemma_ranks_before_order(rs@, j as int, b as int, j as int);
                        }
                        if ranks_before_exec(rs, j, b) {
                            proof {
                                assert forall|x: int|
                                    0 <= x < j + 1 && qual@[x] && !taken@[x] && x != j as int implies #[trigger] ranks_before(
                                    rs@,
                                    j as int,
                                    x,
                                ) by {
                                    if x != b as int {
                                        lemma_ranks_before_order(rs@, j as int, b as int, x);
                                    }
                                }
                            }
                            best = Some(j);
                        }
                    },
                }
            }
            j += 1;
        }
        match best {
            None => {
                break;
            },
            Some(b) => {
                let ghost old_out = out@;
                let ghost old_taken = taken@;
                out.push(b);
                taken.set(b, true);
                proof {
                    assert forall|x: int| 0 <= x < n implies (#[trigger] taken@[x] <==> out@.contains(
                        x as usize,
                    )) by {
                        if x == b as int {
                            assert(out@[out@.len() - 1] == b);
                        } else {
                            if old_out.contains(x as usize) {
                                let k: int = choose|k: int| 0 <= k < old_out.len() && old_out[k] == x as usize;
                                assert(out@[k] == x as usize);
                            }
                            if out@.contains(x as usize) {
                                let k: int = choose|k: int| 0 <= k < out@.len() && out@[k] == x as usize;
                                assert(old_out[k] == x as usize);
                            }
                        }
                    }
                    assert forall|k1: int, k2: int|
                        0 <= k1 < k2 < out@.len() implies #[trigger] ranks_before(
                        rs@,
                        out@[k1] as int,
                        out@[k2] as int,
                    ) by {
                        if k2 == out@.len() - 1 {
                            assert(ranks_before(rs@, old_out[k1] as int, b as int));
                        } else {
                            assert(ranks_before(rs@, old_out[k1] as int, old_out[k2] as int));
                        }
                    }
                    assert forall|x: int, k: int|
                        0 <= x < n && qual@[x] && !taken@[x] && 0 <= k < out@.len() implies #[trigger] ranks_before(
                        rs@,
                        out@[k] as int,
                        x,
                    ) by {
                        assert(x != b as int);
                        assert(!old_taken[x]);
                        if k == out@.len() - 1 {
                            assert(ranks_before(rs@, b as int, x));
                        } else {
                            assert(ranks_before(rs@, old_out[k] as int, x));
                        }
                    }
                }
            },
        }
    }
    proof {
        assert forall|x: int, k: int|
            0 <= x < rs@.len() && has_lossless(rs@[x]) && !out@.contains(x as usize) && 0 <= k < out@.len()
                implies #[trigger] ranks_before(rs@, out@[k] as int, x) by {
            assert(qual@[x]);
            assert(!taken@[x]);
        }
        if out@.len() < limit {
            assert forall|x: int| 0 <= x < rs@.len() && has_lossless(#[trigger] rs@[x]) implies out@.contains(
                x as usize,
            ) by {
                assert(qual@[x]);
                assert(taken@[x]);
            }
        }
    }
    out
}

} // verus!
