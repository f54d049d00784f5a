//! Fetch-job bookkeeping rules: where a job's files land and how a batch of
//! transfer outcomes becomes a job status.

use vstd::prelude::*;

use crate::paths::{join, path_join};
use crate::slskd::{split_remote_path, split_remote_spec};
use crate::text::{after_last, after_last_str, contains_str, seq_contains, seq_starts_with, starts_with_str};

verus! {

pub const STATUS_INCOMPLETE: &'static str = "incomplete";
pub const STATUS_FETCHED: &'static str = "fetched";
pub const STATUS_PARTIAL: &'static str = "partial";
pub const STATUS_FAILED: &'static str = "failed";
pub const STATUS_POSTFIXED: &'static str = "postfixed";
pub const STATUS_IMPORTED: &'static str = "imported";

/// A row of the `jobs` table.
#[derive(Debug, Clone)]
pub struct Job {
    pub id: i64,
    pub title: String,
    pub status: String,
    pub search_id: String,
    pub username: String,
    pub directory: String,
    pub local_dir: String,
    pub created_at: String,
    pub updated_at: String,
}

/// A row of the `job_files` table.
#[derive(Debug, Clone)]
pub struct JobFile {
    pub id: i64,
    pub job_id: i64,
    pub remote_path: String,
    pub transfer_id: String,
    pub size: i64,
    pub state: String,
    pub local_path: String,
}

/// Last `\`-separated component of a Soulseek remote directory.
pub open spec fn remote_basename(remote_directory: Seq<char>) -> Seq<char> {
    after_last(remote_directory, "\\"@)
}

/// The local directory slskd places a fetch's files under, with its
/// download subdirectory set to `${SOURCE_USERNAME}/${SOURCE_DIRECTORY}`:
/// `<downloads_root>/<username>/<basename of the remote directory>`.
pub fn local_dir_for(downloads_root: &str, username: &str, remote_directory: &str) -> (r: String)
    ensures
        r@ == path_join(path_join(downloads_root@, username@), remote_basename(remote_directory@)),
{
    let base = after_last_str(remote_directory, "\\");
    let user_dir = join(downloads_root, username);
    join(user_dir.as_str(), base.as_str())
}

/// Default job title when none is given: the same basename `local_dir` uses.
pub fn default_title(remote_directory: &str) -> (r: String)
    ensures
        r@ == remote_basename(remote_directory@),
{
    after_last_str(remote_directory, "\\")
}

/// Where a transfer's file lands: the job's `local_dir` joined with the
/// transfer's remote basename.
pub fn job_file_local_path(local_dir: &str, remote_filename: &str) -> (r: String)
    ensures
        r@ == path_join(local_dir@, split_remote_spec(remote_filename@).1),
{
    let (_, base) = split_remote_path(remote_filename);
    join(local_dir, base)
}

/// A transfer state counts as a success when it is `Completed...Succeeded`.
pub open spec fn is_succeeded_spec(state: Seq<char>) -> bool {
    seq_starts_with(state, "Completed"@) && seq_contains(state, "Succeeded"@)
}

pub fn is_succeeded(state: &str) -> (r: bool)
    ensures
        r == is_succeeded_spec(state@),
{
    starts_with_str(state, "Completed") && contains_str(state, "Succeeded")
}

pub open spec fn count_succeeded(states: Seq<Seq<char>>) -> nat
    decreases states.len(),
{
    if states.len() == 0 {
        0
    } else {
        count_succeeded(states.drop_last()) + if is_succeeded_spec(states.last()) {
            1nat
        } else {
            0nat
        }
    }
}

/// Job status for a finished batch: no states is `incomplete`, all succeeded
/// is `fetched`, none succeeded is `failed`, anything else `partial`.
pub open spec fn status_for(states: Seq<Seq<char>>) -> Seq<char> {
    if states.len() == 0 {
        STATUS_INCOMPLETE@
    } else if count_succeeded(states) == states.len() {
        STATUS_FETCHED@
    } else if count_succeeded(states) == 0 {
        STATUS_FAILED@
    } else {
        STATUS_PARTIAL@
    }
}

pub open spec fn state_views(states: Seq<&str>) -> Seq<Seq<char>> {
    states.map_values(|s: &str| s@)
}

proof fn lemma_count_le(states: Seq<Seq<char>>)
    ensures
        count_succeeded(states) <= states.len(),
    decreases states.len(),
{
    if states.len() > 0 {
        lemma_count_le(states.drop_last());
    }
}

/// Aggregates raw transfer states (e.g. `JobFile::state`) into a job status.
pub fn derive_status_from_states(states: &[&str]) -> (r: &'static str)
    ensures
        r@ == status_for(state_views(states@)),
{
    if states.len() == 0 {
        return STATUS_INCOMPLETE;
    }
    let mut succeeded: usize = 0;
    let mut i: usize = 0;
    while i < states.len()
        invariant
            i <= states@.len(),
            succeeded == count_succeeded(state_views(states@).subrange(0, i as int)),
            succeeded <= i,
        decreases states@.len() - i,
    {
        let ghost pre = state_views(states@).subrange(0, i as int);
        assert(state_views(states@).subrange(0, i + 1).drop_last() =~= pre);
        if is_succeeded(states[i]) {
            succeeded = succeeded + 1;
        }
        i = i + 1;
    }
    assert(state_views(states@).subrange(0, states@.len() as int) =~= state_views(states@));
    if succeeded == states.len() {
        STATUS_FETCHED
    } else if succeeded == 0 {
        STATUS_FAILED
    } else {
        STATUS_PARTIAL
    }
}

} // verus!

verus! {

/// The files a cancel acts on: those whose transfer has not reached a
/// terminal state, as indices in order. The job status is rewritten only
/// when this is not empty.
pub fn cancellable(files: &[JobFile]) -> (r: Vec<usize>)
    ensures
        forall|q: int| 0 <= q < r@.len() ==> (r@[q] as int) < files@.len()
            && !crate::slskd::is_terminal_spec(files@[r@[q] as int].state@),
        forall|q1: int, q2: int| 0 <= q1 < q2 < r@.len() ==> r@[q1] < r@[q2],
        forall|i: int| 0 <= i < files@.len() && !crate::slskd::is_terminal_spec(#[trigger] files@[i].state@)
            ==> r@.contains(i as usize),
{
    let mut out: Vec<usize> = Vec::new();
    let mut i: usize = 0;
    while i < files.len()
        invariant
            i <= files@.len(),
            forall|q: int| 0 <= q < out@.len() ==> (out@[q] as int) < i
                && !crate::slskd::is_terminal_spec(files@[out@[q] as int].state@),
            forall|q1: int, q2: int| 0 <= q1 < q2 < out@.len() ==> out@[q1] < out@[q2],
            forall|k: int| 0 <= k < i && !crate::slskd::is_terminal_spec(#[trigger] files@[k].state@)
                ==> out@.contains(k as usize),
        decreases files@.len() - i,
    {
        if !crate::slskd::is_terminal_state(files[i].state.as_str()) {
            let ghost o0 = out@;
            out.push(i);
            proof {
                assert(out@[o0.len() as int] == i);
                assert forall|k: int| 0 <= k < i + 1 && !crate::slskd::is_terminal_spec(#[trigger] files@[k].state@)
                    implies out@.contains(k as usize) by {
                    if k < i {
                        let w = choose|w: int| 0 <= w < o0.len() && o0[w] == k as usize;
                        assert(out@[w] == o0[w]);
                    }
                }
            }
        }
        i = i + 1;
    }
    out
}

} // verus!
