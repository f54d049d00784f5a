//! Soulseek (slskd) wire types and the pure rules over them: remote path
//! splitting, fetch-selector resolution, terminal transfer states.

use vstd::prelude::*;

use crate::error::Error;
use vstd::string::StringSliceAdditionalSpecFns;
use crate::text::{
    chars_of, contains_str, is_last_char, rfind_char, seq_contains, seq_starts_with,
    starts_with_str, str_eq,
};

verus! {

#[derive(Debug)]
pub struct SessionResponse {
    pub token: String,
    pub token_type: String,
}

#[derive(Debug)]
pub struct SearchRequest {
    pub search_text: String,
}

impl SearchRequest {
    pub fn new(search_text: String) -> (r: Self)
        ensures
            r.search_text@ == search_text@,
    {
        SearchRequest { search_text }
    }
}

#[derive(Debug)]
pub struct Search {
    pub id: String,
    pub token: i64,
    pub search_text: String,
    pub state: String,
    pub is_complete: bool,
    pub file_count: u32,
    pub locked_file_count: u32,
    pub response_count: u32,
    pub responses: Vec<SearchResponseItem>,
    pub started_at: Option<String>,
    pub ended_at: Option<String>,
}

#[derive(Debug)]
pub struct SearchResponseItem {
    pub username: String,
    pub token: i64,
    pub file_count: u32,
    pub files: Vec<SlskdFile>,
    pub locked_file_count: u32,
    pub locked_files: Vec<SlskdFile>,
    pub has_free_upload_slot: bool,
    pub queue_length: i64,
    pub upload_speed: i64,
}

#[derive(Debug)]
pub struct SlskdFile {
    pub filename: String,
    pub size: i64,
    pub extension: Option<String>,
    pub bit_rate: Option<i32>,
    pub bit_depth: Option<i32>,
    pub sample_rate: Option<i32>,
    pub length: Option<i32>,
    pub is_variable_bit_rate: bool,
    pub is_locked: bool,
}

#[derive(Debug)]
pub struct QueueDownloadRequestItem {
    pub filename: String,
    pub size: i64,
}

#[derive(Debug)]
pub struct DirectoryContentsRequest {
    pub directory: String,
}

#[derive(Debug)]
pub struct Directory {
    pub name: String,
    pub files: Vec<SlskdFile>,
    pub directories: Vec<Directory>,
}

/// A search result, and whether it was an earlier search reused.
#[derive(Debug)]
pub struct SearchOutcome {
    pub search: Search,
    pub reused: bool,
}

/// Splits a Soulseek remote path (`\`-separated) at its last `\` into
/// (directory, basename); without a `\` the directory is empty.
pub open spec fn split_remote_spec(p: Seq<char>) -> (Seq<char>, Seq<char>) {
    if p.contains('\\') {
        let i = choose|i: int| is_last_char(p, '\\', i);
        (p.subrange(0, i), p.subrange(i + 1, p.len() as int))
    } else {
        (Seq::empty(), p)
    }
}

proof fn lemma_last_char_unique(p: Seq<char>, c: char, i: int, j: int)
    requires
        is_last_char(p, c, i),
        is_last_char(p, c, j),
    ensures
        i == j,
{
}

pub fn split_remote_path(path: &str) -> (r: (&str, &str))
    ensures
        r.0@ == split_remote_spec(path@).0,
        r.1@ == split_remote_spec(path@).1,
{
    let cs = chars_of(path);
    let n = cs.len();
    match rfind_char(&cs, '\\') {
        Some(i) => {
            proof {
                let j = choose|j: int| is_last_char(path@, '\\', j);
                lemma_last_char_unique(path@, '\\', i as int, j);
                assert(path@.contains('\\')) by {
                    assert(path@[i as int] == '\\');
                }
            }
            (path.substring_char(0, i), path.substring_char(i + 1, n))
        },
        None => {
            let e = path.substring_char(0, 0);
            assert(e@ =~= Seq::<char>::empty());
            (e, path)
        },
    }
}

/// A transfer state from which slskd will not move on.
pub open spec fn is_terminal_spec(state: Seq<char>) -> bool {
    seq_starts_with(state, "Completed"@) || seq_contains(state, "Cancelled"@) || seq_contains(
        state,
        "Errored"@,
    ) || seq_contains(state, "Rejected"@)
}

pub fn is_terminal_state(state: &str) -> (r: bool)
    ensures
        r == is_terminal_spec(state@),
{
    starts_with_str(state, "Completed") || contains_str(state, "Cancelled") || contains_str(
        state,
        "Errored",
    ) || contains_str(state, "Rejected")
}

} // verus!

verus! {

/// `format!("{s:?}")` of a string: what `Debug` prints for it.
pub uninterp spec fn debug_str(s: Seq<char>) -> Seq<char>;

/// `Debug`-formats a string (quoted and escaped); the contract names the result.
#[verifier::external_body]
pub(crate) fn debug_quoted(s: &str) -> (r: String)
    ensures
        r@ == debug_str(s@),
{
    format!("{s:?}")
}

pub open spec fn file_dir(f: SlskdFile) -> Seq<char> {
    split_remote_spec(f.filename@).0
}

pub open spec fn file_base(f: SlskdFile) -> Seq<char> {
    split_remote_spec(f.filename@).1
}

/// First response from `user`, in response order.
pub open spec fn find_user(rs: Seq<SearchResponseItem>, user: Seq<char>) -> Option<SearchResponseItem>
    decreases rs.len(),
{
    if rs.len() == 0 {
        None
    } else if rs[0].username@ == user {
        Some(rs[0])
    } else {
        find_user(rs.drop_first(), user)
    }
}

/// The files of `fs` that sit directly under `dir`, in order.
pub open spec fn files_in_dir(fs: Seq<SlskdFile>, dir: Seq<char>) -> Seq<SlskdFile>
    decreases fs.len(),
{
    if fs.len() == 0 {
        Seq::empty()
    } else {
        let p = files_in_dir(fs.drop_last(), dir);
        if file_dir(fs.last()) == dir {
            p.push(fs.last())
        } else {
            p
        }
    }
}

/// `names` with repeats dropped, keeping each first occurrence in order.
pub open spec fn dedup_names(ns: Seq<Seq<char>>) -> Seq<Seq<char>>
    decreases ns.len(),
{
    if ns.len() == 0 {
        Seq::empty()
    } else {
        let p = dedup_names(ns.drop_last());
        if p.contains(ns.last()) {
            p
        } else {
            p.push(ns.last())
        }
    }
}

/// First file of `fs` whose basename is `name`.
pub open spec fn find_by_base(fs: Seq<SlskdFile>, name: Seq<char>) -> Option<SlskdFile>
    decreases fs.len(),
{
    if fs.len() == 0 {
        None
    } else if file_base(fs[0]) == name {
        Some(fs[0])
    } else {
        find_by_base(fs.drop_first(), name)
    }
}

/// For each name in order, the file it selects (names with no file skipped).
pub open spec fn selected_files(fs: Seq<SlskdFile>, ns: Seq<Seq<char>>) -> Seq<SlskdFile>
    decreases ns.len(),
{
    if ns.len() == 0 {
        Seq::empty()
    } else {
        let p = selected_files(fs, ns.drop_last());
        match find_by_base(fs, ns.last()) {
            Some(f) => p.push(f),
            None => p,
        }
    }
}

/// The names, in order, that select no file.
pub open spec fn missing_names(fs: Seq<SlskdFile>, ns: Seq<Seq<char>>) -> Seq<Seq<char>>
    decreases ns.len(),
{
    if ns.len() == 0 {
        Seq::empty()
    } else {
        let p = missing_names(fs, ns.drop_last());
        match find_by_base(fs, ns.last()) {
            Some(f) => p,
            None => p.push(ns.last()),
        }
    }
}

/// `items.join(sep)`.
pub open spec fn join_seqs(items: Seq<Seq<char>>, sep: Seq<char>) -> Seq<char>
    decreases items.len(),
{
    if items.len() == 0 {
        Seq::empty()
    } else if items.len() == 1 {
        items[0]
    } else {
        join_seqs(items.drop_last(), sep) + sep + items.last()
    }
}

/// What a `<username> <directory> [<filename>...]` selector resolves to
/// against a search's responses: the selected files, or the kind of miss
/// (`peer`, `directory`, `file`) and its message.
pub open spec fn selector_outcome(
    rs: Seq<SearchResponseItem>,
    search_id: Seq<char>,
    user: Seq<char>,
    dir: Seq<char>,
    names: Seq<Seq<char>>,
) -> Result<Seq<SlskdFile>, (Seq<char>, Seq<char>)> {
    match find_user(rs, user) {
        None => Err(("peer"@, "no response from "@ + user + " in search "@ + search_id)),
        Some(resp) => {
            let in_dir = files_in_dir(resp.files@, dir);
            if in_dir.len() == 0 {
                Err(("directory"@, user + " has no files under "@ + debug_str(dir)))
            } else if names.len() == 0 {
                Ok(in_dir)
            } else {
                let d = dedup_names(names);
                let missing = missing_names(in_dir, d);
                if missing.len() > 0 {
                    Err(
                        (
                            "file"@,
                            user + ": "@ + dir + "\\ (missing: "@ + join_seqs(missing, ", "@)
                                + ")"@,
                        ),
                    )
                } else {
                    Ok(selected_files(in_dir, d))
                }
            }
        },
    }
}

proof fn lemma_files_in_dir(fs: Seq<SlskdFile>, dir: Seq<char>)
    ensures
        forall|k: int|
            0 <= k < files_in_dir(fs, dir).len() ==> file_dir(#[trigger] files_in_dir(fs, dir)[k]) == dir
                && fs.contains(files_in_dir(fs, dir)[k]),
        forall|i: int| 0 <= i < fs.len() && file_dir(#[trigger] fs[i]) == dir ==> files_in_dir(fs, dir).contains(fs[i]),
    decreases fs.len(),
{
    if fs.len() > 0 {
        let q = fs.drop_last();
        lemma_files_in_dir(q, dir);
        let p = files_in_dir(q, dir);
        let r = files_in_dir(fs, dir);
        assert forall|k: int| 0 <= k < r.len() implies file_dir(#[trigger] r[k]) == dir && fs.contains(r[k]) by {
            if k < p.len() {
                assert(r[k] == p[k]);
                let j = choose|j: int| 0 <= j < q.len() && q[j] == p[k];
                assert(fs[j] == q[j]);
            } else {
                assert(r[k] == fs.last());
                assert(fs[fs.len() - 1] == fs.last());
            }
        }
        assert forall|i: int| 0 <= i < fs.len() && file_dir(#[trigger] fs[i]) == dir implies r.contains(fs[i]) by {
            if i < fs.len() - 1 {
                assert(q[i] == fs[i]);
                let k = choose|k: int| 0 <= k < p.len() && p[k] == q[i];
                assert(r[k] == p[k]);
            } else {
                assert(r[r.len() - 1] == fs.last());
            }
        }
    }
}

proof fn lemma_find_by_base(fs: Seq<SlskdFile>, name: Seq<char>)
    ensures
        find_by_base(fs, name) matches Some(f) ==> fs.contains(f) && file_base(f) == name,
    decreases fs.len(),
{
    if fs.len() > 0 && file_base(fs[0]) != name {
        lemma_find_by_base(fs.drop_first(), name);
        if let Some(f) = find_by_base(fs.drop_first(), name) {
            let j = choose|j: int| 0 <= j < fs.drop_first().len() && fs.drop_first()[j] == f;
            assert(fs[j + 1] == f);
        }
    } else if fs.len() > 0 {
        assert(fs[0] == fs[0]);
    }
}

proof fn lemma_selected_files(fs: Seq<SlskdFile>, ns: Seq<Seq<char>>)
    ensures
        forall|k: int|
            0 <= k < selected_files(fs, ns).len() ==> fs.contains(#[trigger] selected_files(fs, ns)[k])
                && ns.contains(file_base(selected_files(fs, ns)[k])),
    decreases ns.len(),
{
    if ns.len() > 0 {
        let q = ns.drop_last();
        lemma_selected_files(fs, q);
        lemma_find_by_base(fs, ns.last());
        let p = selected_files(fs, q);
        let r = selected_files(fs, ns);
        assert forall|k: int| 0 <= k < r.len() implies fs.contains(#[trigger] r[k]) && ns.contains(file_base(r[k])) by {
            if k < p.len() {
                assert(r[k] == p[k]);
                let j = choose|j: int| 0 <= j < q.len() && q[j] == file_base(p[k]);
                assert(ns[j] == q[j]);
            } else {
                assert(ns[ns.len() - 1] == ns.last());
            }
        }
    }
}

proof fn lemma_dedup_names(ns: Seq<Seq<char>>)
    ensures
        forall|x: Seq<char>| #[trigger] dedup_names(ns).contains(x) ==> ns.contains(x),
    decreases ns.len(),
{
    if ns.len() > 0 {
        let q = ns.drop_last();
        lemma_dedup_names(q);
        assert forall|x: Seq<char>| #[trigger] dedup_names(ns).contains(x) implies ns.contains(x) by {
            let d = dedup_names(ns);
            let p = dedup_names(q);
            let k = choose|k: int| 0 <= k < d.len() && d[k] == x;
            if k < p.len() {
                assert(p[k] == x);
                assert(p.contains(x));
                let j = choose|j: int| 0 <= j < q.len() && q[j] == x;
                assert(ns[j] == q[j]);
            } else {
                assert(ns[ns.len() - 1] == x);
            }
        }
    }
}

proof fn lemma_find_user(rs: Seq<SearchResponseItem>, user: Seq<char>)
    ensures
        find_user(rs, user) matches Some(resp) ==> rs.contains(resp) && resp.username@ == user,
    decreases rs.len(),
{
    if rs.len() > 0 && rs[0].username@ != user {
        lemma_find_user(rs.drop_first(), user);
        if let Some(f) = find_user(rs.drop_first(), user) {
            let j = choose|j: int| 0 <= j < rs.drop_first().len() && rs.drop_first()[j] == f;
            assert(rs[j + 1] == f);
        }
    } else if rs.len() > 0 {
        assert(rs[0] == rs[0]);
    }
}

/// A selector fetches only from the named peer and only files directly in
/// the named directory: every file it resolves to is one the peer's response
/// lists, whose remote directory is exactly the requested one (a sibling
/// directory that merely starts with it is not included) and, when file
/// names are given, whose basename is one of them. With no file names, every
/// file the peer lists directly in that directory is resolved.
pub proof fn law_selector_stays_in_directory(
    rs: Seq<SearchResponseItem>,
    search_id: Seq<char>,
    user: Seq<char>,
    dir: Seq<char>,
    names: Seq<Seq<char>>,
)
    requires
        selector_outcome(rs, search_id, user, dir, names) is Ok,
    ensures
        ({
            let fs = selector_outcome(rs, search_id, user, dir, names)->Ok_0;
            let resp = find_user(rs, user)->0;
            &&& find_user(rs, user) is Some
            &&& rs.contains(resp)
            &&& resp.username@ == user
            &&& forall|k: int|
                0 <= k < fs.len() ==> resp.files@.contains(#[trigger] fs[k]) && split_remote_spec(
                    fs[k].filename@,
                ).0 == dir
            &&& names.len() > 0 ==> forall|k: int|
                0 <= k < fs.len() ==> names.contains(split_remote_spec((#[trigger] fs[k]).filename@).1)
            &&& names.len() == 0 ==> forall|i: int|
                0 <= i < resp.files@.len() && split_remote_spec((#[trigger] resp.files@[i]).filename@).0 == dir
                    ==> fs.contains(resp.files@[i])
        }),
{
    lemma_find_user(rs, user);
    let resp = find_user(rs, user)->0;
    let in_dir = files_in_dir(resp.files@, dir);
    lemma_files_in_dir(resp.files@, dir);
    let fs = selector_outcome(rs, search_id, user, dir, names)->Ok_0;
    if names.len() > 0 {
        let d = dedup_names(names);
        lemma_dedup_names(names);
        lemma_selected_files(in_dir, d);
        assert(fs == selected_files(in_dir, d));
        assert forall|k: int| 0 <= k < fs.len() implies resp.files@.contains(#[trigger] fs[k]) && split_remote_spec(
            fs[k].filename@,
        ).0 == dir && names.contains(split_remote_spec(fs[k].filename@).1) by {
            let j = choose|j: int| 0 <= j < in_dir.len() && in_dir[j] == fs[k];
            assert(file_dir(in_dir[j]) == dir);
            assert(d.contains(file_base(fs[k])));
        }
    } else {
        assert(fs == in_dir);
        assert forall|k: int| 0 <= k < fs.len() implies resp.files@.contains(#[trigger] fs[k]) && split_remote_spec(
            fs[k].filename@,
        ).0 == dir by {
            assert(file_dir(in_dir[k]) == dir);
        }
    }
}

pub open spec fn deref_files(v: Seq<&SlskdFile>) -> Seq<SlskdFile> {
    v.map_values(|f: &SlskdFile| *f)
}

pub open spec fn name_views(v: Seq<String>) -> Seq<Seq<char>> {
    v.map_values(|s: String| s@)
}

fn string_vec_contains(v: &Vec<String>, s: &str) -> (r: bool)
    ensures
        r == name_views(v@).contains(s@),
{
    let mut i: usize = 0;
    while i < v.len()
        invariant
            i <= v@.len(),
            forall|k: int| 0 <= k < i ==> v@[k]@ != s@,
        decreases v@.len() - i,
    {
        if str_eq(v[i].as_str(), s) {
            assert(name_views(v@)[i as int] == s@);
            return true;
        }
        i = i + 1;
    }
    assert(!name_views(v@).contains(s@)) by {
        if name_views(v@).contains(s@) {
            let k = choose|k: int| 0 <= k < name_views(v@).len() && name_views(v@)[k] == s@;
            assert(v@[k]@ == s@);
        }
    }
    false
}

fn find_user_exec<'a>(rs: &'a Vec<SearchResponseItem>, user: &str) -> (r: Option<&'a SearchResponseItem>)
    ensures
        match r {
            Some(x) => find_user(rs@, user@) == Some(*x),
            None => find_user(rs@, user@) is None,
        },
{
    let mut i: usize = 0;
    assert(rs@.subrange(0, rs@.len() as int) =~= rs@);
    while i < rs.len()
        invariant
            i <= rs@.len(),
            find_user(rs@, user@) == find_user(rs@.subrange(i as int, rs@.len() as int), user@),
        decreases rs@.len() - i,
    {
        let ghost rest = rs@.subrange(i as int, rs@.len() as int);
        assert(rest.drop_first() =~= rs@.subrange(i + 1, rs@.len() as int));
        if str_eq(rs[i].username.as_str(), user) {
            return Some(&rs[i]);
        }
        i = i + 1;
    }
    None
}

fn files_in_dir_exec<'a>(fs: &'a Vec<SlskdFile>, dir: &str) -> (r: Vec<&'a SlskdFile>)
    ensures
        deref_files(r@) == files_in_dir(fs@, dir@),
{
    let mut out: Vec<&'a SlskdFile> = Vec::new();
    let mut i: usize = 0;
    while i < fs.len()
        invariant
            i <= fs@.len(),
            deref_files(out@) == files_in_dir(fs@.subrange(0, i as int), dir@),
        decreases fs@.len() - i,
    {
        let ghost pre = fs@.subrange(0, i + 1);
        assert(pre.drop_last() =~= fs@.subrange(0, i as int));
        let (d, _) = split_remote_path(fs[i].filename.as_str());
        if str_eq(d, dir) {
            out.push(&fs[i]);
            assert(deref_files(out@) =~= files_in_dir(fs@.subrange(0, i as int), dir@).push(fs@[i as int]));
        }
        i = i + 1;
    }
    assert(fs@.subrange(0, fs@.len() as int) =~= fs@);
    out
}

fn find_by_base_exec<'a>(fs: &Vec<&'a SlskdFile>, name: &str) -> (r: Option<&'a SlskdFile>)
    ensures
        match r {
            Some(x) => find_by_base(deref_files(fs@), name@) == Some(*x),
            None => find_by_base(deref_files(fs@), name@) is None,
        },
{
    let ghost all = deref_files(fs@);
    let mut i: usize = 0;
    assert(all.subrange(0, all.len() as int) =~= all);
    while i < fs.len()
        invariant
            i <= fs@.len(),
            all == deref_files(fs@),
            find_by_base(all, name@) == find_by_base(all.subrange(i as int, all.len() as int), name@),
        decreases fs@.len() - i,
    {
        let ghost rest = all.subrange(i as int, all.len() as int);
        assert(rest.drop_first() =~= all.subrange(i + 1, all.len() as int));
        let (_, b) = split_remote_path(fs[i].filename.as_str());
        if str_eq(b, name) {
            return Some(fs[i]);
        }
        i = i + 1;
    }
    None
}

/// Resolves a `<username> <directory> [<filename>...]` selector against an
/// already-fetched search. `directory` must match exactly as it appears in
/// the result paths; no filenames selects every file in the directory.
pub fn resolve_selector<'a>(
    search: &'a Search,
    username: &str,
    directory: &str,
    filenames: &[String],
) -> (r: Result<Vec<&'a SlskdFile>, Error>)
    ensures
        match r {
            Ok(v) => selector_outcome(
                search.responses@,
                search.id@,
                username@,
                directory@,
                name_views(filenames@),
            ) == Ok::<Seq<SlskdFile>, (Seq<char>, Seq<char>)>(deref_files(v@)),
            Err(Error::SlskdSelectorNotFound { what, detail }) => selector_outcome(
                search.responses@,
                search.id@,
                username@,
                directory@,
                name_views(filenames@),
            ) == Err::<Seq<SlskdFile>, (Seq<char>, Seq<char>)>((what@, detail@)),
            Err(_) => false,
        },
{
    let response = match find_user_exec(&search.responses, username) {
        Some(resp) => resp,
        None => {
            let mut detail = String::new();
            detail.append("no response from ");
            detail.append(username);
            detail.append(" in search ");
            detail.append(search.id.as_str());
            assert(detail@ =~= "no response from "@ + username@ + " in search "@ + search.id@);
            return Err(Error::SlskdSelectorNotFound { what: "peer".to_string(), detail });
        },
    };
    let in_dir = files_in_dir_exec(&response.files, directory);
    if in_dir.len() == 0 {
        let q = debug_quoted(directory);
        let mut detail = String::new();
        detail.append(username);
        detail.append(" has no files under ");
        detail.append(q.as_str());
        assert(detail@ =~= username@ + " has no files under "@ + debug_str(directory@));
        return Err(Error::SlskdSelectorNotFound { what: "directory".to_string(), detail });
    }
    if filenames.len() == 0 {
        return Ok(in_dir);
    }
    let ghost files = deref_files(in_dir@);
    let mut matched: Vec<&'a SlskdFile> = Vec::new();
    let mut seen: Vec<String> = Vec::new();
    let mut missing: Vec<String> = Vec::new();
    let mut i: usize = 0;
    while i < filenames.len()
        invariant
            i <= filenames@.len(),
            files == deref_files(in_dir@),
            name_views(seen@) == dedup_names(name_views(filenames@).subrange(0, i as int)),
            deref_files(matched@) == selected_files(files, name_views(seen@)),
            name_views(missing@) == missing_names(files, name_views(seen@)),
        decreases filenames@.len() - i,
    {
        let name = filenames[i].as_str();
        let ghost pre = name_views(filenames@).subrange(0, i + 1);
        assert(pre.drop_last() =~= name_views(filenames@).subrange(0, i as int));
        assert(pre.last() == filenames@[i as int]@);
        if !string_vec_contains(&seen, name) {
            let ghost old_seen = name_views(seen@);
            seen.push(name.to_string());
            assert(name_views(seen@) =~= old_seen.push(name@));
            assert(name_views(seen@).drop_last() =~= old_seen);
            match find_by_base_exec(&in_dir, name) {
                Some(f) => {
                    matched.push(f);
                    assert(deref_files(matched@) =~= selected_files(files, old_seen).push(*f));
                },
                None => {
                    let ghost old_missing = name_views(missing@);
                    missing.push(name.to_string());
                    assert(name_views(missing@) =~= old_missing.push(name@));
                },
            }
        }
        i = i + 1;
    }
    assert(name_views(filenames@).subrange(0, filenames@.len() as int) =~= name_views(filenames@));
    if missing.len() > 0 {
        let mut joined = String::new();
        let mut k: usize = 0;
        while k < missing.len()
            invariant
                0 < missing@.len(),
                k <= missing@.len(),
                k > 0 ==> joined@ == join_seqs(name_views(missing@).subrange(0, k as int), ", "@),
                k == 0 ==> joined@ == Seq::<char>::empty(),
            decreases missing@.len() - k,
        {
            let ghost pre = name_views(missing@).subrange(0, k + 1);
            assert(pre.drop_last() =~= name_views(missing@).subrange(0, k as int));
            if k > 0 {
                joined.append(", ");
            }
            joined.append(missing[k].as_str());
            assert(k == 0 ==> joined@ =~= join_seqs(pre, ", "@));
            k = k + 1;
        }
        assert(name_views(missing@).subrange(0, missing@.len() as int) =~= name_views(missing@));
        let mut detail = String::new();
        detail.append(username);
        detail.append(": ");
        detail.append(directory);
        detail.append("\\ (missing: ");
        detail.append(joined.as_str());
        detail.append(")");
        assert(detail@ =~= username@ + ": "@ + directory@ + "\\ (missing: "@ + join_seqs(name_views(missing@), ", "@) + ")"@);
        return Err(Error::SlskdSelectorNotFound { what: "file".to_string(), detail });
    }
    Ok(matched)
}

} // verus!

verus! {

// ---------------------------------------------------------------------------
// Reusing an earlier search
// ---------------------------------------------------------------------------

/// When a search finished, else when it started, else empty.
pub open spec fn search_time(s: Search) -> Seq<char> {
    match s.ended_at {
        Some(e) => e@,
        None => match s.started_at {
            Some(t) => t@,
            None => Seq::empty(),
        },
    }
}

/// A completed search with this query text that found files.
pub open spec fn is_reusable(s: Search, query: Seq<char>) -> bool {
    s.search_text@ == query && s.is_complete && s.file_count > 0
}

/// Search `a` sorts before `b`: earlier time, then smaller id.
pub open spec fn search_before(a: Search, b: Search) -> bool {
    crate::text::seq_lt(search_time(a), search_time(b)) || (search_time(a) == search_time(b)
        && crate::text::seq_lt(a.id@, b.id@))
}

fn search_time_exec(s: &Search) -> (r: String)
    ensures
        r@ == search_time(*s),
{
    match &s.ended_at {
        Some(e) => e.clone(),
        None => match &s.started_at {
            Some(t) => t.clone(),
            None => String::new(),
        },
    }
}

/// The id of the search to reuse for `query`: among the completed searches
/// with that text that found files, the latest (by end or start time, then
/// id; the last of equals); `None` when there is none.
pub fn reusable_search_id(searches: &[Search], query: &str) -> (r: Option<String>)
    ensures
        match r {
            None => forall|i: int| 0 <= i < searches@.len() ==> !is_reusable(#[trigger] searches@[i], query@),
            Some(id) => exists|i: int|
                0 <= i < searches@.len() && is_reusable(searches@[i], query@) && id@ == searches@[i].id@
                    && (forall|k: int|
                    0 <= k < searches@.len() && is_reusable(#[trigger] searches@[k], query@) ==> !search_before(
                        searches@[i],
                        searches@[k],
                    )),
        },
{
    let mut best: Option<usize> = None;
    let mut i: usize = 0;
    while i < searches.len()
        invariant
            i <= searches@.len(),
            match best {
                None => forall|k: int| 0 <= k < i ==> !is_reusable(#[trigger] searches@[k], query@),
                Some(b) => b < i && is_reusable(searches@[b as int], query@) && forall|k: int|
                    0 <= k < i && is_reusable(#[trigger] searches@[k], query@) ==> !search_before(
                        searches@[b as int],
                        searches@[k],
                    ),
            },
        decreases searches@.len() - i,
    {
        let s = &searches[i];
        if str_eq(s.search_text.as_str(), query) && s.is_complete && s.file_count > 0 {
            match best {
                None => {
                    proof {
                        crate::text::lemma_seq_lt_irreflexive(search_time(*s));
                        crate::text::lemma_seq_lt_irreflexive(s.id@);
                    }
                    best = Some(i);
                },
                Some(b) => {
                    let tb = search_time_exec(&searches[b]);
                    let ts = search_time_exec(s);
                    let s_before_b = crate::text::str_lt(ts.as_str(), tb.as_str()) || (str_eq(
                        ts.as_str(),
                        tb.as_str(),
                    ) && crate::text::str_lt(s.id.as_str(), searches[b].id.as_str()));
                    if !s_before_b {
                        proof {
                            let sb = searches@[b as int];
                            let sv = *s;
                            crate::text::lemma_seq_lt_irreflexive(search_time(sv));
                            crate::text::lemma_seq_lt_irreflexive(sv.id@);
                            crate::text::lemma_seq_lt_total(search_time(sb), search_time(sv));
                            crate::text::lemma_seq_lt_total(sb.id@, sv.id@);
                            assert forall|k: int| 0 <= k < i + 1 && is_reusable(#[trigger] searches@[k], query@)
                                implies !search_before(sv, searches@[k]) by {
                                let sk = searches@[k];
                                if k < i {
                                    assert(!search_before(sb, sk));
                                    if search_before(sv, sk) {
                                        crate::text::lemma_seq_lt_total(search_time(sk), search_time(sb));
                                        crate::text::lemma_seq_lt_total(sk.id@, sb.id@);
                                        if crate::text::seq_lt(search_time(sv), search_time(sk)) {
                                            if crate::text::seq_lt(search_time(sb), search_time(sv)) {
                                                crate::text::lemma_seq_lt_transitive(search_time(sb), search_time(sv), search_time(sk));
                                            }
                                            if crate::text::seq_lt(search_time(sk), search_time(sb)) {
                                                crate::text::lemma_seq_lt_transitive(search_time(sv), search_time(sk), search_time(sb));
                                                crate::text::lemma_seq_lt_asym(search_time(sv), search_time(sb));
                                            }
                                        } else {
                                            if crate::text::seq_lt(search_time(sb), search_time(sv)) {
                                            }
                                            if sb.id@ != sv.id@ && search_time(sb) == search_time(sv) && crate::text::seq_lt(sb.id@, sv.id@) {
                                                crate::text::lemma_seq_lt_transitive(sb.id@, sv.id@, sk.id@);
                                            }
                                            if search_time(sb) == search_time(sv) && crate::text::seq_lt(sk.id@, sb.id@) {
                                                crate::text::lemma_seq_lt_transitive(sv.id@, sk.id@, sb.id@);
                                                crate::text::lemma_seq_lt_asym(sv.id@, sb.id@);
                                            }
                                        }
                                    }
                                }
                            }
                        }
                        best = Some(i);
                    } else {
                        proof {
                            let sb = searches@[b as int];
                            let sv = *s;
                            assert(search_before(sv, sb));
                            assert(!search_before(sb, sv)) by {
                                if crate::text::seq_lt(search_time(sv), search_time(sb)) {
                                    crate::text::lemma_seq_lt_asym(search_time(sv), search_time(sb));
                                    crate::text::lemma_seq_lt_irreflexive(search_time(sv));
                                } else {
                                    crate::text::lemma_seq_lt_asym(sv.id@, sb.id@);
                                    crate::text::lemma_seq_lt_irreflexive(search_time(sv));
                                }
                            }
                        }
                    }
                },
            }
        }
        i = i + 1;
    }
    match best {
        None => None,
        Some(b) => Some(searches[b].id.clone()),
    }
}

// ---------------------------------------------------------------------------
// Request paths
// ---------------------------------------------------------------------------

/// `/api/v0/searches/<id>?includeResponses=true`.
pub fn search_status_path(id: &str) -> (p: String)
    ensures
        p@ == "/api/v0/searches/"@ + crate::mb::urlencode_spec(id.spec_bytes()) + "?includeResponses=true"@,
{
    let mut p = String::from_str("/api/v0/searches/");
    let e = crate::mb::urlencode(id);
    p.append(e.as_str());
    p.append("?includeResponses=true");
    p
}

/// `/api/v0/searches/<id>`.
pub fn search_path(id: &str) -> (p: String)
    ensures
        p@ == "/api/v0/searches/"@ + crate::mb::urlencode_spec(id.spec_bytes()),
{
    let mut p = String::from_str("/api/v0/searches/");
    let e = crate::mb::urlencode(id);
    p.append(e.as_str());
    p
}

/// `/api/v0/transfers/downloads/<username>`.
pub fn downloads_path(username: &str) -> (p: String)
    ensures
        p@ == "/api/v0/transfers/downloads/"@ + crate::mb::urlencode_spec(username.spec_bytes()),
{
    let mut p = String::from_str("/api/v0/transfers/downloads/");
    let e = crate::mb::urlencode(username);
    p.append(e.as_str());
    p
}

/// `/api/v0/transfers/downloads/<username>/<id>`, with `?remove=<bool>`
/// when `remove` is given.
pub fn transfer_path(username: &str, id: &str, remove: Option<bool>) -> (p: String)
    ensures
        p@ == "/api/v0/transfers/downloads/"@ + crate::mb::urlencode_spec(username.spec_bytes()) + "/"@
            + crate::mb::urlencode_spec(id.spec_bytes()) + match remove {
            None => Seq::empty(),
            Some(true) => "?remove=true"@,
            Some(false) => "?remove=false"@,
        },
{
    let mut p = downloads_path(username);
    p.append("/");
    let e = crate::mb::urlencode(id);
    p.append(e.as_str());
    match remove {
        None => {},
        Some(true) => p.append("?remove=true"),
        Some(false) => p.append("?remove=false"),
    }
    p
}

/// `/api/v0/users/<username>/directory`.
pub fn browse_path(username: &str) -> (p: String)
    ensures
        p@ == "/api/v0/users/"@ + crate::mb::urlencode_spec(username.spec_bytes()) + "/directory"@,
{
    let mut p = String::from_str("/api/v0/users/");
    let e = crate::mb::urlencode(username);
    p.append(e.as_str());
    p.append("/directory");
    p
}

// ---------------------------------------------------------------------------
// Responses
// ---------------------------------------------------------------------------

/// What an authenticated call does with a response status.
#[derive(PartialEq, Eq, Structural)]
pub enum CallVerdict {
    /// 2xx: read the body.
    Success,
    /// 401 on the first try: log in again and retry once.
    Relogin,
    /// Anything else: fail (see `call_error`).
    Fail,
}

pub fn call_verdict(status: u16, retried_login: bool) -> (r: CallVerdict)
    ensures
        r == if 200 <= status <= 299 {
            CallVerdict::Success
        } else if status == 401 && !retried_login {
            CallVerdict::Relogin
        } else {
            CallVerdict::Fail
        },
{
    if 200 <= status && status <= 299 {
        CallVerdict::Success
    } else if status == 401 && !retried_login {
        CallVerdict::Relogin
    } else {
        CallVerdict::Fail
    }
}

/// Removing or cancelling a transfer that slskd no longer knows (its call
/// answered 404) has nothing left to do: the removal counts as done. Any
/// other failure stands.
pub fn removal_outcome(r: Result<(), Error>) -> (o: Result<(), Error>)
    ensures
        match r {
            Ok(()) => o is Ok,
            Err(Error::SlskdNotFound { .. }) => o is Ok,
            Err(e) => o == Err::<(), Error>(e),
        },
{
    match r {
        Ok(()) => Ok(()),
        Err(Error::SlskdNotFound { .. }) => Ok(()),
        Err(e) => Err(e),
    }
}

/// The error a failed call ends with: a 404 names the missing resource's
/// path (the peer is likely offline), anything else carries status and body.
pub fn call_error(path: &str, status: u16, body: String) -> (e: Error)
    ensures
        status == 404 ==> (e matches Error::SlskdNotFound { what } && what@ == path@),
        status != 404 ==> (e matches Error::Slskd { what, status: st, body: b } && what@ == "request"@
            && st == status && b@ == body@),
{
    if status == 404 {
        Error::SlskdNotFound { what: path.to_string() }
    } else {
        Error::Slskd { what: String::from_str("request"), status, body }
    }
}

/// A transfer as a download listing shows it.
pub struct ListedTransfer {
    pub id: String,
}

pub struct ListedDirectory {
    pub files: Vec<ListedTransfer>,
}

/// One user's entry of the downloads listing.
pub struct UserDownloads {
    pub username: String,
    pub directories: Vec<ListedDirectory>,
}

pub open spec fn listed(ds: Seq<UserDownloads>, username: Seq<char>, ids: Seq<String>) -> bool {
    exists|u: int, d: int, f: int, k: int|
        0 <= u < ds.len() && ds[u].username@ == username && 0 <= d < ds[u].directories@.len() && 0 <= f
            < ds[u].directories@[d].files@.len() && 0 <= k < ids.len() && #[trigger] ids[k]@
            == #[trigger] ds[u].directories@[d].files@[f].id@
}

/// The listing still shows one of `ids` under `username`.
pub fn still_listed(downloads: &[UserDownloads], username: &str, ids: &[String]) -> (r: bool)
    ensures
        r == listed(downloads@, username@, ids@),
{
    let mut u: usize = 0;
    while u < downloads.len()
        invariant
            u <= downloads@.len(),
            forall|uu: int, d: int, f: int, k: int|
                0 <= uu < u && downloads@[uu].username@ == username@ && 0 <= d
                    < downloads@[uu].directories@.len() && 0 <= f
                    < downloads@[uu].directories@[d].files@.len() && 0 <= k < ids@.len() ==> #[trigger] ids@[k]@
                    != #[trigger] downloads@[uu].directories@[d].files@[f].id@,
        decreases downloads@.len() - u,
    {
        let du = &downloads[u];
        if str_eq(du.username.as_str(), username) {
            let mut d: usize = 0;
            while d < du.directories.len()
                invariant
                    u < downloads@.len(),
                    *du == downloads@[u as int],
                    du.username@ == username@,
                    d <= du.directories@.len(),
                    forall|uu: int, dd: int, f: int, k: int|
                        0 <= uu < u && downloads@[uu].username@ == username@ && 0 <= dd
                            < downloads@[uu].directories@.len() && 0 <= f
                            < downloads@[uu].directories@[dd].files@.len() && 0 <= k < ids@.len() ==> #[trigger] ids@[k]@
                            != #[trigger] downloads@[uu].directories@[dd].files@[f].id@,
                    forall|dd: int, f: int, k: int|
                        0 <= dd < d && 0 <= f < du.directories@[dd].files@.len() && 0 <= k < ids@.len() ==> #[trigger] ids@[k]@
                            != #[trigger] du.directories@[dd].files@[f].id@,
                decreases du.directories@.len() - d,
            {
                let dir = &du.directories[d];
                let mut f: usize = 0;
                while f < dir.files.len()
                    invariant
                        u < downloads@.len(),
                        *du == downloads@[u as int],
                        du.username@ == username@,
                        d < du.directories@.len(),
                        *dir == du.directories@[d as int],
                        f <= dir.files@.len(),
                        forall|ff: int, k: int|
                            0 <= ff < f && 0 <= k < ids@.len() ==> #[trigger] ids@[k]@ != #[trigger] dir.files@[ff].id@,
                    decreases dir.files@.len() - f,
                {
                    let mut k: usize = 0;
                    while k < ids.len()
                        invariant
                            u < downloads@.len(),
                            *du == downloads@[u as int],
                            du.username@ == username@,
                            d < du.directories@.len(),
                            *dir == du.directories@[d as int],
                            f < dir.files@.len(),
                            k <= ids@.len(),
                            forall|kk: int| 0 <= kk < k ==> (#[trigger] ids@[kk])@ != dir.files@[f as int].id@,
                        decreases ids@.len() - k,
                    {
                        if str_eq(ids[k].as_str(), dir.files[f].id.as_str()) {
                            proof {
                                assert(ids@[k as int]@ == downloads@[u as int].directories@[d as int].files@[f as int].id@);
                                assert(listed(downloads@, username@, ids@));
                            }
                            return true;
                        }
                        k = k + 1;
                    }
                    f = f + 1;
                }
                d = d + 1;
            }
        }
        u = u + 1;
    }
    false
}

} // verus!

verus! {

// ---------------------------------------------------------------------------
// Waiting for a batch of transfers
// ---------------------------------------------------------------------------

/// A polled transfer, by the fields the wait reads.
pub struct TransferSnapshot {
    pub id: String,
    pub state: String,
    pub bytes_transferred: i64,
    pub place_in_queue: Option<i32>,
}

/// A transfer still being waited for: its id, its last seen state, bytes
/// and queue place (any change of which counts as progress), and the time
/// (ms) after which it is given up on.
pub struct PendingFetch {
    pub id: String,
    pub state: String,
    pub bytes: i64,
    pub queue: Option<i32>,
    pub deadline: u64,
}

/// Why the batch failed, first failure first.
pub enum WaitFailure {
    /// A transfer saw no progress for a whole window.
    Timeout { id: String, last_state: String },
    /// A status poll failed after the transfer's deadline (the caller holds
    /// that error).
    PollError,
}

/// The wait over a batch: pending transfers, the one to poll next, and the
/// first failure seen.
pub struct TransferWait {
    pub window_ms: u64,
    pub pending: Vec<PendingFetch>,
    pub cursor: usize,
    pub failure: Option<WaitFailure>,
}

/// What the caller does next.
pub enum WaitAction {
    /// Poll this transfer's status and report it with `on_poll`.
    Poll(String),
    /// Sleep one poll interval, then ask again.
    Sleep,
    /// Stop: every transfer is done or given up on.
    Finish,
}

/// What became of the transfer just polled.
#[derive(PartialEq, Eq, Structural)]
pub enum PollVerdict {
    /// It reached a terminal state: it is a result.
    Collect,
    /// Still pending.
    Keep,
    /// Given up on; `first` when its poll error is the batch's failure.
    Dropped { first: bool },
}

/// Milliseconds between status polls.
pub const POLL_INTERVAL_MS: u64 = 1500;

pub open spec fn deadline_after(now: u64, window: u64) -> u64 {
    if now + window > u64::MAX {
        u64::MAX
    } else {
        (now + window) as u64
    }
}

fn deadline_after_exec(now: u64, window: u64) -> (r: u64)
    ensures
        r == deadline_after(now, window),
{
    if now > u64::MAX - window {
        u64::MAX
    } else {
        now + window
    }
}

/// How many transfers from `c` on have passed their deadline at `now`, in a
/// row.
pub open spec fn expired_run(p: Seq<PendingFetch>, c: int, now: u64) -> nat
    decreases p.len() - c,
{
    if 0 <= c < p.len() && now >= p[c].deadline {
        1 + expired_run(p, c + 1, now)
    } else {
        0
    }
}

proof fn lemma_expired_run_bound(p: Seq<PendingFetch>, c: int, now: u64)
    requires
        0 <= c <= p.len(),
    ensures
        c + expired_run(p, c, now) <= p.len(),
        forall|k: int| c <= k < c + expired_run(p, c, now) ==> now >= (#[trigger] p[k]).deadline,
        c + expired_run(p, c, now) < p.len() ==> now < p[c + expired_run(p, c, now)].deadline,
    decreases p.len() - c,
{
    if c < p.len() && now >= p[c].deadline {
        lemma_expired_run_bound(p, c + 1, now);
    }
}

pub open spec fn same_snapshot(a: PendingFetch, b: PendingFetch) -> bool {
    a.id@ == b.id@ && a.state@ == b.state@ && a.bytes == b.bytes && a.queue == b.queue && a.deadline
        == b.deadline
}

pub open spec fn wait_inv(w: TransferWait) -> bool {
    w.cursor <= w.pending@.len()
}

/// One `next_action` step at `now`, from `w0` to `w1`, answering `a`.
pub open spec fn next_action_step(w0: TransferWait, w1: TransferWait, now: u64, a: WaitAction) -> bool {
    &&& wait_inv(w1)
    &&& w1.window_ms == w0.window_ms
    &&& {
        let p = w0.pending@;
        let c = w0.cursor as int;
        let k = expired_run(p, c, now);
        let q = w1.pending@;
        &&& q.len() == p.len() - k
        &&& forall|i: int| 0 <= i < c ==> same_snapshot(#[trigger] q[i], p[i])
        &&& forall|i: int| c <= i < q.len() ==> same_snapshot(#[trigger] q[i], p[i + k])
        &&& (if w0.failure is None && k > 0 {
            w1.failure matches Some(WaitFailure::Timeout { id, last_state }) && id@
                == p[c].id@ && last_state@ == p[c].state@
        } else {
            w1.failure == w0.failure
        })
        &&& if c < q.len() {
            a matches WaitAction::Poll(id) && id@ == q[c].id@ && w1.cursor == c
        } else if q.len() == 0 {
            a is Finish
        } else {
            a is Sleep && w1.cursor == 0
        }
    }
}

/// One `on_poll` step at `now` with the poll's outcome `polled`, from `w0`
/// to `w1`, answering `v`.
pub open spec fn on_poll_step(
    w0: TransferWait,
    w1: TransferWait,
    now: u64,
    polled: Option<TransferSnapshot>,
    v: PollVerdict,
) -> bool {
    &&& wait_inv(w1)
    &&& w1.window_ms == w0.window_ms
    &&& {
        let p = w0.pending@;
        let c = w0.cursor as int;
        let q = w1.pending@;
        let cur = p[c];
        match polled {
            Some(t) => if is_terminal_spec(t.state@) {
                &&& v == PollVerdict::Collect
                &&& q == p.remove(c)
                &&& w1.cursor == c
                &&& w1.failure == w0.failure
            } else {
                let moved = t.state@ != cur.state@ || t.bytes_transferred != cur.bytes || t.place_in_queue
                    != cur.queue;
                &&& v == PollVerdict::Keep
                &&& q.len() == p.len()
                &&& forall|i: int| 0 <= i < p.len() && i != c ==> #[trigger] q[i] == p[i]
                &&& q[c].id@ == cur.id@ && q[c].state@ == t.state@ && q[c].bytes == t.bytes_transferred
                    && q[c].queue == t.place_in_queue
                &&& q[c].deadline == if moved {
                    deadline_after(now, w0.window_ms)
                } else {
                    cur.deadline
                }
                &&& w1.cursor == c + 1
                &&& w1.failure == w0.failure
            },
            None => if now >= cur.deadline {
                &&& v == PollVerdict::Dropped { first: w0.failure is None }
                &&& q == p.remove(c)
                &&& w1.cursor == c
                &&& (if w0.failure is None {
                    w1.failure matches Some(WaitFailure::PollError)
                } else {
                    w1.failure == w0.failure
                })
            } else {
                &&& v == PollVerdict::Keep
                &&& q == p
                &&& w1.cursor == c + 1
                &&& w1.failure == w0.failure
            },
        }
    }
}

/// One step of a batch wait as the caller took it: a `next_action` at `now`
/// answering `action`, or an `on_poll` at `now` reporting `polled` and
/// answered `verdict`.
pub enum WaitEvent {
    Next { now: u64, action: WaitAction },
    Poll { now: u64, polled: Option<TransferSnapshot>, verdict: PollVerdict },
}

/// `ws` is the succession of wait states a run of `es` goes through.
pub open spec fn wait_run(ws: Seq<TransferWait>, es: Seq<WaitEvent>) -> bool {
    &&& ws.len() == es.len() + 1
    &&& forall|i: int|
        0 <= i < es.len() ==> match #[trigger] es[i] {
            WaitEvent::Next { now, action } => wait_inv(ws[i]) && next_action_step(ws[i], ws[i + 1], now, action),
            WaitEvent::Poll { now, polled, verdict } => ws[i].cursor < ws[i].pending@.len() && on_poll_step(
                ws[i],
                ws[i + 1],
                now,
                polled,
                verdict,
            ),
        }
}

/// The step gives a transfer up: a deadline passed before it was polled, or
/// its poll failed past the deadline.
pub open spec fn gives_up(e: WaitEvent, w: TransferWait) -> bool {
    match e {
        WaitEvent::Next { now, .. } => expired_run(w.pending@, w.cursor as int, now) > 0,
        WaitEvent::Poll { verdict, .. } => verdict is Dropped,
    }
}

/// The failure a giving-up step `e` taken from `w` records: a timeout of the
/// transfer at the cursor (with its last state), or a poll error.
pub open spec fn failure_from(f: Option<WaitFailure>, e: WaitEvent, w: TransferWait) -> bool {
    match e {
        WaitEvent::Next { .. } => f matches Some(WaitFailure::Timeout { id, last_state }) && id@
            == w.pending@[w.cursor as int].id@ && last_state@ == w.pending@[w.cursor as int].state@,
        WaitEvent::Poll { .. } => f matches Some(WaitFailure::PollError),
    }
}

proof fn lemma_wait_run_prefix(ws: Seq<TransferWait>, es: Seq<WaitEvent>, n: int)
    requires
        wait_run(ws, es),
        ws[0].failure is None,
        0 <= n <= es.len(),
    ensures
        (forall|j: int| 0 <= j < n ==> !gives_up(#[trigger] es[j], ws[j])) ==> ws[n].failure is None,
        forall|i: int|
            0 <= i < n && gives_up(#[trigger] es[i], ws[i]) && (forall|j: int|
                0 <= j < i ==> !gives_up(#[trigger] es[j], ws[j])) ==> failure_from(ws[n].failure, es[i], ws[i]),
    decreases n,
{
    if n > 0 {
        let m = n - 1;
        lemma_wait_run_prefix(ws, es, m);
        let e = es[m];
        assert(match e {
            WaitEvent::Next { now, action } => wait_inv(ws[m]) && next_action_step(ws[m], ws[m + 1], now, action),
            WaitEvent::Poll { now, polled, verdict } => ws[m].cursor < ws[m].pending@.len() && on_poll_step(
                ws[m],
                ws[m + 1],
                now,
                polled,
                verdict,
            ),
        });
        if forall|j: int| 0 <= j < n ==> !gives_up(#[trigger] es[j], ws[j]) {
            assert(!gives_up(es[m], ws[m]));
            assert(ws[m].failure is None);
        }
        assert forall|i: int|
            0 <= i < n && gives_up(#[trigger] es[i], ws[i]) && (forall|j: int|
                0 <= j < i ==> !gives_up(#[trigger] es[j], ws[j])) implies failure_from(ws[n].failure, es[i], ws[i]) by {
            if i == m {
                assert(ws[m].failure is None);
            } else {
                assert(failure_from(ws[m].failure, es[i], ws[i]));
                assert(ws[m].failure is Some);
                assert(ws[n].failure == ws[m].failure);
            }
        }
    }
}

/// The batch wait's result: over any run of steps from a wait with no
/// failure, the wait ends with no failure exactly when no step gave a
/// transfer up, and otherwise with the failure of the first step that did (a
/// timeout of the transfer whose deadline passed, or the poll error of the
/// first dropped poll); later failures never replace it. With
/// `timeout_error`, the batch then fails with that timeout, or with the poll
/// error its caller kept at the `Dropped { first: true }` verdict, or
/// succeeds.
pub proof fn law_batch_failure_is_first(ws: Seq<TransferWait>, es: Seq<WaitEvent>)
    requires
        wait_run(ws, es),
        ws[0].failure is None,
    ensures
        ws.last().failure is None <==> forall|j: int| 0 <= j < es.len() ==> !gives_up(#[trigger] es[j], ws[j]),
        forall|i: int|
            0 <= i < es.len() && gives_up(#[trigger] es[i], ws[i]) && (forall|j: int|
                0 <= j < i ==> !gives_up(#[trigger] es[j], ws[j])) ==> failure_from(ws.last().failure, es[i], ws[i]),
        forall|i: int|
            0 <= i < es.len() && dropped_first(#[trigger] es[i]) is Some ==> (dropped_first(es[i]) == Some(true)
                <==> forall|j: int| 0 <= j < i ==> !gives_up(#[trigger] es[j], ws[j])),
{
    let n = es.len() as int;
    lemma_wait_run_prefix(ws, es, n);
    assert(ws.last() == ws[n]);
    if !(forall|j: int| 0 <= j < n ==> !gives_up(#[trigger] es[j], ws[j])) {
        assert(ws[n].failure is Some) by {
            lemma_first_give_up(ws, es, n);
        }
    }
    assert forall|i: int|
        0 <= i < es.len() && dropped_first(#[trigger] es[i]) is Some implies (dropped_first(es[i]) == Some(true)
            <==> forall|j: int| 0 <= j < i ==> !gives_up(#[trigger] es[j], ws[j])) by {
        assert(match es[i] {
            WaitEvent::Next { now, action } => wait_inv(ws[i]) && next_action_step(ws[i], ws[i + 1], now, action),
            WaitEvent::Poll { now, polled, verdict } => ws[i].cursor < ws[i].pending@.len() && on_poll_step(
                ws[i],
                ws[i + 1],
                now,
                polled,
                verdict,
            ),
        });
        lemma_wait_run_prefix(ws, es, i);
        if !(forall|j: int| 0 <= j < i ==> !gives_up(#[trigger] es[j], ws[j])) {
            lemma_first_give_up(ws, es, i);
        }
    }
}

/// Whether a dropped poll was the batch's first failure; `None` for any
/// other step.
pub open spec fn dropped_first(e: WaitEvent) -> Option<bool> {
    match e {
        WaitEvent::Poll { verdict: PollVerdict::Dropped { first }, .. } => Some(first),
        _ => None,
    }
}

/// When some step before `n` gave a transfer up, the state after `n` steps
/// holds a failure.
proof fn lemma_first_give_up(ws: Seq<TransferWait>, es: Seq<WaitEvent>, n: int)
    requires
        wait_run(ws, es),
        ws[0].failure is None,
        0 <= n <= es.len(),
        exists|j: int| 0 <= j < n && gives_up(#[trigger] es[j], ws[j]),
    ensures
        ws[n].failure is Some,
    decreases n,
{
    let m = n - 1;
    let e = es[m];
    assert(match e {
        WaitEvent::Next { now, action } => wait_inv(ws[m]) && next_action_step(ws[m], ws[m + 1], now, action),
        WaitEvent::Poll { now, polled, verdict } => ws[m].cursor < ws[m].pending@.len() && on_poll_step(
            ws[m],
            ws[m + 1],
            now,
            polled,
            verdict,
        ),
    });
    if exists|j: int| 0 <= j < m && gives_up(#[trigger] es[j], ws[j]) {
        lemma_first_give_up(ws, es, m);
    } else {
        assert(gives_up(es[m], ws[m]));
        lemma_wait_run_prefix(ws, es, m);
    }
}

impl TransferWait {
    /// Starts waiting for `transfers`, each given `window_ms` from `now`.
    pub fn new(transfers: Vec<TransferSnapshot>, window_ms: u64, now: u64) -> (w: TransferWait)
        ensures
            wait_inv(w),
            w.window_ms == window_ms,
            w.cursor == 0,
            w.failure is None,
            w.pending@.len() == transfers@.len(),
            forall|i: int|
                0 <= i < transfers@.len() ==> (#[trigger] w.pending@[i]).id@ == transfers@[i].id@
                    && w.pending@[i].state@ == transfers@[i].state@ && w.pending@[i].bytes
                    == transfers@[i].bytes_transferred && w.pending@[i].queue
                    == transfers@[i].place_in_queue && w.pending@[i].deadline == deadline_after(
                    now,
                    window_ms,
                ),
    {
        let mut pending: Vec<PendingFetch> = Vec::new();
        let d = deadline_after_exec(now, window_ms);
        let mut i: usize = 0;
        while i < transfers.len()
            invariant
                i <= transfers@.len(),
                d == deadline_after(now, window_ms),
                pending@.len() == i,
                forall|k: int|
                    0 <= k < i ==> (#[trigger] pending@[k]).id@ == transfers@[k].id@
                        && pending@[k].state@ == transfers@[k].state@ && pending@[k].bytes
                        == transfers@[k].bytes_transferred && pending@[k].queue
                        == transfers@[k].place_in_queue && pending@[k].deadline == d,
            decreases transfers@.len() - i,
        {
            let t = &transfers[i];
            pending.push(
                PendingFetch {
                    id: t.id.clone(),
                    state: t.state.clone(),
                    bytes: t.bytes_transferred,
                    queue: t.place_in_queue,
                    deadline: d,
                },
            );
            i = i + 1;
        }
        TransferWait { window_ms, pending, cursor: 0, failure: None }
    }

    /// The next step at time `now`: transfers from the cursor on that are
    /// past their deadline are given up on (the first of them is the batch's
    /// failure if there was none yet); then the transfer at the cursor is
    /// polled, or, at the end of a round, the caller sleeps and a new round
    /// starts, or, when nothing is pending, the wait finishes.
    pub fn next_action(&mut self, now: u64) -> (a: WaitAction)
        requires
            wait_inv(*old(self)),
        ensures
            next_action_step(*old(self), *final(self), now, a),
    {
        let ghost p = self.pending@;
        let ghost c = self.cursor as int;
        let ghost f0 = self.failure;
        proof {
            lemma_expired_run_bound(p, c, now);
        }
        let mut removed: usize = 0;
        let n0 = self.pending.len();
        while self.cursor < self.pending.len() && now >= self.pending[self.cursor].deadline
            invariant
                n0 == p.len(),
                self.cursor as int == c,
                c + expired_run(p, c, now) <= p.len(),
                forall|k: int| c <= k < c + expired_run(p, c, now) ==> now >= (#[trigger] p[k]).deadline,
                c + expired_run(p, c, now) < p.len() ==> now < p[c + expired_run(p, c, now)].deadline,
                removed <= expired_run(p, c, now),
                self.pending@.len() == p.len() - removed,
                forall|i: int| 0 <= i < c ==> #[trigger] self.pending@[i] == p[i],
                forall|i: int| c <= i < self.pending@.len() ==> #[trigger] self.pending@[i] == p[i + removed],
                if f0 is None && removed > 0 {
                    self.failure matches Some(WaitFailure::Timeout { id, last_state }) && id@ == p[c].id@
                        && last_state@ == p[c].state@
                } else {
                    self.failure == f0
                },
                self.window_ms == old(self).window_ms,
            decreases self.pending@.len() - self.cursor,
        {
            let cur = self.cursor;
            if self.failure.is_none() {
                let id = self.pending[cur].id.clone();
                let st = self.pending[cur].state.clone();
                self.failure = Some(WaitFailure::Timeout { id, last_state: st });
            }
            self.pending.remove(cur);
            removed = removed + 1;
        }
        proof {
            assert(removed == expired_run(p, c, now));
        }
        let n = self.pending.len();
        if self.cursor < n {
            let id = self.pending[self.cursor].id.clone();
            WaitAction::Poll(id)
        } else if n == 0 {
            WaitAction::Finish
        } else {
            self.cursor = 0;
            WaitAction::Sleep
        }
    }

    /// Reports the poll of the transfer at the cursor at time `now`: a
    /// terminal state makes it a result; any change of state, bytes or queue
    /// place re-arms its deadline; a failed poll past the deadline gives it
    /// up (the first failure becomes the batch's); otherwise the cursor moves
    /// on.
    pub fn on_poll(&mut self, now: u64, polled: Option<TransferSnapshot>) -> (v: PollVerdict)
        requires
            old(self).cursor < old(self).pending@.len(),
        ensures
            on_poll_step(*old(self), *final(self), now, polled, v),
    {
        let c = self.cursor;
        let n = self.pending.len();
        match polled {
            Some(t) => {
                if is_terminal_state(t.state.as_str()) {
                    self.pending.remove(c);
                    return PollVerdict::Collect;
                }
                let old_deadline = self.pending[c].deadline;
                let moved = !str_eq(t.state.as_str(), self.pending[c].state.as_str()) || t.bytes_transferred
                    != self.pending[c].bytes || t.place_in_queue != self.pending[c].queue;
                let deadline = if moved {
                    deadline_after_exec(now, self.window_ms)
                } else {
                    old_deadline
                };
                let id = self.pending[c].id.clone();
                self.pending.set(
                    c,
                    PendingFetch {
                        id,
                        state: t.state,
                        bytes: t.bytes_transferred,
                        queue: t.place_in_queue,
                        deadline,
                    },
                );
                self.cursor = c + 1;
                PollVerdict::Keep
            },
            None => {
                if now >= self.pending[c].deadline {
                    let first = self.failure.is_none();
                    if first {
                        self.failure = Some(WaitFailure::PollError);
                    }
                    self.pending.remove(c);
                    PollVerdict::Dropped { first }
                } else {
                    self.cursor = c + 1;
                    PollVerdict::Keep
                }
            },
        }
    }

    /// The batch's error once finished, when it was a timeout; `None` when
    /// there was no failure or the failure is a poll error the caller holds.
    pub fn timeout_error(&self, username: &str) -> (e: Option<Error>)
        ensures
            match self.failure {
                Some(WaitFailure::Timeout { id, last_state }) => e matches Some(
                    Error::SlskdFetchTimeout { username: u, id: i, waited_secs, last_state: l },
                ) && u@ == username@ && i@ == id@ && waited_secs == self.window_ms / 1000 && l@
                    == last_state@,
                _ => e is None,
            },
    {
        match &self.failure {
            Some(WaitFailure::Timeout { id, last_state }) => Some(
                Error::SlskdFetchTimeout {
                    username: username.to_string(),
                    id: id.clone(),
                    waited_secs: self.window_ms / 1000,
                    last_state: last_state.clone(),
                },
            ),
            _ => None,
        }
    }
}


// ---------------------------------------------------------------------------
// Waiting for a search
// ---------------------------------------------------------------------------

/// How long a search may take to complete, in milliseconds.
pub const SEARCH_TIMEOUT_MS: u64 = 600_000;

/// Milliseconds between polls while a completed search's responses are
/// still missing.
pub const DRAIN_INTERVAL_MS: u64 = 500;

/// Polls spent waiting for a completed search's responses.
pub const DRAIN_POLLS: u32 = 5;

/// Waiting for a submitted search: first until slskd reports it complete
/// (within the deadline), then briefly until its responses are readable.
pub struct SearchWait {
    pub deadline: u64,
    pub draining: bool,
    pub drained: u32,
}

/// What to do with the search just read.
#[derive(PartialEq, Eq, Structural)]
pub enum SearchStep {
    /// Sleep this long, then read the search again.
    Poll { delay_ms: u64 },
    /// The search is the outcome.
    Done,
    /// It never completed: `Error::Slskd` for "search".
    TimedOut,
}

impl SearchWait {
    /// A search submitted at `now`.
    pub fn new(now: u64) -> (w: SearchWait)
        ensures
            w.deadline == deadline_after(now, SEARCH_TIMEOUT_MS),
            !w.draining,
            w.drained == 0,
    {
        SearchWait { deadline: deadline_after_exec(now, SEARCH_TIMEOUT_MS), draining: false, drained: 0 }
    }

    /// The step after reading the search at `now`: an incomplete search is
    /// polled every `POLL_INTERVAL_MS` until the deadline; once complete, a
    /// search with no responses is read again up to `DRAIN_POLLS` times,
    /// `DRAIN_INTERVAL_MS` apart.
    pub fn step(&mut self, is_complete: bool, has_responses: bool, now: u64) -> (s: SearchStep)
        ensures
            final(self).deadline == old(self).deadline,
            !old(self).draining && !is_complete ==> {
                &&& s == if now >= old(self).deadline {
                    SearchStep::TimedOut
                } else {
                    SearchStep::Poll { delay_ms: POLL_INTERVAL_MS }
                }
                &&& !final(self).draining && final(self).drained == old(self).drained
            },
            old(self).draining || is_complete ==> {
                &&& final(self).draining
                &&& s == if !has_responses && old(self).drained < DRAIN_POLLS {
                    SearchStep::Poll { delay_ms: DRAIN_INTERVAL_MS }
                } else {
                    SearchStep::Done
                }
                &&& final(self).drained == if !has_responses && old(self).drained < DRAIN_POLLS {
                    old(self).drained + 1
                } else {
                    old(self).drained as int
                }
            },
    {
        if !self.draining && !is_complete {
            if now >= self.deadline {
                return SearchStep::TimedOut;
            }
            return SearchStep::Poll { delay_ms: POLL_INTERVAL_MS };
        }
        self.draining = true;
        if !has_responses && self.drained < DRAIN_POLLS {
            self.drained = self.drained + 1;
            SearchStep::Poll { delay_ms: DRAIN_INTERVAL_MS }
        } else {
            SearchStep::Done
        }
    }
}

/// The error of a search that never completed.
pub fn search_timeout_error() -> (e: Error)
    ensures
        e matches Error::Slskd { what, status, body } && what@ == "search"@ && status == 0 && body@
            == "search never completed"@,
{
    Error::Slskd { what: String::from_str("search"), status: 0, body: String::from_str("search never completed") }
}

} // verus!
