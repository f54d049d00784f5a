//! yt-dlp: the command line a fetch runs and the reading of the one
//! `--print` line it writes per downloaded entry.

use vstd::prelude::*;
use crate::error::Error;
use crate::text::{chars_of, parse_u32, parse_u32_spec, push_char, str_eq, string_of};

verus! {

/// Separates the columns of a `--print` line (the ASCII unit separator, not
/// expected inside yt-dlp's own fields).
pub const FIELD_SEP: char = '\u{1f}';

/// The `--print` template: playlist index, id, title, uploader, duration and
/// final file path, after the file is moved into place.
pub open spec fn print_template_spec() -> Seq<char> {
    "after_move:%(playlist_index)s"@ + seq![FIELD_SEP] + "%(id)s"@ + seq![FIELD_SEP] + "%(title)s"@
        + seq![FIELD_SEP] + "%(uploader)s"@ + seq![FIELD_SEP] + "%(duration)s"@ + seq![FIELD_SEP]
        + "%(filepath)s"@
}

pub fn print_template() -> (r: String)
    ensures
        r@ == print_template_spec(),
{
    let mut t = String::from_str("after_move:%(playlist_index)s");
    push_char(&mut t, FIELD_SEP);
    t.append("%(id)s");
    push_char(&mut t, FIELD_SEP);
    t.append("%(title)s");
    push_char(&mut t, FIELD_SEP);
    t.append("%(uploader)s");
    push_char(&mut t, FIELD_SEP);
    t.append("%(duration)s");
    push_char(&mut t, FIELD_SEP);
    t.append("%(filepath)s");
    t
}

/// The cookie arguments: a Netscape cookie jar, then a browser to take
/// cookies from, each only when given.
pub open spec fn cookie_args_spec(cookies: Option<Seq<char>>, from_browser: Option<Seq<char>>) -> Seq<Seq<char>> {
    (match cookies {
        Some(c) => seq!["--cookies"@, c],
        None => Seq::empty(),
    }) + (match from_browser {
        Some(b) => seq!["--cookies-from-browser"@, b],
        None => Seq::empty(),
    })
}

/// Arguments of a fetch: audio extracted as Opus, the thumbnail written as
/// JPEG, the output template, the print template, the cookie options, then
/// `--ignore-errors` for a playlist (a dead entry is skipped) or
/// `--no-playlist` for one video, then the URL.
pub fn fetch_args(
    out_template: &str,
    url: &str,
    playlist: bool,
    cookies: Option<&str>,
    cookies_from_browser: Option<&str>,
) -> (r: Vec<String>)
    ensures
        crate::text::strs_view(r@) == seq![
            "-x"@,
            "--audio-format"@,
            "opus"@,
            "--write-thumbnail"@,
            "--convert-thumbnails"@,
            "jpg"@,
            "-o"@,
            out_template@,
            "--print"@,
            print_template_spec(),
        ] + cookie_args_spec(
            match cookies {
                Some(c) => Some(c@),
                None => None,
            },
            match cookies_from_browser {
                Some(b) => Some(b@),
                None => None,
            },
        ) + seq![if playlist { "--ignore-errors"@ } else { "--no-playlist"@ }, url@],
{
    let mut a: Vec<String> = Vec::new();
    a.push(String::from_str("-x"));
    a.push(String::from_str("--audio-format"));
    a.push(String::from_str("opus"));
    a.push(String::from_str("--write-thumbnail"));
    a.push(String::from_str("--convert-thumbnails"));
    a.push(String::from_str("jpg"));
    a.push(String::from_str("-o"));
    a.push(out_template.to_string());
    a.push(String::from_str("--print"));
    a.push(print_template());
    let ghost head = crate::text::strs_view(a@);
    match cookies {
        Some(c) => {
            a.push(String::from_str("--cookies"));
            a.push(c.to_string());
        },
        None => {},
    }
    let ghost mid = crate::text::strs_view(a@);
    match cookies_from_browser {
        Some(b) => {
            a.push(String::from_str("--cookies-from-browser"));
            a.push(b.to_string());
        },
        None => {},
    }
    let ghost tail = crate::text::strs_view(a@);
    if playlist {
        a.push(String::from_str("--ignore-errors"));
    } else {
        a.push(String::from_str("--no-playlist"));
    }
    a.push(url.to_string());
    let ghost c = match cookies {
        Some(c) => Some(c@),
        None => None,
    };
    let ghost b = match cookies_from_browser {
        Some(b) => Some(b@),
        None => None,
    };
    assert(head =~= seq![
        "-x"@,
        "--audio-format"@,
        "opus"@,
        "--write-thumbnail"@,
        "--convert-thumbnails"@,
        "jpg"@,
        "-o"@,
        out_template@,
        "--print"@,
        print_template_spec(),
    ]);
    assert(mid =~= head + match c {
        Some(x) => seq!["--cookies"@, x],
        None => Seq::<Seq<char>>::empty(),
    });
    assert(tail =~= head + cookie_args_spec(c, b));
    assert(crate::text::strs_view(a@) =~= tail + seq![if playlist { "--ignore-errors"@ } else { "--no-playlist"@ }, url@]);
    a
}

// ---------------------------------------------------------------------------
// Reading the printed lines
// ---------------------------------------------------------------------------

/// `s` without one trailing `\r`.
pub open spec fn drop_cr(s: Seq<char>) -> Seq<char> {
    if s.len() > 0 && s.last() == '\r' {
        s.drop_last()
    } else {
        s
    }
}

/// `str::lines`: pieces between `\n`s (a `\r` right before a `\n` dropped),
/// with no empty piece after a final `\n`.
pub open spec fn lines_spec(s: Seq<char>) -> Seq<Seq<char>>
    decreases s.len(),
{
    match crate::text::split_at_char(s, '\n') {
        None => if s.len() == 0 {
            Seq::empty()
        } else {
            seq![s]
        },
        Some((line, rest)) => {
            proof {
                lemma_split_shorter(s, '\n');
            }
            seq![drop_cr(line)] + lines_spec(rest)
        },
    }
}

/// `str::split` on a char: every piece between occurrences, empty ones kept.
pub open spec fn split_all(s: Seq<char>, c: char) -> Seq<Seq<char>>
    decreases s.len(),
{
    match crate::text::split_at_char(s, c) {
        None => seq![s],
        Some((a, rest)) => {
            proof {
                lemma_split_shorter(s, c);
            }
            seq![a] + split_all(rest, c)
        },
    }
}

pub proof fn lemma_first_char_exists(s: Seq<char>, c: char)
    requires
        s.contains(c),
    ensures
        exists|i: int| crate::text::is_first_char(s, c, i),
    decreases s.len(),
{
    if s[0] == c {
        assert(crate::text::is_first_char(s, c, 0));
    } else {
        let k = choose|k: int| 0 <= k < s.len() && s[k] == c;
        assert(s.drop_first()[k - 1] == c);
        lemma_first_char_exists(s.drop_first(), c);
        let j = choose|j: int| crate::text::is_first_char(s.drop_first(), c, j);
        assert forall|q: int| 0 <= q < j + 1 implies s[q] != c by {
            if q > 0 {
                assert(s[q] == s.drop_first()[q - 1]);
            }
        }
        assert(crate::text::is_first_char(s, c, j + 1));
    }
}

pub proof fn lemma_split_shorter(s: Seq<char>, c: char)
    ensures
        match crate::text::split_at_char(s, c) {
            Some((a, rest)) => rest.len() < s.len(),
            None => true,
        },
{
    if s.contains(c) {
        lemma_first_char_exists(s, c);
        let i = choose|i: int| crate::text::is_first_char(s, c, i);
        assert(crate::text::is_first_char(s, c, i));
    }
}

fn split_on(s: &str, c: char) -> (r: Vec<String>)
    ensures
        crate::text::strs_view(r@) == split_all(s@, c),
    decreases s@.len(),
{
    proof {
        lemma_split_shorter(s@, c);
    }
    match crate::text::split_char_once(s, c) {
        None => {
            let mut v: Vec<String> = Vec::new();
            v.push(s.to_string());
            assert(crate::text::strs_view(v@) =~= seq![s@]);
            v
        },
        Some((a, rest)) => {
            let tail = split_on(rest.as_str(), c);
            let mut v: Vec<String> = Vec::new();
            let ghost av = a@;
            v.push(a);
            let mut t = tail;
            v.append(&mut t);
            assert(crate::text::strs_view(v@) =~= seq![av] + split_all(rest@, c));
            v
        },
    }
}

fn drop_cr_exec(s: String) -> (r: String)
    ensures
        r@ == drop_cr(s@),
{
    let cs = chars_of(s.as_str());
    if cs.len() > 0 && cs[cs.len() - 1] == '\r' {
        string_of(crate::text::slice_range(&cs, 0, cs.len() - 1))
    } else {
        s
    }
}

/// `str::lines`.
pub fn lines_of(s: &str) -> (r: Vec<String>)
    ensures
        crate::text::strs_view(r@) == lines_spec(s@),
    decreases s@.len(),
{
    proof {
        lemma_split_shorter(s@, '\n');
    }
    match crate::text::split_char_once(s, '\n') {
        None => {
            let mut v: Vec<String> = Vec::new();
            if crate::text::char_count(s) > 0 {
                v.push(s.to_string());
            }
            assert(crate::text::strs_view(v@) =~= lines_spec(s@));
            v
        },
        Some((line, rest)) => {
            let l = drop_cr_exec(line);
            let tail = lines_of(rest.as_str());
            let mut v: Vec<String> = Vec::new();
            let ghost lv = l@;
            v.push(l);
            let mut t = tail;
            v.append(&mut t);
            assert(crate::text::strs_view(v@) =~= seq![lv] + lines_spec(rest@));
            v
        },
    }
}

/// One entry yt-dlp reported as downloaded (its duration stays text; the
/// caller reads it as a number).
#[derive(Debug)]
pub struct PrintedEntry {
    pub playlist_index: Option<u32>,
    pub video_id: String,
    pub title: Option<String>,
    pub uploader: Option<String>,
    pub duration: String,
    pub path: String,
}

/// yt-dlp prints `NA` for a field it does not have.
pub open spec fn na_spec(s: Seq<char>) -> Option<Seq<char>> {
    if s == "NA"@ {
        None
    } else {
        Some(s)
    }
}

fn na(s: &String) -> (r: Option<String>)
    ensures
        crate::text::opt_view(r) == na_spec(s@),
{
    if str_eq(s.as_str(), "NA") {
        None
    } else {
        Some(s.clone())
    }
}

/// The entry a line describes when it has exactly six columns.
pub open spec fn entry_of(cols: Seq<Seq<char>>, e: PrintedEntry) -> bool {
    &&& e.playlist_index == parse_u32_spec(cols[0])
    &&& e.video_id@ == cols[1]
    &&& crate::text::opt_view(e.title) == na_spec(cols[2])
    &&& crate::text::opt_view(e.uploader) == na_spec(cols[3])
    &&& e.duration@ == cols[4]
    &&& e.path@ == cols[5]
}

/// Reads one `--print` line; a line without exactly six columns is refused
/// with its `Debug` form.
pub fn parse_print_line(line: &str) -> (r: Result<PrintedEntry, String>)
    ensures
        split_all(line@, FIELD_SEP).len() == 6 ==> (r matches Ok(e) && entry_of(
            split_all(line@, FIELD_SEP),
            e,
        )),
        split_all(line@, FIELD_SEP).len() != 6 ==> (r matches Err(m) && m@
            == "unexpected --print output shape: "@ + crate::slskd::debug_str(line@)),
{
    let parts = split_on(line, FIELD_SEP);
    if parts.len() != 6 {
        let mut m = String::from_str("unexpected --print output shape: ");
        let d = crate::slskd::debug_quoted(line);
        m.append(d.as_str());
        return Err(m);
    }
    assert(parts@[0]@ == split_all(line@, FIELD_SEP)[0]);
    Ok(
        PrintedEntry {
            playlist_index: parse_u32(parts[0].as_str()),
            video_id: parts[1].clone(),
            title: na(&parts[2]),
            uploader: na(&parts[3]),
            duration: parts[4].clone(),
            path: parts[5].clone(),
        },
    )
}

/// Line `i` is the first without six columns.
pub open spec fn first_bad_line(ls: Seq<Seq<char>>, i: int) -> bool {
    &&& 0 <= i < ls.len()
    &&& split_all(ls[i], FIELD_SEP).len() != 6
    &&& forall|k: int| 0 <= k < i ==> split_all(#[trigger] ls[k], FIELD_SEP).len() == 6
}

/// What reading the printed output gives (see `parse_print_output`).
pub open spec fn print_output_spec(stdout: Seq<char>, status: Seq<char>, r: Result<Vec<PrintedEntry>, Error>) -> bool {
        ({
            let ls = lines_spec(stdout);
            match r {
                Ok(es) => ls.len() > 0 && es@.len() == ls.len() && (forall|i: int|
                    0 <= i < ls.len() ==> split_all(#[trigger] ls[i], FIELD_SEP).len() == 6) && forall|i: int|
                    0 <= i < ls.len() ==> entry_of(split_all(ls[i], FIELD_SEP), #[trigger] es@[i]),
                Err(Error::ToolFailed { tool, status: st, stderr }) => tool@ == "yt-dlp"@ && st@
                    == status && (if ls.len() == 0 {
                    stderr@ == "no --print output captured on stdout"@
                } else {
                    exists|i: int|
                        first_bad_line(ls, i) && stderr@ == "unexpected --print output shape: "@
                            + crate::slskd::debug_str(#[trigger] ls[i])
                }),
                Err(_) => false,
            }
        })
}

/// Every printed line read as an entry; stops at the first malformed line,
/// and output with no line at all is an error too. The errors carry the
/// process's exit status text.
pub fn parse_print_output(stdout: &str, status: &str) -> (r: Result<Vec<PrintedEntry>, Error>)
    ensures
        print_output_spec(stdout@, status@, r),
{
    let lines = lines_of(stdout);
    let ghost ls = lines_spec(stdout@);
    let mut out: Vec<PrintedEntry> = Vec::new();
    let mut i: usize = 0;
    while i < lines.len()
        invariant
            ls == lines_spec(stdout@),
            crate::text::strs_view(lines@) == ls,
            i <= lines@.len(),
            out@.len() == i,
            forall|k: int| 0 <= k < i ==> split_all(#[trigger] ls[k], FIELD_SEP).len() == 6,
            forall|k: int| 0 <= k < i ==> entry_of(split_all(ls[k], FIELD_SEP), #[trigger] out@[k]),
        decreases lines@.len() - i,
    {
        assert(lines@[i as int]@ == ls[i as int]);
        match parse_print_line(lines[i].as_str()) {
            Ok(e) => out.push(e),
            Err(m) => {
                assert(split_all(ls[i as int], FIELD_SEP).len() != 6);
                assert(m@ == "unexpected --print output shape: "@ + crate::slskd::debug_str(ls[i as int]));
                assert(ls.len() > 0);
                let st = status.to_string();
                assert(st@ == status@);
                let e = Error::ToolFailed { tool: String::from_str("yt-dlp"), status: st, stderr: m };
                proof {
                    assert(0 <= i < ls.len() && split_all(ls[i as int], FIELD_SEP).len() != 6 && (forall|k: int|
                        0 <= k < i ==> split_all(#[trigger] ls[k], FIELD_SEP).len() == 6));
                    assert(first_bad_line(ls, i as int));
                }
                return Err(e);
            },
        }
        i = i + 1;
    }
    if out.len() == 0 {
        return Err(
            Error::ToolFailed {
                tool: String::from_str("yt-dlp"),
                status: status.to_string(),
                stderr: String::from_str("no --print output captured on stdout"),
            },
        );
    }
    Ok(out)
}

/// Where yt-dlp writes an entry's JPEG thumbnail: `<staging>/<id>.jpg`.
pub fn thumbnail_path(staging_dir: &str, video_id: &str) -> (r: String)
    ensures
        r@ == crate::paths::path_join(staging_dir@, video_id@ + ".jpg"@),
{
    let mut n = video_id.to_string();
    n.append(".jpg");
    crate::paths::join(staging_dir, n.as_str())
}

/// The output template: `<staging>/%(id)s.%(ext)s`.
pub fn out_template(staging_dir: &str) -> (r: String)
    ensures
        r@ == crate::paths::path_join(staging_dir@, "%(id)s.%(ext)s"@),
{
    crate::paths::join(staging_dir, "%(id)s.%(ext)s")
}


/// How much of yt-dlp's stderr a failure carries.
pub const STDERR_KEEP: usize = 600;

/// yt-dlp's exit status decides only for a single video: there a failure is
/// `ToolFailed` with the status and the first `STDERR_KEEP` characters of
/// stderr; a playlist run with failed entries goes on with what was printed.
pub fn exit_check(success: bool, playlist: bool, status: &str, stderr: &str) -> (r: Result<(), Error>)
    ensures
        success || playlist ==> r is Ok,
        !success && !playlist ==> (r matches Err(Error::ToolFailed { tool, status: st, stderr: e }) && tool@
            == "yt-dlp"@ && st@ == status@ && e@ == (if stderr@.len() <= STDERR_KEEP {
            stderr@
        } else {
            stderr@.subrange(0, STDERR_KEEP as int)
        })),
{
    if !success && !playlist {
        return Err(
            Error::ToolFailed {
                tool: String::from_str("yt-dlp"),
                status: status.to_string(),
                stderr: crate::audio::first_chars(stderr, STDERR_KEEP),
            },
        );
    }
    Ok(())
}

} // verus!
