//! Post-import fix-ups: which Vorbis comment keys are kept, the report of a
//! run, and the repair of FLAC files that carry a stray ID3v2 prefix.

use vstd::prelude::*;
use crate::text::{chars_of, insert_sorted, seq_ascii_upper, str_eq, strictly_sorted, strs_contain, string_of, to_ascii_uppercase};

verus! {

/// Vorbis comment keys a library file keeps.
pub const ALLOWLIST: [&'static str; 43] = [
    "TITLE",
    "ARTIST",
    "ARTISTS",
    "ALBUMARTIST",
    "ALBUM_ARTIST",
    "ALBUM",
    "TRACK",
    "TRACKNUMBER",
    "TRACKTOTAL",
    "TOTALTRACKS",
    "DISC",
    "DISCNUMBER",
    "DISCTOTAL",
    "TOTALDISCS",
    "DATE",
    "ORIGINALDATE",
    "ORIGINALYEAR",
    "GENRE",
    "MEDIA",
    "LABEL",
    "PUBLISHER",
    "ORGANIZATION",
    "BPM",
    "LENGTH",
    "ISRC",
    "BARCODE",
    "RELEASECOUNTRY",
    "RELEASESTATUS",
    "RELEASETYPE",
    "SCRIPT",
    "COPYRIGHT",
    "COMPOSER",
    "LYRICS",
    "ARTISTSORT",
    "ALBUMARTISTSORT",
    "MUSICBRAINZ_TRACKID",
    "MUSICBRAINZ_ALBUMID",
    "MUSICBRAINZ_ARTISTID",
    "MUSICBRAINZ_ALBUMARTISTID",
    "MUSICBRAINZ_RELEASEGROUPID",
    "MUSICBRAINZ_RELEASETRACKID",
    "MUSICBRAINZ_ALBUMSTATUS",
    "MUSICBRAINZ_ALBUMTYPE",
];

pub open spec fn drop_separators(s: Seq<char>) -> Seq<char>
    decreases s.len(),
{
    if s.len() == 0 {
        Seq::empty()
    } else {
        drop_separators(s.drop_last()) + if s.last() == ' ' || s.last() == '_' {
            Seq::empty()
        } else {
            seq![s.last()]
        }
    }
}

/// A key compared without spaces or underscores, ASCII upper-cased.
pub open spec fn normalize_key_spec(k: Seq<char>) -> Seq<char> {
    seq_ascii_upper(drop_separators(k))
}

pub fn normalize_key(key: &str) -> (r: String)
    ensures
        r@ == normalize_key_spec(key@),
{
    let cs = chars_of(key);
    let mut out: Vec<char> = Vec::new();
    let mut i: usize = 0;
    while i < cs.len()
        invariant
            cs@ == key@,
            i <= cs@.len(),
            out@ == drop_separators(key@.subrange(0, i as int)),
        decreases cs@.len() - i,
    {
        assert(key@.subrange(0, i + 1).drop_last() =~= key@.subrange(0, i as int));
        let c = cs[i];
        if c != ' ' && c != '_' {
            out.push(c);
        }
        assert(out@ =~= drop_separators(key@.subrange(0, i + 1)));
        i = i + 1;
    }
    assert(key@.subrange(0, cs@.len() as int) =~= key@);
    let s = string_of(&out);
    to_ascii_uppercase(s.as_str())
}

/// `key` is kept: its normalised form is that of an allow-listed key.
pub open spec fn is_allowed_spec(key: Seq<char>) -> bool {
    exists|i: int| 0 <= i < 43 && normalize_key_spec((#[trigger] ALLOWLIST@[i])@) == normalize_key_spec(key)
}

pub fn is_allowed(key: &str) -> (r: bool)
    ensures
        r == is_allowed_spec(key@),
{
    let k = normalize_key(key);
    let mut i: usize = 0;
    while i < ALLOWLIST.len()
        invariant
            k@ == normalize_key_spec(key@),
            i <= 43,
            forall|j: int| 0 <= j < i ==> normalize_key_spec((#[trigger] ALLOWLIST@[j])@) != k@,
        decreases 43 - i,
    {
        let a = normalize_key(ALLOWLIST[i]);
        if str_eq(a.as_str(), k.as_str()) {
            return true;
        }
        i = i + 1;
    }
    false
}

/// Every allow-listed key is kept, at every position of the list, and so is
/// any key written like one (other case, spaces or underscores): such a key
/// is never reported as junk.
pub proof fn law_allowlisted_keys_kept(i: int, key: Seq<char>)
    requires
        0 <= i < ALLOWLIST@.len(),
        normalize_key_spec(key) == normalize_key_spec(ALLOWLIST@[i]@),
    ensures
        is_allowed_spec(ALLOWLIST@[i]@),
        is_allowed_spec(key),
{
    assert(normalize_key_spec((ALLOWLIST@[i])@) == normalize_key_spec(ALLOWLIST@[i]@));
}

/// The keys to strip from a comment block, sorted and each once: every key
/// that is not allowed.
pub fn junk_keys(keys: &[String]) -> (r: Vec<String>)
    ensures
        strictly_sorted(r@),
        forall|t: Seq<char>|
            #[trigger] strs_contain(r@, t) <==> (strs_contain(keys@, t) && !is_allowed_spec(t)),
{
    let mut out: Vec<String> = Vec::new();
    let mut i: usize = 0;
    while i < keys.len()
        invariant
            i <= keys@.len(),
            strictly_sorted(out@),
            forall|t: Seq<char>|
                #[trigger] strs_contain(out@, t) <==> (strs_contain(keys@.subrange(0, i as int), t)
                    && !is_allowed_spec(t)),
        decreases keys@.len() - i,
    {
        let ghost o0 = out@;
        let ghost ks = keys@.subrange(0, i + 1);
        assert forall|t: Seq<char>| strs_contain(ks, t) <==> (strs_contain(keys@.subrange(0, i as int), t)
            || t == keys@[i as int]@) by {
            if strs_contain(ks, t) {
                let q = choose|q: int| 0 <= q < ks.len() && (#[trigger] ks[q])@ == t;
                if q < i {
                    assert(keys@.subrange(0, i as int)[q] == ks[q]);
                }
            }
            if strs_contain(keys@.subrange(0, i as int), t) {
                let q = choose|q: int| 0 <= q < i && (#[trigger] keys@.subrange(0, i as int)[q])@ == t;
                assert(ks[q] == keys@.subrange(0, i as int)[q]);
            }
            if t == keys@[i as int]@ {
                assert(ks[i as int] == keys@[i as int]);
            }
        }
        if !is_allowed(keys[i].as_str()) {
            insert_sorted(&mut out, keys[i].clone());
        }
        i = i + 1;
    }
    assert(keys@.subrange(0, keys@.len() as int) =~= keys@);
    out
}

/// One file's purged keys.
pub struct TagsPurged {
    pub path: String,
    pub keys: Vec<String>,
}

/// A file that looks wrong, and why.
pub struct SuspiciousFile {
    pub path: String,
    pub reason: String,
}

/// What a post-fix run found and did.
pub struct Report {
    pub files_scanned: usize,
    pub downsampled: Vec<String>,
    pub tags_purged: Vec<TagsPurged>,
    pub suspicious: Vec<SuspiciousFile>,
    pub stripped_id3v2: Vec<String>,
}

impl Report {
    /// A run over `files_scanned` files that has found nothing yet.
    pub fn new(files_scanned: usize) -> (r: Report)
        ensures
            r.files_scanned == files_scanned,
            r.downsampled@.len() == 0,
            r.tags_purged@.len() == 0,
            r.suspicious@.len() == 0,
            r.stripped_id3v2@.len() == 0,
    {
        Report {
            files_scanned,
            downsampled: Vec::new(),
            tags_purged: Vec::new(),
            suspicious: Vec::new(),
            stripped_id3v2: Vec::new(),
        }
    }

    /// Some file was changed (downsampled, purged or stripped); suspicious
    /// files alone change nothing.
    pub fn changed(&self) -> (r: bool)
        ensures
            r == (self.downsampled@.len() > 0 || self.tags_purged@.len() > 0
                || self.stripped_id3v2@.len() > 0),
    {
        self.downsampled.len() > 0 || self.tags_purged.len() > 0 || self.stripped_id3v2.len() > 0
    }
}

pub struct Options {
    pub dry_run: bool,
    pub target_rate: u32,
    pub target_depth: u16,
}

/// A file meets the quality target: it needs no downsampling.
pub fn quality_ok(
    path: &str,
    sample_rate: Option<u32>,
    bit_depth: Option<u32>,
    target_rate: u32,
    target_depth: u16,
) -> (r: bool)
    ensures
        r == !crate::audio::needs_downsample_spec(path@, sample_rate, bit_depth, target_rate, target_depth),
{
    !crate::audio::needs_downsample(path, sample_rate, bit_depth, target_rate, target_depth)
}

// ---------------------------------------------------------------------------
// Stray ID3v2 prefixes on FLAC files
// ---------------------------------------------------------------------------

/// How much of a file is searched for the `fLaC` magic.
pub const ID3_SCAN_LIMIT: usize = 2097152;

pub open spec fn flac_magic_at(b: Seq<u8>, i: int) -> bool {
    0 <= i && i + 4 <= b.len() && b[i] == 0x66 && b[i + 1] == 0x4C && b[i + 2] == 0x61 && b[i + 3]
        == 0x43
}

/// What to do with a FLAC file by its first bytes.
#[derive(PartialEq, Eq, Structural)]
pub enum Id3Action {
    /// No `ID3` prefix: nothing to do.
    NoPrefix,
    /// A prefix with no `fLaC` after it: report the file as suspicious.
    NoMagic,
    /// Already starts at the magic, or a dry run: reported as stripped,
    /// nothing written.
    Report,
    /// Rewrite the file from this byte offset on.
    StripAt(usize),
}

/// The action for a file whose first bytes (at most the scan limit) are
/// `head`: a file not starting with `ID3` is left alone; otherwise the first
/// `fLaC` decides.
pub fn id3_action(head: &[u8], dry_run: bool) -> (r: Id3Action)
    ensures
        !(head@.len() >= 3 && head@[0] == 0x49 && head@[1] == 0x44 && head@[2] == 0x33) ==> r
            == Id3Action::NoPrefix,
        head@.len() >= 3 && head@[0] == 0x49 && head@[1] == 0x44 && head@[2] == 0x33 ==> match r {
            Id3Action::NoMagic => forall|i: int| !flac_magic_at(head@, i),
            Id3Action::Report => exists|i: int|
                flac_magic_at(head@, i) && (i == 0 || dry_run) && forall|k: int|
                    0 <= k < i ==> !flac_magic_at(head@, k),
            Id3Action::StripAt(p) => flac_magic_at(head@, p as int) && p > 0 && !dry_run && forall|k: int|
                0 <= k < p ==> !flac_magic_at(head@, k),
            Id3Action::NoPrefix => false,
        },
{
    let n = head.len();
    if !(n >= 3 && head[0] == 0x49 && head[1] == 0x44 && head[2] == 0x33) {
        return Id3Action::NoPrefix;
    }
    let mut i: usize = 0;
    while i < n && n - i >= 4
        invariant
            n == head@.len(),
            i <= n,
            n >= 3 && head@[0] == 0x49 && head@[1] == 0x44 && head@[2] == 0x33,
            forall|k: int| 0 <= k < i ==> !flac_magic_at(head@, k),
        decreases n - i,
    {
        if head[i] == 0x66 && head[i + 1] == 0x4C && head[i + 2] == 0x61 && head[i + 3] == 0x43 {
            if i == 0 || dry_run {
                assert(flac_magic_at(head@, i as int));
                return Id3Action::Report;
            }
            return Id3Action::StripAt(i);
        }
        i = i + 1;
    }
    Id3Action::NoMagic
}

} // verus!
