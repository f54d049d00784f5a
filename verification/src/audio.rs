//! Audio file classification and the downsample decision.

use vstd::prelude::*;

use crate::paths::{extension, file_name, path_extension, path_file_name, path_parent};
use crate::text::{contains_str, seq_ascii_lower, seq_contains, str_eq, to_ascii_lowercase};

verus! {

/// Extensions (compared ASCII-case-insensitively) that mark an audio file.
pub open spec fn is_audio_ext(e: Seq<char>) -> bool {
    let l = seq_ascii_lower(e);
    l == "flac"@ || l == "mp3"@ || l == "m4a"@ || l == "mp4"@ || l == "ogg"@ || l == "opus"@
        || l == "wav"@ || l == "ape"@ || l == "wv"@
}

/// True when the path's extension is one of the audio extensions.
pub fn is_audio(path: &str) -> (r: bool)
    ensures
        r == (path_extension(path@) matches Some(e) && is_audio_ext(e)),
{
    match extension(path) {
        Some(e) => {
            let l = to_ascii_lowercase(e.as_str());
            let s = l.as_str();
            str_eq(s, "flac") || str_eq(s, "mp3") || str_eq(s, "m4a") || str_eq(s, "mp4")
                || str_eq(s, "ogg") || str_eq(s, "opus") || str_eq(s, "wav") || str_eq(s, "ape")
                || str_eq(s, "wv")
        },
        None => false,
    }
}

/// True for this program's own per-process temp files
/// (`<name>.mimport-tmp.<pid>.flac`), so directory walks skip them.
pub fn is_temp_file(path: &str) -> (r: bool)
    ensures
        r == (path_file_name(path@) matches Some(n) && seq_contains(n, ".mimport-tmp."@)),
{
    match file_name(path) {
        Some(n) => contains_str(n.as_str(), ".mimport-tmp."),
        None => false,
    }
}

/// Why a nominally lossless file looks like a lossy transcode.
#[derive(Debug, Clone, Copy, PartialEq, Eq, Structural)]
pub enum Suspicion {
    ImplausibleCompression,
    ImplausibleBitrate,
    Unknown,
}

/// The path names a lossless format (`flac`, `wav`, `ape`, `wv`, any ASCII
/// case); every other audio file is lossy.
pub open spec fn is_lossless_path(path: Seq<char>) -> bool {
    path_extension(path) matches Some(e) && crate::lossless::is_lossless_ext(e)
}

pub fn is_lossless_path_exec(path: &str) -> (r: bool)
    ensures
        r == is_lossless_path(path@),
{
    match extension(path) {
        Some(e) => {
            let l = to_ascii_lowercase(e.as_str());
            let s = l.as_str();
            str_eq(s, "flac") || str_eq(s, "wav") || str_eq(s, "ape") || str_eq(s, "wv")
        },
        None => false,
    }
}

/// A file needs downsampling when it is lossless and its sample rate or bit
/// depth exceeds the target; lossy files are never touched, and an unknown
/// rate or depth never forces it.
pub open spec fn needs_downsample_spec(
    path: Seq<char>,
    sample_rate: Option<u32>,
    bit_depth: Option<u32>,
    target_rate: u32,
    target_depth: u16,
) -> bool {
    is_lossless_path(path) && ((sample_rate matches Some(sr) && sr > target_rate) || (
    bit_depth matches Some(bd) && bd > target_depth))
}

pub fn needs_downsample(
    path: &str,
    sample_rate: Option<u32>,
    bit_depth: Option<u32>,
    target_rate: u32,
    target_depth: u16,
) -> (r: bool)
    ensures
        r == needs_downsample_spec(path@, sample_rate, bit_depth, target_rate, target_depth),
{
    if !is_lossless_path_exec(path) {
        return false;
    }
    if let Some(sr) = sample_rate {
        if sr > target_rate {
            return true;
        }
    }
    if let Some(bd) = bit_depth {
        if bd > target_depth as u32 {
            return true;
        }
    }
    false
}

} // verus!

verus! {

// ---------------------------------------------------------------------------
// Downsampling with ffmpeg
// ---------------------------------------------------------------------------

/// ffmpeg's sample format for a target bit depth (24-bit output is carried
/// in `s32`); other depths are refused.
pub fn sample_fmt_for(target_depth: u16) -> (r: Result<&'static str, crate::error::Error>)
    ensures
        target_depth == 16 ==> (r matches Ok(f) && f@ == "s16"@),
        target_depth == 24 ==> (r matches Ok(f) && f@ == "s32"@),
        target_depth != 16 && target_depth != 24 ==> (r matches Err(crate::error::Error::ConfigInvalid(m))
            && m@ == "unsupported target bit depth "@ + crate::text::decimal(target_depth as nat)),
{
    if target_depth == 16 {
        Ok("s16")
    } else if target_depth == 24 {
        Ok("s32")
    } else {
        let mut m = String::from_str("unsupported target bit depth ");
        let d = crate::text::fmt_u64(target_depth as u64);
        m.append(d.as_str());
        Err(crate::error::Error::ConfigInvalid(m))
    }
}

/// The audio filter: SoX resampling to the target rate with triangular
/// high-pass dither into the given sample format.
pub open spec fn resample_filter_spec(rate: u32, fmt: Seq<char>) -> Seq<char> {
    "aresample="@ + crate::text::decimal(rate as nat) + ":resampler=soxr:precision=28:osf="@ + fmt
        + ":dither_method=triangular_hp"@
}

pub fn resample_filter(rate: u32, fmt: &str) -> (r: String)
    ensures
        r@ == resample_filter_spec(rate, fmt@),
{
    let mut f = String::from_str("aresample=");
    let n = crate::text::fmt_u64(rate as u64);
    f.append(n.as_str());
    f.append(":resampler=soxr:precision=28:osf=");
    f.append(fmt);
    f.append(":dither_method=triangular_hp");
    f
}

/// The ffmpeg arguments that rewrite `input` into `output` at the target
/// rate and depth, keeping every stream (cover art copied), all metadata
/// and no encoder tag.
pub fn downsample_args(input: &str, output: &str, target_rate: u32, target_depth: u16) -> (r: Result<Vec<String>, crate::error::Error>)
    ensures
        match r {
            Err(e) => target_depth != 16 && target_depth != 24 && (e matches crate::error::Error::ConfigInvalid(m)
                && m@ == "unsupported target bit depth "@ + crate::text::decimal(target_depth as nat)),
            Ok(a) => (target_depth == 16 || target_depth == 24) && crate::text::strs_view(a@) == seq![
                "-y"@,
                "-hide_banner"@,
                "-loglevel"@,
                "error"@,
                "-i"@,
                input@,
                "-map"@,
                "0"@,
                "-c:v"@,
                "copy"@,
                "-af"@,
                resample_filter_spec(target_rate, if target_depth == 16 { "s16"@ } else { "s32"@ }),
                "-sample_fmt"@,
                if target_depth == 16 { "s16"@ } else { "s32"@ },
                "-map_metadata"@,
                "0"@,
                "-metadata"@,
                "encoder="@,
                output@,
            ],
        },
{
    let fmt = match sample_fmt_for(target_depth) {
        Ok(f) => f,
        Err(e) => return Err(e),
    };
    let filter = resample_filter(target_rate, fmt);
    let mut a: Vec<String> = Vec::new();
    a.push(String::from_str("-y"));
    a.push(String::from_str("-hide_banner"));
    a.push(String::from_str("-loglevel"));
    a.push(String::from_str("error"));
    a.push(String::from_str("-i"));
    a.push(input.to_string());
    a.push(String::from_str("-map"));
    a.push(String::from_str("0"));
    a.push(String::from_str("-c:v"));
    a.push(String::from_str("copy"));
    a.push(String::from_str("-af"));
    a.push(filter);
    a.push(String::from_str("-sample_fmt"));
    a.push(fmt.to_string());
    a.push(String::from_str("-map_metadata"));
    a.push(String::from_str("0"));
    a.push(String::from_str("-metadata"));
    a.push(String::from_str("encoder="));
    a.push(output.to_string());
    Ok(a)
}

/// The temporary sibling a file is downsampled into:
/// `<name>.mimport-tmp.<pid>.flac` in the same directory.
///
/// When the path has a file name, the sibling is one of this program's temp
/// files, is itself an audio file, and has the same parent directory.
pub fn temp_sibling(path: &str, pid: u32) -> (r: String)
    ensures
        r@ == crate::paths::path_with_file_name(
            path@,
            match path_file_name(path@) {
                Some(n) => n,
                None => Seq::empty(),
            } + ".mimport-tmp."@ + crate::text::decimal(pid as nat) + ".flac"@,
        ),
        path_file_name(path@) is Some ==> {
            &&& path_file_name(r@) matches Some(n) && seq_contains(n, ".mimport-tmp."@)
            &&& path_extension(r@) matches Some(e) && is_audio_ext(e)
            &&& path_parent(r@) == path_parent(path@)
        },
{
    let mut name = match file_name(path) {
        Some(n) => n,
        None => String::new(),
    };
    let ghost n0 = name@;
    name.append(".mimport-tmp.");
    let p = crate::text::fmt_u64(pid as u64);
    name.append(p.as_str());
    name.append(".flac");
    proof {
        reveal_strlit(".mimport-tmp.");
        reveal_strlit(".flac");
        reveal_strlit("flac");
        reveal_strlit(".");
        reveal_strlit("..");
        let tmp = ".mimport-tmp."@;
        let d = crate::text::decimal(pid as nat);
        let nm = name@;
        assert(nm =~= n0 + tmp + d + ".flac"@);
        if path_file_name(path@) is Some {
            lemma_decimal_has_no_slash(pid as nat);
            assert(!nm.contains('/')) by {
                if nm.contains('/') {
                    let k = choose|k: int| 0 <= k < nm.len() && nm[k] == '/';
                    if k < n0.len() {
                        assert(n0[k] == '/');
                    } else if k < n0.len() + tmp.len() {
                        assert(tmp[k - n0.len()] == '/');
                    } else if k < n0.len() + tmp.len() + d.len() {
                        assert(d[k - n0.len() - tmp.len()] == '/');
                    } else {
                        assert(".flac"@[k - n0.len() - tmp.len() - d.len()] == '/');
                    }
                }
            }
            assert(crate::paths::plain_name(nm));
            assert(crate::text::occurs_at(nm, tmp, n0.len() as int)) by {
                assert(nm.subrange(n0.len() as int, (n0.len() + tmp.len()) as int) =~= tmp);
            }
            let i = nm.len() - 5;
            assert(crate::text::is_last_char(nm, '.', i));
            let j = choose|j: int| crate::text::is_last_char(nm, '.', j);
            crate::text::lemma_last_char_unique(nm, '.', i, j);
            assert(nm.subrange(i + 1, nm.len() as int) =~= "flac"@);
            assert(seq_ascii_lower("flac"@) =~= "flac"@);
        }
    }
    crate::paths::with_file_name(path, name.as_str())
}

proof fn lemma_decimal_has_no_slash(n: nat)
    ensures
        !crate::text::decimal(n).contains('/'),
    decreases n,
{
    let d = crate::text::decimal(n);
    if n >= 10 {
        lemma_decimal_has_no_slash(n / 10);
    }
    assert forall|k: int| 0 <= k < d.len() implies d[k] != '/' by {
        if n >= 10 {
            let hi = crate::text::decimal(n / 10);
            if k < hi.len() {
                assert(d[k] == hi[k]);
            } else {
                assert(d[k] == crate::text::digit_char((n % 10) as int));
            }
        }
    }
}

/// At most the first `n` characters of `s`.
pub fn first_chars(s: &str, n: usize) -> (r: String)
    ensures
        r@ == if s@.len() <= n {
            s@
        } else {
            s@.subrange(0, n as int)
        },
{
    let cs = crate::text::chars_of(s);
    if cs.len() <= n {
        crate::text::string_of(&cs)
    } else {
        crate::text::string_of(crate::text::slice_range(&cs, 0, n))
    }
}

} // verus!
