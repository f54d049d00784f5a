//! Cover art: image sniffing and normalisation, the iTunes search fallback's
//! query and result choice, and the cover cache's rules.

use vstd::prelude::*;
use crate::error::Error;
use crate::text::{
    after_last, before_first, before_first_str, char_alphanumeric, char_lowercase, chars_of,
    contains_str, is_alphanumeric, lowercase_char, push_char, replace_all, replace_str,
    seq_contains, seq_ends_with, str_eq, string_of, strip_suffix_str, trim, trim_str,
};

verus! {

/// Longest edge of an embedded cover (the Cover Art Archive's `front-500`).
pub const MAX_COVER_EDGE: u32 = 500;

pub const ITUNES_BASE_URL: &'static str = "https://itunes.apple.com";

pub struct CoverArt {
    pub mime: String,
    pub bytes: Vec<u8>,
}

// ---------------------------------------------------------------------------
// Image bytes
// ---------------------------------------------------------------------------

/// The MIME type the leading bytes announce: JPEG, PNG or GIF.
pub open spec fn sniff_spec(b: Seq<u8>) -> Option<Seq<char>> {
    if b.len() >= 3 && b[0] == 0xFF && b[1] == 0xD8 && b[2] == 0xFF {
        Some("image/jpeg"@)
    } else if b.len() >= 4 && b[0] == 0x89 && b[1] == 0x50 && b[2] == 0x4E && b[3] == 0x47 {
        Some("image/png"@)
    } else if b.len() >= 4 && b[0] == 0x47 && b[1] == 0x49 && b[2] == 0x46 && b[3] == 0x38 {
        Some("image/gif"@)
    } else {
        None
    }
}

/// Sniffs the image format from its magic bytes, so the embedded picture
/// declares the right MIME whatever a server or file name claimed.
pub fn sniff_mime(bytes: &[u8]) -> (r: Option<&'static str>)
    ensures
        match r {
            Some(m) => sniff_spec(bytes@) == Some(m@),
            None => sniff_spec(bytes@) is None,
        },
{
    let n = bytes.len();
    if n >= 3 && bytes[0] == 0xFF && bytes[1] == 0xD8 && bytes[2] == 0xFF {
        return Some("image/jpeg");
    }
    if n >= 4 && bytes[0] == 0x89 && bytes[1] == 0x50 && bytes[2] == 0x4E && bytes[3] == 0x47 {
        return Some("image/png");
    }
    if n >= 4 && bytes[0] == 0x47 && bytes[1] == 0x49 && bytes[2] == 0x46 && bytes[3] == 0x38 {
        return Some("image/gif");
    }
    None
}

#[verifier::external_type_specification]
#[verifier::external_body]
pub struct ExDynamicImage(image::DynamicImage);

/// What `image::load_from_memory` makes of `bytes`: the decoded image's
/// width and height (`DynamicImage::width`, `height`), or its error,
/// displayed. It depends on the bytes alone.
pub uninterp spec fn decoded_image(bytes: Seq<u8>) -> Result<(u32, u32), Seq<char>>;

/// Why `bytes` do not decode as an image, or `None` when they do.
pub open spec fn image_decode_failure(bytes: Seq<u8>) -> Option<Seq<char>> {
    match decoded_image(bytes) {
        Ok(_) => None,
        Err(m) => Some(m),
    }
}

/// What `DynamicImage::write_to` with the JPEG format writes (or its error,
/// displayed) for the image decoded from `source`, first resized with
/// `DynamicImage::resize` (Lanczos3) to fit `edge` x `edge` when `fit` is
/// `Some(edge)`. It depends on these arguments alone.
pub uninterp spec fn jpeg_encoding(source: Seq<u8>, fit: Option<u32>) -> Result<Seq<u8>, Seq<char>>;

/// An image decoded from `source` and, when `fit` is `Some(edge)`, resized
/// to fit `edge` x `edge`; `size` is its width and height. Values of this
/// type are made only by `decode_image` and `resize_within`, so the ghost
/// fields record where the image came from.
struct CoverImage {
    img: image::DynamicImage,
    source: Ghost<Seq<u8>>,
    fit: Ghost<Option<u32>>,
    size: Ghost<(u32, u32)>,
}

/// `image::load_from_memory`: decodes an image of a format guessed from the
/// bytes.
#[verifier::external_body]
fn decode_image(bytes: &[u8]) -> (r: Result<CoverImage, String>)
    ensures
        match r {
            Ok(c) => decoded_image(bytes@) == Ok::<(u32, u32), Seq<char>>(c.size@) && c.source@ == bytes@
                && c.fit@ is None,
            Err(m) => decoded_image(bytes@) == Err::<(u32, u32), Seq<char>>(m@),
        },
{
    match image::load_from_memory(bytes) {
        Ok(img) => Ok(CoverImage { img, source: Ghost(bytes@), fit: Ghost(None), size: Ghost(arbitrary()) }),
        Err(e) => Err(e.to_string()),
    }
}

/// `DynamicImage::width`.
#[verifier::external_body]
fn image_width(c: &CoverImage) -> (w: u32)
    ensures
        w == c.size@.0,
{
    c.img.width()
}

/// `DynamicImage::height`.
#[verifier::external_body]
fn image_height(c: &CoverImage) -> (h: u32)
    ensures
        h == c.size@.1,
{
    c.img.height()
}

/// `DynamicImage::resize` with a Lanczos3 filter: scales, keeping the aspect
/// ratio, to the largest size within `edge` x `edge`; neither side drops
/// below one pixel.
#[verifier::external_body]
fn resize_within(c: &CoverImage, edge: u32) -> (r: CoverImage)
    requires
        c.fit@ is None,
        1 <= edge <= 65535,
    ensures
        r.source@ == c.source@,
        r.fit@ == Some(edge),
        1 <= c.size@.0 && 1 <= c.size@.1 ==> 1 <= r.size@.0 <= edge && 1 <= r.size@.1 <= edge,
{
    CoverImage {
        img: c.img.resize(edge, edge, image::imageops::FilterType::Lanczos3),
        source: Ghost(c.source@),
        fit: Ghost(Some(edge)),
        size: Ghost(arbitrary()),
    }
}

/// `DynamicImage::write_to` with the JPEG encoder, into memory. It converts
/// the colour type itself; the encoder refuses only an image whose width or
/// height is outside 1..=65535.
#[verifier::external_body]
fn encode_jpeg(c: &CoverImage) -> (r: Result<Vec<u8>, String>)
    ensures
        match r {
            Ok(b) => jpeg_encoding(c.source@, c.fit@) == Ok::<Seq<u8>, Seq<char>>(b@),
            Err(m) => jpeg_encoding(c.source@, c.fit@) == Err::<Seq<u8>, Seq<char>>(m@),
        },
        (r is Ok) <==> (1 <= c.size@.0 <= 65535 && 1 <= c.size@.1 <= 65535),
{
    let mut out: Vec<u8> = Vec::new();
    match c.img.write_to(&mut std::io::Cursor::new(&mut out), image::ImageFormat::Jpeg) {
        Ok(()) => Ok(out),
        Err(e) => Err(e.to_string()),
    }
}

/// The fit a decoded image of `size` is given: the cover edge when its long
/// side exceeds it, none otherwise.
pub open spec fn cover_fit(size: (u32, u32)) -> Option<u32> {
    if size.0 > MAX_COVER_EDGE || size.1 > MAX_COVER_EDGE {
        Some(MAX_COVER_EDGE)
    } else {
        None
    }
}

/// What normalising a decoded image of `size` from `bytes` gives: the JPEG
/// of it, downscaled by `cover_fit`, or the encoder's error.
pub open spec fn cover_result(bytes: Seq<u8>, size: (u32, u32)) -> Result<Seq<u8>, Seq<char>> {
    jpeg_encoding(bytes, cover_fit(size))
}

/// Downscales to `MAX_COVER_EDGE` on the long edge when larger (aspect kept,
/// no cropping) and re-encodes as JPEG, so embedded art stays small and of
/// one format whatever the source was.
fn finish_cover(c: CoverImage) -> (r: Result<CoverArt, Error>)
    requires
        c.fit@ is None,
    ensures
        match cover_result(c.source@, c.size@) {
            Ok(b) => r matches Ok(a) && a.mime@ == "image/jpeg"@ && a.bytes@ == b,
            Err(m) => r matches Err(Error::CoverPreprocess { path, reason }) && path@ == "<memory>"@
                && reason@ == m,
        },
        (1 <= c.size@.0 && 1 <= c.size@.1) ==> r is Ok,
{
    let w = image_width(&c);
    let h = image_height(&c);
    let resized = if w > MAX_COVER_EDGE || h > MAX_COVER_EDGE {
        resize_within(&c, MAX_COVER_EDGE)
    } else {
        c
    };
    match encode_jpeg(&resized) {
        Ok(bytes) => Ok(CoverArt { mime: String::from_str("image/jpeg"), bytes }),
        Err(reason) => Err(Error::CoverPreprocess { path: String::from_str("<memory>"), reason }),
    }
}

/// A cover from a local image file's bytes, normalised; an undecodable file
/// is an error naming it.
pub fn cover_from_file_bytes(path: &str, bytes: &[u8]) -> (r: Result<CoverArt, Error>)
    ensures
        match decoded_image(bytes@) {
            Err(m) => r matches Err(Error::CoverPreprocess { path: p, reason }) && p@ == path@ && reason@ == m,
            Ok(size) => match cover_result(bytes@, size) {
                Ok(b) => r matches Ok(a) && a.mime@ == "image/jpeg"@ && a.bytes@ == b,
                Err(m) => r matches Err(Error::CoverPreprocess { path: p, reason }) && p@ == "<memory>"@
                    && reason@ == m,
            },
        },
        decoded_image(bytes@) matches Ok(size) && 1 <= size.0 && 1 <= size.1 ==> r is Ok,
{
    match decode_image(bytes) {
        Ok(img) => finish_cover(img),
        Err(reason) => Err(Error::CoverPreprocess { path: path.to_string(), reason }),
    }
}

/// A downloaded artwork body as a cover: `None` when it does not decode as
/// an image, else the normalised cover.
pub fn cover_from_download(bytes: &[u8]) -> (r: Result<Option<CoverArt>, Error>)
    ensures
        match decoded_image(bytes@) {
            Err(_) => r matches Ok(None),
            Ok(size) => match cover_result(bytes@, size) {
                Ok(b) => r matches Ok(Some(a)) && a.mime@ == "image/jpeg"@ && a.bytes@ == b,
                Err(m) => r matches Err(Error::CoverPreprocess { path: p, reason }) && p@ == "<memory>"@
                    && reason@ == m,
            },
        },
        decoded_image(bytes@) matches Ok(size) && 1 <= size.0 && 1 <= size.1 ==> r matches Ok(Some(_)),
{
    match decode_image(bytes) {
        Ok(img) => match finish_cover(img) {
            Ok(c) => Ok(Some(c)),
            Err(e) => Err(e),
        },
        Err(_) => Ok(None),
    }
}

// ---------------------------------------------------------------------------
// iTunes fallback
// ---------------------------------------------------------------------------

/// Alphanumeric characters only, lower-cased (Unicode).
pub open spec fn norm_title_spec(s: Seq<char>) -> Seq<char>
    decreases s.len(),
{
    if s.len() == 0 {
        Seq::empty()
    } else {
        norm_title_spec(s.drop_last()) + if char_alphanumeric(s.last()) {
            char_lowercase(s.last())
        } else {
            Seq::empty()
        }
    }
}

pub fn norm_title(s: &str) -> (r: String)
    ensures
        r@ == norm_title_spec(s@),
{
    let cs = chars_of(s);
    let mut out = String::new();
    let mut i: usize = 0;
    while i < cs.len()
        invariant
            cs@ == s@,
            i <= cs@.len(),
            out@ == norm_title_spec(s@.subrange(0, i as int)),
        decreases cs@.len() - i,
    {
        assert(s@.subrange(0, i + 1).drop_last() =~= s@.subrange(0, i as int));
        let c = cs[i];
        if is_alphanumeric(c) {
            let l = lowercase_char(c);
            let ls = string_of(&l);
            out.append(ls.as_str());
        }
        i = i + 1;
    }
    assert(s@.subrange(0, cs@.len() as int) =~= s@);
    out
}

pub open spec fn strip_format_suffix(h: Seq<char>) -> Seq<char> {
    if seq_ends_with(h, " - EP"@) {
        h.subrange(0, h.len() - 5)
    } else if seq_ends_with(h, " - Single"@) {
        h.subrange(0, h.len() - 9)
    } else {
        h
    }
}

/// The album part of an iTunes term: the first of ` / `-separated titles,
/// without a ` - EP` / ` - Single` suffix (iTunes requires every word).
pub open spec fn itunes_album_term_spec(album: Seq<char>) -> Seq<char> {
    trim(strip_format_suffix(trim(before_first(album, " / "@))))
}

pub fn itunes_album_term(album: &str) -> (r: String)
    ensures
        r@ == itunes_album_term_spec(album@),
{
    let head = before_first_str(album, " / ");
    let head = trim_str(head.as_str());
    proof {
        reveal_strlit(" - EP");
        reveal_strlit(" - Single");
    }
    let stripped = match strip_suffix_str(head.as_str(), " - EP") {
        Some(s) => s,
        None => match strip_suffix_str(head.as_str(), " - Single") {
            Some(s) => s,
            None => head,
        },
    };
    trim_str(stripped.as_str())
}

/// The artist part of an iTunes term: a standalone ` x ` / ` × ` separator
/// becomes ` & ` (how iTunes stores collaborations).
pub open spec fn itunes_artist_term_spec(artist: Seq<char>) -> Seq<char> {
    replace_all(replace_all(artist, " x "@, " & "@), " × "@, " & "@)
}

pub fn itunes_artist_term(artist: &str) -> (r: String)
    ensures
        r@ == itunes_artist_term_spec(artist@),
{
    proof {
        reveal_strlit(" x ");
        reveal_strlit(" × ");
    }
    let a = replace_str(artist, " x ", " & ");
    replace_str(a.as_str(), " × ", " & ")
}

/// The search term for an artist and album, or `None` when either is empty
/// (no search is made).
pub fn itunes_search_term(artist: &str, album: &str) -> (r: Option<String>)
    ensures
        artist@.len() == 0 || album@.len() == 0 ==> r is None,
        artist@.len() > 0 && album@.len() > 0 ==> (r matches Some(t) && t@
            == itunes_artist_term_spec(artist@) + seq![' '] + itunes_album_term_spec(album@)),
{
    if crate::text::char_count(artist) == 0 || crate::text::char_count(album) == 0 {
        return None;
    }
    let mut t = itunes_artist_term(artist);
    push_char(&mut t, ' ');
    let b = itunes_album_term(album);
    t.append(b.as_str());
    Some(t)
}

/// The fields of one iTunes search result the choice reads (a missing or
/// non-string name reads as empty).
pub struct ItunesResult {
    pub collection_name: String,
    pub artwork_url: Option<String>,
    pub artist_name: String,
}

/// The normalised names match: both non-empty and one contains the other.
pub open spec fn names_match(a: Seq<char>, b: Seq<char>) -> bool {
    a.len() > 0 && b.len() > 0 && (seq_contains(a, b) || seq_contains(b, a))
}

/// The first result whose normalised collection name matches the album.
pub open spec fn is_album_hit(rs: Seq<ItunesResult>, album: Seq<char>, i: int) -> bool {
    &&& 0 <= i < rs.len()
    &&& names_match(norm_title_spec(rs[i].collection_name@), norm_title_spec(album))
    &&& forall|k: int|
        0 <= k < i ==> !names_match(norm_title_spec((#[trigger] rs[k]).collection_name@), norm_title_spec(album))
}

/// Which artwork URL the fallback fetches: that of the first result whose
/// collection name matches the album, else that of the first result, if any.
pub open spec fn pick_artwork_spec(rs: Seq<ItunesResult>, album: Seq<char>) -> Option<Seq<char>> {
    if exists|i: int| is_album_hit(rs, album, i) {
        crate::text::opt_view(rs[choose|i: int| is_album_hit(rs, album, i)].artwork_url)
    } else if rs.len() > 0 {
        crate::text::opt_view(rs[0].artwork_url)
    } else {
        None
    }
}

fn names_match_exec(a: &str, b: &str) -> (r: bool)
    ensures
        r == names_match(a@, b@),
{
    crate::text::char_count(a) > 0 && crate::text::char_count(b) > 0 && (contains_str(a, b)
        || contains_str(b, a))
}

/// Chooses the artwork to fetch among the search results (relevance
/// ordered).
pub fn pick_itunes_artwork(results: &[ItunesResult], album: &str) -> (r: Option<String>)
    ensures
        crate::text::opt_view(r) == pick_artwork_spec(results@, album@),
{
    let album_norm = norm_title(album);
    let mut i: usize = 0;
    while i < results.len()
        invariant
            album_norm@ == norm_title_spec(album@),
            i <= results@.len(),
            forall|k: int|
                0 <= k < i ==> !names_match(
                    norm_title_spec((#[trigger] results@[k]).collection_name@),
                    norm_title_spec(album@),
                ),
        decreases results@.len() - i,
    {
        let n = norm_title(results[i].collection_name.as_str());
        if names_match_exec(n.as_str(), album_norm.as_str()) {
            proof {
                assert(is_album_hit(results@, album@, i as int));
                let c = choose|c: int| is_album_hit(results@, album@, c);
                if c < i {
                    assert(!names_match(
                        norm_title_spec(results@[c].collection_name@),
                        norm_title_spec(album@),
                    ));
                } else if i < c {
                    assert(!names_match(
                        norm_title_spec(results@[i as int].collection_name@),
                        norm_title_spec(album@),
                    ));
                }
            }
            return crate::text::copy_opt(&results[i].artwork_url);
        }
        i = i + 1;
    }
    if results.len() == 0 {
        return None;
    }
    crate::text::copy_opt(&results[0].artwork_url)
}

/// The artwork URL asking for a 1000x1000 image in place of the 100x100
/// thumbnail.
pub fn big_artwork_url(url: &str) -> (r: String)
    ensures
        r@ == replace_all(url@, "100x100bb"@, "1000x1000bb"@),
{
    proof {
        reveal_strlit("100x100bb");
    }
    replace_str(url, "100x100bb", "1000x1000bb")
}

// ---------------------------------------------------------------------------
// Cover cache and the Cover Art Archive
// ---------------------------------------------------------------------------

/// What a cached cover file says.
pub enum CacheVerdict {
    /// A fresh image with this MIME type.
    Positive(&'static str),
    /// A fresh record that there is no cover.
    Negative,
    /// Nothing usable.
    Miss,
    /// Fresh but not an image: delete it, then treat as a miss.
    Corrupt,
}

/// An entry of age `secs` s + `nanos` ns is within `ttl` seconds.
pub open spec fn within(secs: u64, nanos: u32, ttl: u64) -> bool {
    secs < ttl || (secs == ttl && nanos == 0)
}

/// Reads a cover cache file of the given age and contents: an empty file is
/// a negative entry while younger than the negative TTL, an image is served
/// while younger than the positive TTL, a fresh non-image file is corrupt.
pub fn cache_verdict(age_secs: u64, age_nanos: u32, bytes: &[u8], positive_ttl: u64, negative_ttl: u64) -> (r: CacheVerdict)
    ensures
        bytes@.len() == 0 ==> (if within(age_secs, age_nanos, negative_ttl) {
            r is Negative
        } else {
            r is Miss
        }),
        bytes@.len() > 0 && !within(age_secs, age_nanos, positive_ttl) ==> r is Miss,
        bytes@.len() > 0 && within(age_secs, age_nanos, positive_ttl) ==> match sniff_spec(bytes@) {
            Some(m) => r matches CacheVerdict::Positive(x) && x@ == m,
            None => r is Corrupt,
        },
{
    if bytes.len() == 0 {
        if age_secs < negative_ttl || (age_secs == negative_ttl && age_nanos == 0) {
            return CacheVerdict::Negative;
        }
        return CacheVerdict::Miss;
    }
    if !(age_secs < positive_ttl || (age_secs == positive_ttl && age_nanos == 0)) {
        return CacheVerdict::Miss;
    }
    match sniff_mime(bytes) {
        Some(m) => CacheVerdict::Positive(m),
        None => CacheVerdict::Corrupt,
    }
}

/// `<dir>/<key>.front-500`.
pub fn cover_cache_path(dir: &str, key: &str) -> (p: String)
    ensures
        p@ == crate::paths::path_join(dir@, key@ + ".front-500"@),
{
    let mut name = key.to_string();
    name.append(".front-500");
    crate::paths::join(dir, name.as_str())
}

/// `<base>/<path>/front-500`.
pub fn caa_url(base_url: &str, path: &str) -> (u: String)
    ensures
        u@ == base_url@ + seq!['/'] + path@ + "/front-500"@,
{
    let mut u = base_url.to_string();
    push_char(&mut u, '/');
    u.append(path);
    u.append("/front-500");
    u
}

} // verus!
