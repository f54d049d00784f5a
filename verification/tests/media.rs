use mimport_core::coverart::{
    big_artwork_url, caa_url, cache_verdict, cover_cache_path, cover_from_download, cover_from_file_bytes,
    itunes_album_term, itunes_artist_term, itunes_search_term, norm_title, pick_itunes_artwork, sniff_mime,
    CacheVerdict, ItunesResult,
};
use mimport_core::error::Error;
use mimport_core::postfix::{id3_action, is_allowed, junk_keys, normalize_key, quality_ok, Id3Action, Report};
use mimport_core::yt::{
    exit_check, fetch_args, lines_of, out_template, parse_print_line, parse_print_output, print_template,
    thumbnail_path,
};

fn png_bytes(w: u32, h: u32) -> Vec<u8> {
    let img = image::RgbImage::from_pixel(w, h, image::Rgb([200, 10, 10]));
    let mut out = Vec::new();
    image::DynamicImage::ImageRgb8(img)
        .write_to(&mut std::io::Cursor::new(&mut out), image::ImageFormat::Png)
        .unwrap();
    out
}

#[test]
fn mime_sniffing() {
    assert_eq!(sniff_mime(&[0xFF, 0xD8, 0xFF, 0xE0]), Some("image/jpeg"));
    assert_eq!(sniff_mime(&[0x89, b'P', b'N', b'G', 0x0D]), Some("image/png"));
    assert_eq!(sniff_mime(b"GIF89a"), Some("image/gif"));
    assert_eq!(sniff_mime(b"<html>"), None);
    assert_eq!(sniff_mime(&[0xFF, 0xD8]), None);
}

#[test]
fn covers_are_downscaled_jpeg() {
    let c = cover_from_download(&png_bytes(1000, 600)).unwrap().unwrap();
    assert_eq!(c.mime, "image/jpeg");
    assert_eq!(sniff_mime(&c.bytes), Some("image/jpeg"));
    let back = image::load_from_memory(&c.bytes).unwrap();
    assert_eq!((back.width(), back.height()), (500, 300));
    let small = cover_from_file_bytes("/x/cover.png", &png_bytes(40, 20)).unwrap();
    let back = image::load_from_memory(&small.bytes).unwrap();
    assert_eq!((back.width(), back.height()), (40, 20));
}

#[test]
fn undecodable_covers() {
    assert!(cover_from_download(b"not an image").unwrap().is_none());
    match cover_from_file_bytes("/x/cover.png", b"junk") {
        Err(Error::CoverPreprocess { path, .. }) => assert_eq!(path, "/x/cover.png"),
        _ => panic!("expected CoverPreprocess"),
    }
}

#[test]
fn itunes_terms() {
    assert_eq!(norm_title("Abbey Road (Remastered)!"), "abbeyroadremastered");
    assert_eq!(itunes_album_term("Single Title - Single"), "Single Title");
    assert_eq!(itunes_album_term("Side A / Side B"), "Side A");
    assert_eq!(itunes_album_term(" Five Songs - EP "), "Five Songs");
    assert_eq!(itunes_artist_term("A x B × C"), "A & B & C");
    assert_eq!(itunes_search_term("A x B", "Album - EP"), Some("A & B Album".to_string()));
    assert_eq!(itunes_search_term("", "Album"), None);
    assert_eq!(itunes_search_term("A", ""), None);
}

fn res(name: &str, artist: &str, url: Option<&str>) -> ItunesResult {
    ItunesResult {
        collection_name: name.to_string(),
        artwork_url: url.map(|s| s.to_string()),
        artist_name: artist.to_string(),
    }
}

#[test]
fn itunes_artwork_choice() {
    let rs = vec![
        res("Other", "Someone", Some("u0")),
        res("The Album (Deluxe)", "Band", Some("u1")),
        res("The Album", "Band", Some("u2")),
    ];
    assert_eq!(pick_itunes_artwork(&rs, "The Album"), Some("u1".to_string()));
    let rs = vec![res("Unrelated", "The Band", Some("u0"))];
    assert_eq!(pick_itunes_artwork(&rs, "Missing"), Some("u0".to_string()));
    // no collection-name match: the first result wins, whoever its artist is
    let rs = vec![res("Unrelated", "Someone Else", Some("u0")), res("Other", "Band", Some("u1"))];
    assert_eq!(pick_itunes_artwork(&rs, "Missing"), Some("u0".to_string()));
    let rs = vec![res("Unrelated", "Someone Else", None), res("Other", "Band", Some("u1"))];
    assert_eq!(pick_itunes_artwork(&rs, "Missing"), None);
    assert_eq!(pick_itunes_artwork(&[], "Missing"), None);
    assert_eq!(
        big_artwork_url("https://x/100x100bb.jpg"),
        "https://x/1000x1000bb.jpg"
    );
}

#[test]
fn cover_cache_rules() {
    let jpeg = [0xFF, 0xD8, 0xFF, 0x00];
    assert!(matches!(cache_verdict(10, 0, &[], 100, 20), CacheVerdict::Negative));
    assert!(matches!(cache_verdict(20, 0, &[], 100, 20), CacheVerdict::Negative));
    assert!(matches!(cache_verdict(20, 1, &[], 100, 20), CacheVerdict::Miss));
    assert!(matches!(cache_verdict(50, 0, &jpeg, 100, 20), CacheVerdict::Positive("image/jpeg")));
    assert!(matches!(cache_verdict(101, 0, &jpeg, 100, 20), CacheVerdict::Miss));
    assert!(matches!(cache_verdict(5, 0, b"junk", 100, 20), CacheVerdict::Corrupt));
    assert_eq!(cover_cache_path("/c", "rel.fb"), "/c/rel.fb.front-500");
    assert_eq!(caa_url("https://coverartarchive.org", "release/x"), "https://coverartarchive.org/release/x/front-500");
}

#[test]
fn postfix_keys() {
    assert_eq!(normalize_key("album artist"), "ALBUMARTIST");
    assert_eq!(normalize_key("Music_Brainz_TrackId"), "MUSICBRAINZTRACKID");
    assert!(is_allowed("title"));
    assert!(is_allowed("Album Artist"));
    assert!(is_allowed("musicbrainz_albumid"));
    assert!(!is_allowed("COMMENT"));
    assert!(!is_allowed("ENCODER"));
    let keys: Vec<String> = ["ENCODER", "TITLE", "comment", "ENCODER", "Artist"].iter().map(|s| s.to_string()).collect();
    assert_eq!(junk_keys(&keys), vec!["ENCODER", "comment"]);
}

#[test]
fn postfix_report_and_quality() {
    let mut r = Report::new(3);
    assert_eq!(r.files_scanned, 3);
    assert!(!r.changed());
    r.suspicious.push(mimport_core::postfix::SuspiciousFile { path: "p".to_string(), reason: "r".to_string() });
    assert!(!r.changed());
    r.stripped_id3v2.push("p".to_string());
    assert!(r.changed());
    assert!(quality_ok("/a/x.flac", Some(44100), Some(16), 44100, 16));
    assert!(!quality_ok("/a/x.flac", Some(48000), Some(16), 44100, 16));
    assert!(quality_ok("/a/x.mp3", Some(48000), Some(16), 44100, 16));
}

#[test]
fn id3_prefix_actions() {
    assert!(id3_action(b"fLaC....", false) == Id3Action::NoPrefix);
    assert!(id3_action(b"ID3\x04\x00xxxxfLaCrest", false) == Id3Action::StripAt(9));
    assert!(id3_action(b"ID3\x04\x00xxxxfLaCrest", true) == Id3Action::Report);
    assert!(id3_action(b"ID3 no magic here", false) == Id3Action::NoMagic);
    assert!(id3_action(b"ID3", false) == Id3Action::NoMagic);
}

#[test]
fn yt_dlp_arguments() {
    let t = print_template();
    assert_eq!(t, "after_move:%(playlist_index)s\u{1f}%(id)s\u{1f}%(title)s\u{1f}%(uploader)s\u{1f}%(duration)s\u{1f}%(filepath)s");
    let a = fetch_args("/st/%(id)s.%(ext)s", "https://y/v", false, None, None);
    assert_eq!(
        a,
        vec![
            "-x".to_string(),
            "--audio-format".to_string(),
            "opus".to_string(),
            "--write-thumbnail".to_string(),
            "--convert-thumbnails".to_string(),
            "jpg".to_string(),
            "-o".to_string(),
            "/st/%(id)s.%(ext)s".to_string(),
            "--print".to_string(),
            t.clone(),
            "--no-playlist".to_string(),
            "https://y/v".to_string(),
        ]
    );
    assert_eq!(fetch_args("o", "u", true, None, None)[10], "--ignore-errors");
    let c = fetch_args("o", "u", true, Some("jar.txt"), Some("firefox"));
    assert_eq!(&c[10..], &["--cookies", "jar.txt", "--cookies-from-browser", "firefox", "--ignore-errors", "u"]);
    assert_eq!(out_template("/st"), "/st/%(id)s.%(ext)s");
    assert_eq!(thumbnail_path("/st", "abc"), "/st/abc.jpg");
}

#[test]
fn yt_dlp_output_lines() {
    assert_eq!(lines_of("a\r\nb\n\nc\n"), vec!["a", "b", "", "c"]);
    assert!(lines_of("").is_empty());
    let e = parse_print_line("3\u{1f}vid\u{1f}NA\u{1f}Up\u{1f}61.5\u{1f}/st/vid.opus").unwrap();
    assert_eq!(e.playlist_index, Some(3));
    assert_eq!(e.video_id, "vid");
    assert_eq!(e.title, None);
    assert_eq!(e.uploader.as_deref(), Some("Up"));
    assert_eq!(e.duration, "61.5");
    assert_eq!(e.path, "/st/vid.opus");
    let e = parse_print_line("NA\u{1f}v\u{1f}T\u{1f}U\u{1f}NA\u{1f}p").unwrap();
    assert_eq!(e.playlist_index, None);
    assert_eq!(parse_print_line("a\u{1f}b").unwrap_err(), "unexpected --print output shape: \"a\\u{1f}b\"");
}

#[test]
fn yt_dlp_output_parsing() {
    let out = "1\u{1f}a\u{1f}A\u{1f}U\u{1f}1\u{1f}/a.opus\n2\u{1f}b\u{1f}B\u{1f}U\u{1f}2\u{1f}/b.opus\n";
    let es = parse_print_output(out, "exit status: 0").unwrap();
    assert_eq!(es.len(), 2);
    assert_eq!(es[1].video_id, "b");
    match parse_print_output("", "exit status: 1") {
        Err(Error::ToolFailed { tool, status, stderr }) => {
            assert_eq!(tool, "yt-dlp");
            assert_eq!(status, "exit status: 1");
            assert_eq!(stderr, "no --print output captured on stdout");
        }
        _ => panic!("expected ToolFailed"),
    }
    match parse_print_output("1\u{1f}a\u{1f}A\u{1f}U\u{1f}1\u{1f}/a.opus\nbad", "s") {
        Err(Error::ToolFailed { stderr, .. }) => assert_eq!(stderr, "unexpected --print output shape: \"bad\""),
        _ => panic!("expected ToolFailed"),
    }
}

#[test]
fn yt_dlp_exit_status() {
    assert!(exit_check(true, false, "0", "").is_ok());
    assert!(exit_check(false, true, "1", "some failed").is_ok());
    let long = "e".repeat(700);
    match exit_check(false, false, "exit status: 1", &long) {
        Err(Error::ToolFailed { tool, status, stderr }) => {
            assert_eq!(tool, "yt-dlp");
            assert_eq!(status, "exit status: 1");
            assert_eq!(stderr.len(), 600);
        }
        _ => panic!("expected ToolFailed"),
    }
}
