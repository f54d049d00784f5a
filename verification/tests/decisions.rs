use mimport_core::error::Error;
use mimport_core::import::{MatchReport, MatchedTrack, MissingTrack};
use mimport_core::library::LibraryTrack;
use mimport_core::release::{NormalizedRelease, NormalizedTrack};
use mimport_core::scorer::{
    bonus_candidate, canonical_track_count, canonical_track_titles, date_key, format_class, fuzzy_match,
    is_digital_media, is_official_status, is_penalised_secondary, levenshtein, normalize_title, primary_class,
    status_class, term_hits, track_count_verdict, FormatClass, PrimaryType, StatusClass,
};
use mimport_core::tags::Unresolved;
use mimport_core::workflow::{
    check_unresolved, cover_source, group_by_release, import_blocked, is_mbid_query, map_playlist,
    select_backfill_track, synthetic_release, target_is_numeric, yt_single_track, CoverSource, PlaylistEntry,
    YtTrackFlags,
};

fn t(pos: Option<u32>, disc: Option<u32>, title: &str) -> NormalizedTrack {
    NormalizedTrack {
        position: pos,
        title: title.to_string(),
        length_ms: Some(1000),
        recording_id: Some(format!("rec-{title}")),
        medium_format: None,
        medium_position: disc,
        raw_position: pos.map(|p| p.to_string()),
        title_native: None,
    }
}

fn rel(count: u32, tracks: Vec<NormalizedTrack>) -> NormalizedRelease {
    NormalizedRelease {
        id: "r".to_string(),
        title: "Album".to_string(),
        status: Some("Official".to_string()),
        country: None,
        disambiguation: None,
        label: None,
        formats: vec![],
        track_count: count,
        date: None,
        artist_credit: Some("Artist".to_string()),
        artist_credit_parts: vec![],
        release_group_id: None,
        title_native: None,
        artist_credit_native: None,
        genre: None,
        tracks,
    }
}

#[test]
fn title_normalisation_and_distance() {
    assert_eq!(normalize_title("  Don\u{2019}t Stop \u{2014} Now  "), "don't stop - now");
    assert_eq!(normalize_title("\u{201c}Q\u{201d}"), "\"q\"");
    let a: Vec<char> = "kitten".chars().collect();
    let b: Vec<char> = "sitting".chars().collect();
    assert_eq!(levenshtein(&a, &b), 3);
    assert_eq!(levenshtein(&a, &a), 0);
    assert_eq!(levenshtein(&[], &b), 7);
}

#[test]
fn fuzzy_matching() {
    assert!(fuzzy_match("Roygbiv", "roygbiv"));
    assert!(fuzzy_match("", "  "));
    assert!(fuzzy_match("Dandelion", "Dandelon"));
    assert!(!fuzzy_match("Dandelion", "Sunshine"));
    // law: reflexive and symmetric
    for (x, y) in [("abc", "abd"), ("Music", "Muzak"), ("a", "")] {
        assert!(fuzzy_match(x, x));
        assert_eq!(fuzzy_match(x, y), fuzzy_match(y, x));
    }
}

#[test]
fn canonical_counts() {
    let rs = vec![rel(10, vec![]), rel(12, vec![]), rel(12, vec![]), rel(10, vec![]), rel(0, vec![])];
    assert_eq!(canonical_track_count(&rs), Some(10));
    let rs = vec![rel(13, vec![]), rel(12, vec![]), rel(13, vec![])];
    assert_eq!(canonical_track_count(&rs), Some(13));
    assert_eq!(canonical_track_count(&[rel(0, vec![])]), None);
    assert_eq!(canonical_track_count(&[]), None);
}

#[test]
fn canonical_titles() {
    let rs = vec![
        rel(2, vec![t(Some(1), None, "Intro"), t(Some(2), None, "Song")]),
        rel(3, vec![t(Some(1), None, "intro "), t(Some(2), None, "Song"), t(Some(3), None, "Bonus")]),
        rel(1, vec![t(Some(1), None, "Other"), t(Some(2), None, "Other")]),
    ];
    assert_eq!(canonical_track_titles(&rs), vec!["intro", "song"]);
    // ascending order, whatever order the tracks come in
    let rs = vec![
        rel(2, vec![t(Some(1), None, "Zulu"), t(Some(2), None, "Alpha")]),
        rel(2, vec![t(Some(1), None, "Mike"), t(Some(2), None, "Zulu"), t(Some(3), None, "Alpha")]),
    ];
    assert_eq!(canonical_track_titles(&rs), vec!["alpha", "mike", "zulu"]);
}

#[test]
fn score_components() {
    assert!(matches!(status_class(&Some("OFFICIAL".to_string())), Some(StatusClass::Official)));
    assert!(matches!(status_class(&Some("Bootleg".to_string())), Some(StatusClass::Other(s)) if s == "bootleg"));
    assert!(status_class(&None).is_none());
    assert!(is_digital_media(&["CD".to_string(), "Digital Media".to_string()]));
    assert!(!is_digital_media(&["CD".to_string()]));
    assert!(format_class("12\" Vinyl") == ("12\" vinyl".to_string(), FormatClass::Vinyl));
    assert!(format_class("Cassette").1 == FormatClass::OtherPhysical);
    assert!(format_class("Enhanced CD").1 == FormatClass::Cd);
    assert!(format_class("SACD").1 == FormatClass::Cd);
    assert!(format_class("Blu-ray").1 == FormatClass::OtherNonDigital);
    assert_eq!(track_count_verdict(Some(10), 10), Some(true));
    assert_eq!(track_count_verdict(Some(10), 12), Some(false));
    assert_eq!(track_count_verdict(Some(10), 0), None);
    assert_eq!(track_count_verdict(None, 4), None);
    let terms = vec!["live".to_string(), "remix".to_string(), "edit".to_string()];
    assert_eq!(term_hits("Song (LIVE Remix)", &terms), 2);
    assert_eq!(term_hits("Song", &terms), 0);
    assert!(primary_class(&Some("EP".to_string())) == Some(PrimaryType::Ep));
    assert!(primary_class(&Some("Broadcast".to_string())).is_none());
    assert!(is_penalised_secondary("Live", &["live".to_string()]));
    assert!(!is_penalised_secondary("Soundtrack", &["live".to_string()]));
    assert!(is_official_status(&Some("Official".to_string())));
    assert!(!is_official_status(&Some("Promotion".to_string())));
    assert!(!is_official_status(&None));
}

#[test]
fn bonus_tracks() {
    let canonical = vec!["song".to_string()];
    assert!(bonus_candidate(&t(Some(3), None, "Hidden Gem"), &canonical, false));
    assert!(!bonus_candidate(&t(Some(3), None, "Song"), &canonical, false));
    assert!(!bonus_candidate(&t(Some(3), None, "Song (Demo)"), &canonical, false));
    assert!(!bonus_candidate(&t(Some(3), None, "Hidden Gem"), &canonical, true));
    let mut dvd = t(Some(3), None, "Hidden Gem");
    dvd.medium_format = Some("DVD-Video".to_string());
    assert!(!bonus_candidate(&dvd, &canonical, false));
    let mut nolen = t(Some(3), None, "Hidden Gem");
    nolen.length_ms = None;
    assert!(!bonus_candidate(&nolen, &canonical, false));
}

#[test]
fn date_keys() {
    assert_eq!(date_key(&Some("2001-02".to_string())), (0, "2001-02".to_string()));
    assert_eq!(date_key(&Some("  ".to_string())), (1, String::new()));
    assert_eq!(date_key(&None), (1, String::new()));
}

#[test]
fn queries_and_targets() {
    assert_eq!(is_mbid_query("mbid:abc-123"), Some("abc-123".to_string()));
    assert_eq!(is_mbid_query("Boards of Canada"), None);
    assert!(target_is_numeric("42"));
    assert!(target_is_numeric("-1"));
    assert!(!target_is_numeric("My Album"));
}

fn report(unmatched: usize, missing: usize) -> MatchReport {
    MatchReport {
        matched: vec![],
        unmatched_files: (0..unmatched).map(|i| format!("/f{i}")).collect(),
        missing_tracks: (0..missing)
            .map(|i| MissingTrack { position: Some(i as u32), medium_position: None, title: "x".to_string(), recording_id: None })
            .collect(),
    }
}

#[test]
fn import_gate() {
    assert!(!import_blocked(&report(0, 0), false, false));
    assert!(import_blocked(&report(0, 1), false, false));
    assert!(!import_blocked(&report(0, 1), false, true));
    assert!(import_blocked(&report(1, 0), false, true));
    assert!(!import_blocked(&report(3, 3), true, false));
}

#[test]
fn cover_sources() {
    assert!(matches!(cover_source(true, false, &Some("c.jpg".to_string()), true), CoverSource::Nothing));
    assert!(matches!(cover_source(false, true, &None, true), CoverSource::Nothing));
    assert!(matches!(cover_source(false, false, &Some("c.jpg".to_string()), true), CoverSource::Local(p) if p == "c.jpg"));
    assert!(matches!(cover_source(false, false, &None, true), CoverSource::Archive));
    assert!(matches!(cover_source(false, false, &None, false), CoverSource::Nothing));
}

#[test]
fn unresolved_gate() {
    let u = vec![
        Unresolved { field: "album".to_string(), native: "東京".to_string() },
        Unresolved { field: "track 2".to_string(), native: "夜".to_string() },
    ];
    match check_unresolved(&u, false) {
        Err(Error::UnresolvedTitles(m)) => assert_eq!(m, "  album: 東京\n  track 2: 夜"),
        _ => panic!("expected UnresolvedTitles"),
    }
    assert!(check_unresolved(&u, true).is_ok());
    assert!(check_unresolved(&[], false).is_ok());
}

#[test]
fn synthetic_video_release() {
    let r = synthetic_release(&None, &Some("Uploader".to_string()), &Some("2020".to_string()));
    assert_eq!(r.id, "");
    assert_eq!(r.title, "Unknown Album");
    assert_eq!(r.artist_credit.as_deref(), Some("Uploader"));
    assert_eq!(r.date.as_deref(), Some("2020"));
    assert_eq!(r.formats, vec!["Opus"]);
    assert!(r.tracks.is_empty());
    let r = synthetic_release(&Some("Mix".to_string()), &None, &None);
    assert_eq!(r.title, "Mix");
    assert!(r.artist_credit.is_none());
}

#[test]
fn backfill_selection() {
    let tracks = vec![t(Some(1), Some(1), "A"), t(Some(1), Some(2), "B"), t(Some(2), None, "C")];
    assert_eq!(select_backfill_track(&tracks, "rel", 1, Some(2)).unwrap(), 1);
    assert_eq!(select_backfill_track(&tracks, "rel", 2, Some(1)).unwrap(), 2);
    assert_eq!(select_backfill_track(&tracks, "rel", 2, None).unwrap(), 2);
    match select_backfill_track(&tracks, "rel", 1, None) {
        Err(Error::YtTrackNotFound { release_mbid, position }) => {
            assert_eq!(release_mbid, "rel");
            assert_eq!(position, 1);
        }
        _ => panic!("ambiguous position must fail"),
    }
    assert!(matches!(select_backfill_track(&tracks, "rel", 9, None), Err(Error::YtTrackNotFound { .. })));
}

#[test]
fn single_video_track() {
    let flags = YtTrackFlags { title: None, artist: Some("Flag".to_string()), track: None, disc: Some(3) };
    let mut back = t(Some(4), Some(1), "Backfilled");
    back.title_native = Some("ネイティブ".to_string());
    let (m, artist) = yt_single_track("/st/v.opus", &flags, Some(&back), &Some("Release Artist".to_string())).unwrap();
    assert_eq!(m.file, "/st/v.opus");
    assert_eq!(m.title, "Backfilled");
    assert_eq!(m.position, Some(4));
    assert_eq!(m.medium_position, Some(3));
    assert_eq!(m.recording_id.as_deref(), Some("rec-Backfilled"));
    assert_eq!(m.title_native.as_deref(), Some("ネイティブ"));
    assert_eq!(artist.as_deref(), Some("Release Artist"));
    let flags = YtTrackFlags { title: Some("Given".to_string()), artist: Some("Flag".to_string()), track: Some(7), disc: None };
    let (m, artist) = yt_single_track("/st/v.opus", &flags, Some(&back), &None).unwrap();
    assert_eq!(m.title, "Given");
    assert_eq!(m.position, Some(7));
    assert!(m.title_native.is_none());
    assert_eq!(artist.as_deref(), Some("Flag"));
    let (m, _) = yt_single_track("/st/v.opus", &flags, None, &None).unwrap();
    assert!(m.recording_id.is_none());
    let none = YtTrackFlags { title: None, artist: None, track: None, disc: None };
    assert!(matches!(yt_single_track("/st/v.opus", &none, None, &None), Err(Error::YtTitleRequired)));
}

#[test]
fn playlist_mapping() {
    let r = rel(3, vec![t(Some(1), None, "One"), t(Some(2), None, "Two"), t(Some(2), None, "Two bis")]);
    let entries = vec![
        PlaylistEntry { path: "/st/a.opus".to_string(), playlist_index: Some(2) },
        PlaylistEntry { path: "/st/b.opus".to_string(), playlist_index: None },
        PlaylistEntry { path: "/st/c.opus".to_string(), playlist_index: Some(9) },
        PlaylistEntry { path: "/st/d.opus".to_string(), playlist_index: None },
    ];
    let (matched, skipped): (Vec<MatchedTrack>, Vec<u32>) = map_playlist(&entries, &r);
    let got: Vec<(&str, &str)> = matched.iter().map(|m| (m.file.as_str(), m.title.as_str())).collect();
    assert_eq!(got, vec![("/st/a.opus", "Two"), ("/st/b.opus", "Two")]);
    assert_eq!(skipped, vec![9, 4]);
}

fn lib(id: i64, rel: Option<&str>) -> LibraryTrack {
    LibraryTrack {
        id,
        job_id: None,
        release_mbid: rel.map(|s| s.to_string()),
        recording_id: None,
        artist: "a".to_string(),
        album: "b".to_string(),
        title: "c".to_string(),
        track_position: None,
        disc_position: None,
        year: None,
        path: format!("/p{id}"),
        format: None,
        imported_at: String::new(),
    }
}

#[test]
fn cover_groups() {
    let tracks = vec![lib(1, Some("zz")), lib(2, None), lib(3, Some("aa")), lib(4, Some("zz")), lib(5, None)];
    let groups = group_by_release(&tracks);
    let shown: Vec<(Option<String>, Vec<usize>)> = groups.into_iter().collect();
    assert_eq!(
        shown,
        vec![(None, vec![1, 4]), (Some("aa".to_string()), vec![2]), (Some("zz".to_string()), vec![0, 3])]
    );
    assert!(group_by_release(&[]).is_empty());
}
