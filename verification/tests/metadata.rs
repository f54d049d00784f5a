use std::collections::BTreeMap;
use mimport_core::error::Error;
use mimport_core::lidarr::{AlbumResource, MediaResource, ReleaseResource, TrackResource};
use mimport_core::mb::{
    Alias, ArtistCreditItem, ArtistRef, Label, LabelInfo, Media, Recording, Release, ReleaseGroup, Track,
};
use mimport_core::release::{
    from_lidarr_release, from_mb_release, group_from_lidarr, group_from_mb, ArtistCreditPart, NormalizedRelease,
    NormalizedTrack,
};
use mimport_core::romanize::{is_non_latin, pick_alias};
use mimport_core::tags::{
    alias_requests, format_unresolved, resolve, AliasAnswers, FlagOverrides, TagOverrides,
    Unresolved,
};

fn mb_track(number: &str, title: &str, len: Option<u64>, rec_len: Option<u64>) -> Track {
    Track {
        id: format!("t{number}"),
        number: number.to_string(),
        title: title.to_string(),
        length: len,
        recording: Recording { id: format!("rec{number}"), title: title.to_string(), length: rec_len },
    }
}

fn mb_release() -> Release {
    Release {
        id: "rel".to_string(),
        title: "Album".to_string(),
        status: Some("Official".to_string()),
        date: Some("2001-05-02".to_string()),
        country: Some("JP".to_string()),
        disambiguation: None,
        media: vec![
            Media {
                format: Some("CD".to_string()),
                position: Some(1),
                track_count: 2,
                tracks: vec![mb_track("1", "One", Some(1000), None), mb_track("A2", "Two", None, Some(2000))],
            },
            Media { format: None, position: Some(2), track_count: 1, tracks: vec![mb_track("1", "Three", None, None)] },
        ],
        label_info: vec![LabelInfo { label: None }, LabelInfo { label: Some(Label { name: "L2".to_string() }) }],
        artist_credit: vec![
            ArtistCreditItem {
                name: "A".to_string(),
                join_phrase: " & ".to_string(),
                artist: ArtistRef { id: "a1".to_string(), name: "A".to_string() },
            },
            ArtistCreditItem {
                name: "B".to_string(),
                join_phrase: "".to_string(),
                artist: ArtistRef { id: "b1".to_string(), name: "B".to_string() },
            },
        ],
        release_group: Some(ReleaseGroup {
            id: "rg".to_string(),
            title: "Album".to_string(),
            primary_type: Some("Album".to_string()),
            secondary_types: vec!["Live".to_string()],
        }),
    }
}

#[test]
fn release_from_musicbrainz() {
    let n = from_mb_release(mb_release());
    assert_eq!(n.id, "rel");
    assert_eq!(n.track_count, 3);
    assert_eq!(n.formats, vec!["CD"]);
    // the first label entry has no label: none is taken
    assert_eq!(n.label, None);
    assert_eq!(n.artist_credit.as_deref(), Some("A & B"));
    assert_eq!(n.artist_credit_parts.len(), 2);
    assert_eq!(n.artist_credit_parts[1].id, "b1");
    assert_eq!(n.release_group_id.as_deref(), Some("rg"));
    assert_eq!(n.tracks.len(), 3);
    assert_eq!(n.tracks[0].position, Some(1));
    assert_eq!(n.tracks[0].length_ms, Some(1000));
    assert_eq!(n.tracks[1].position, None);
    assert_eq!(n.tracks[1].raw_position.as_deref(), Some("A2"));
    assert_eq!(n.tracks[1].length_ms, Some(2000));
    assert_eq!(n.tracks[2].medium_position, Some(2));
    assert_eq!(n.tracks[2].medium_format, None);
    assert_eq!(n.tracks[2].recording_id.as_deref(), Some("rec1"));
    assert_eq!(n.year().as_deref(), Some("2001"));
}

#[test]
fn release_from_lidarr() {
    let r = ReleaseResource {
        id: "lr".to_string(),
        title: "T".to_string(),
        status: None,
        disambiguation: None,
        country: vec!["GB".to_string(), "US".to_string()],
        label: vec![],
        media: vec![
            MediaResource { position: Some(1), format: Some("Vinyl".to_string()) },
            MediaResource { position: Some(2), format: None },
        ],
        release_date: Some("1999".to_string()),
        track_count: 7,
        tracks: vec![TrackResource {
            id: "x".to_string(),
            recording_id: Some("r".to_string()),
            old_recording_ids: vec![],
            track_name: "Song".to_string(),
            track_number: Some("3".to_string()),
            duration_ms: Some(5),
            medium_number: Some(1),
        }],
    };
    let n = from_lidarr_release(r);
    assert_eq!(n.country.as_deref(), Some("GB"));
    assert_eq!(n.label, None);
    assert_eq!(n.formats, vec!["Vinyl"]);
    assert_eq!(n.track_count, 7);
    assert!(n.artist_credit.is_none());
    assert_eq!(n.tracks[0].position, Some(3));
    assert_eq!(n.tracks[0].medium_format.as_deref(), Some("Vinyl"));
    assert_eq!(n.tracks[0].raw_position, None);
    assert_eq!(n.year().as_deref(), Some("1999"));
}

#[test]
fn release_groups() {
    let g = group_from_mb(&mb_release().release_group.unwrap());
    assert_eq!(g.primary_type.as_deref(), Some("Album"));
    assert_eq!(g.secondary_types, vec!["Live"]);
    let a = AlbumResource {
        id: "a".to_string(),
        title: "t".to_string(),
        disambiguation: None,
        release_date: None,
        album_type: Some("EP".to_string()),
        secondary_types: vec![],
        releases: vec![],
    };
    let g = group_from_lidarr(&a);
    assert_eq!(g.primary_type.as_deref(), Some("EP"));
    assert!(g.secondary_types.is_empty());
}

#[test]
fn script_detection() {
    assert!(is_non_latin("東京"));
    assert!(is_non_latin("abc ひらがな"));
    assert!(is_non_latin("한국어"));
    assert!(!is_non_latin("Café"));
    assert!(!is_non_latin("Москва"));
}

fn alias(name: &str, primary: Option<bool>, locale: Option<&str>, kind: Option<&str>) -> Alias {
    Alias {
        name: name.to_string(),
        sort_name: None,
        alias_type: kind.map(|s| s.to_string()),
        primary,
        locale: locale.map(|s| s.to_string()),
    }
}

#[test]
fn alias_choice() {
    let aliases = vec![
        alias("Tokyo Search", Some(true), Some("en"), Some("Search hint")),
        alias("東京", Some(true), Some("ja"), None),
        alias("Tokyo (fr)", None, Some("fr"), None),
        alias("Tokyo", Some(true), Some("en_US"), None),
        alias("Tokio", Some(true), Some("en"), None),
    ];
    assert_eq!(pick_alias(&aliases), Some("Tokyo".to_string()));
    let aliases = vec![alias("Tokyo (fr)", None, Some("fr"), None), alias("Tokyo (en)", None, Some("en"), None)];
    assert_eq!(pick_alias(&aliases), Some("Tokyo (en)".to_string()));
    assert_eq!(pick_alias(&[alias("東京", Some(true), None, None)]), None);
    assert_eq!(pick_alias(&[]), None);
}

fn overrides() -> TagOverrides {
    TagOverrides {
        artist: None,
        album: Some("File Album".to_string()),
        date: Some("2000".to_string()),
        label: None,
        genre: None,
        cover: None,
        tracks: BTreeMap::new(),
    }
}

#[test]
fn flags_win_over_file() {
    let mut o = overrides();
    let r = o.apply_flag_overrides(FlagOverrides {
        artist: Some("Flag Artist".to_string()),
        album: Some("Flag Album".to_string()),
        date: None,
        label: None,
        genre: Some("Ambient".to_string()),
        cover: None,
        track_titles: vec!["2=Second".to_string(), "1=First".to_string(), "2=Again".to_string()],
    });
    assert!(r.is_ok());
    assert_eq!(o.artist.as_deref(), Some("Flag Artist"));
    assert_eq!(o.album.as_deref(), Some("Flag Album"));
    assert_eq!(o.date.as_deref(), Some("2000"));
    assert_eq!(o.genre.as_deref(), Some("Ambient"));
    assert_eq!(o.tracks.into_iter().collect::<Vec<_>>(), vec![(1, "First".to_string()), (2, "Again".to_string())]);
}

#[test]
fn malformed_track_title_flags() {
    let mut o = overrides();
    let r = o.apply_flag_overrides(FlagOverrides {
        artist: None,
        album: None,
        date: None,
        label: None,
        genre: None,
        cover: None,
        track_titles: vec!["3=Ok".to_string(), "no equals".to_string(), "4=Late".to_string()],
    });
    match r {
        Err(Error::TagOverrides(m)) => assert_eq!(m, "--track-title \"no equals\" must be \"<position>=<title>\""),
        _ => panic!("expected TagOverrides"),
    }
    assert_eq!(o.tracks.into_iter().collect::<Vec<_>>(), vec![(3, "Ok".to_string())]);
    let mut o = overrides();
    let r = o.apply_flag_overrides(FlagOverrides {
        artist: None,
        album: None,
        date: None,
        label: None,
        genre: None,
        cover: None,
        track_titles: vec!["x=Title".to_string()],
    });
    match r {
        Err(Error::TagOverrides(m)) => assert_eq!(m, "--track-title \"x=Title\" has a non-numeric position"),
        _ => panic!("expected TagOverrides"),
    }
}

fn nt(pos: u32, title: &str, rec: &str) -> NormalizedTrack {
    NormalizedTrack {
        position: Some(pos),
        title: title.to_string(),
        length_ms: Some(1),
        recording_id: Some(rec.to_string()),
        medium_format: None,
        medium_position: None,
        raw_position: Some(pos.to_string()),
        title_native: None,
    }
}

fn native_release() -> NormalizedRelease {
    NormalizedRelease {
        id: "r".to_string(),
        title: "東京".to_string(),
        status: None,
        country: None,
        disambiguation: None,
        label: Some("L".to_string()),
        formats: vec![],
        track_count: 3,
        date: Some("2010".to_string()),
        artist_credit: Some("歌手 & Band".to_string()),
        artist_credit_parts: vec![
            ArtistCreditPart { id: "a1".to_string(), name: "歌手".to_string(), join_phrase: " & ".to_string() },
            ArtistCreditPart { id: "a2".to_string(), name: "Band".to_string(), join_phrase: "".to_string() },
        ],
        release_group_id: Some("rg".to_string()),
        title_native: None,
        artist_credit_native: None,
        genre: None,
        tracks: vec![nt(1, "夜", "rec1"), nt(2, "Day", "rec2"), nt(3, "朝", "rec3")],
    }
}

fn no_overrides() -> TagOverrides {
    TagOverrides { artist: None, album: None, date: None, label: None, genre: None, cover: None, tracks: BTreeMap::new() }
}

#[test]
fn lookups_requested_for_native_fields() {
    let r = native_release();
    let q = alias_requests(&r, &no_overrides());
    assert_eq!(q.release_group.as_deref(), Some("rg"));
    assert_eq!(q.artists, vec![Some("a1".to_string()), None]);
    assert_eq!(q.recordings, vec![Some("rec1".to_string()), None, Some("rec3".to_string())]);
    let mut o = no_overrides();
    o.album = Some("Tokyo".to_string());
    o.tracks = BTreeMap::from([(1, "Night".to_string())]);
    let q = alias_requests(&r, &o);
    assert_eq!(q.release_group, None);
    assert_eq!(q.recordings, vec![None, None, Some("rec3".to_string())]);
}

#[test]
fn resolution_with_aliases_and_gaps() {
    let mut r = native_release();
    let answers = AliasAnswers {
        release_group: Some(vec![alias("Tokyo", Some(true), Some("en"), None)]),
        artists: vec![Some(vec![alias("Kashu", None, None, None)]), None],
        recordings: vec![Some(vec![alias("Yoru", None, None, None)]), None, None],
    };
    let mut o = no_overrides();
    o.genre = Some("Pop".to_string());
    let u = resolve(&mut r, &o, &answers);
    assert_eq!(r.title, "Tokyo");
    assert_eq!(r.title_native.as_deref(), Some("東京"));
    assert_eq!(r.artist_credit.as_deref(), Some("Kashu & Band"));
    assert_eq!(r.artist_credit_native.as_deref(), Some("歌手 & Band"));
    assert_eq!(r.tracks[0].title, "Yoru");
    assert_eq!(r.tracks[0].title_native.as_deref(), Some("夜"));
    assert_eq!(r.tracks[1].title, "Day");
    assert_eq!(r.tracks[2].title, "朝");
    assert_eq!(r.genre.as_deref(), Some("Pop"));
    assert_eq!(r.date.as_deref(), Some("2010"));
    assert_eq!(u.len(), 1);
    assert_eq!(u[0].field, "track 3");
    assert_eq!(u[0].native, "朝");
}

#[test]
fn unresolved_when_nothing_helps() {
    let mut r = native_release();
    let answers = AliasAnswers { release_group: None, artists: vec![None, None], recordings: vec![None, None, None] };
    let u = resolve(&mut r, &no_overrides(), &answers);
    let fields: Vec<&str> = u.iter().map(|x| x.field.as_str()).collect();
    assert_eq!(fields, vec!["album", "artist", "track 1", "track 3"]);
    assert_eq!(r.title, "東京");
    assert!(r.title_native.is_none());
    assert_eq!(
        format_unresolved(&u),
        "  album: 東京\n  artist: 歌手 & Band\n  track 1: 夜\n  track 3: 朝"
    );
}

#[test]
fn overrides_replace_native_fields() {
    let mut r = native_release();
    let mut o = no_overrides();
    o.album = Some("Tokyo".to_string());
    o.artist = Some("Singer & Band".to_string());
    o.tracks = BTreeMap::from([(1, "Night".to_string()), (3, "Morning".to_string())]);
    o.label = Some("New Label".to_string());
    let answers = AliasAnswers { release_group: None, artists: vec![None, None], recordings: vec![None, None, None] };
    let u = resolve(&mut r, &o, &answers);
    assert!(u.is_empty());
    assert_eq!(r.title, "Tokyo");
    assert_eq!(r.title_native.as_deref(), Some("東京"));
    assert_eq!(r.artist_credit.as_deref(), Some("Singer & Band"));
    assert_eq!(r.tracks[2].title, "Morning");
    assert_eq!(r.label.as_deref(), Some("New Label"));
}

#[test]
fn unresolved_listing_format() {
    let u = vec![Unresolved { field: "album".to_string(), native: "x".to_string() }];
    assert_eq!(format_unresolved(&u), "  album: x");
    assert_eq!(format_unresolved(&[]), "");
}
