use mimport_core::error::Error;
use mimport_core::import::{
    apply_force_mapping, disc_total_for, filename_hint, looks_like_mbid, match_tracks, plan_destinations, plan_matches,
    sanitize, tag_fields, ForceEntry, LocalTrack, MatchedTrack, TagField, SCALE,
};
use mimport_core::release::{NormalizedRelease, NormalizedTrack};

fn track(pos: Option<u32>, disc: Option<u32>, title: &str) -> NormalizedTrack {
    NormalizedTrack {
        position: pos,
        title: title.to_string(),
        length_ms: Some(1000),
        recording_id: Some(format!("rec-{title}")),
        medium_format: None,
        medium_position: disc,
        raw_position: pos.map(|p| p.to_string()),
        title_native: None,
    }
}

fn release(tracks: Vec<NormalizedTrack>) -> NormalizedRelease {
    NormalizedRelease {
        id: "a1b2c3d4-0000-1111-2222-333344445555".to_string(),
        title: "Album: Part 1".to_string(),
        status: Some("Official".to_string()),
        country: None,
        disambiguation: None,
        label: Some("Label".to_string()),
        formats: vec!["CD".to_string()],
        track_count: tracks.len() as u32,
        date: Some("1997-06-16".to_string()),
        artist_credit: Some("AC/DC".to_string()),
        artist_credit_parts: vec![],
        release_group_id: None,
        title_native: None,
        artist_credit_native: None,
        genre: None,
        tracks,
    }
}

fn local(path: &str) -> LocalTrack {
    LocalTrack { path: path.to_string(), title: None, artist: None, track_number: None, musicbrainz_recording_id: None }
}

#[test]
fn sanitized_names() {
    assert_eq!(sanitize("AC/DC: Live?"), "AC_DC_ Live_");
    assert_eq!(sanitize("  name...  "), "name");
    assert_eq!(sanitize("a<b>c|d\"e*f\\g"), "a_b_c_d_e_f_g");
    // law: no reserved character, no trailing dot
    for s in ["x.", "../..", " a:b. ", "."] {
        let out = sanitize(s);
        assert!(!out.chars().any(|c| "/\\:*?\"<>|".contains(c)));
        assert!(!out.ends_with('.'));
    }
}

#[test]
fn mbid_shape() {
    assert!(looks_like_mbid("a1b2c3d4-0000-1111-2222-333344445555"));
    assert!(!looks_like_mbid("a1b2c3d4-0000-1111-2222-3333444455555"));
    assert!(!looks_like_mbid("a1b2c3d4x0000-1111-2222-333344445555"));
}

#[test]
fn filename_hints() {
    assert_eq!(filename_hint("/x/03 - Title.flac"), (Some("Title".to_string()), Some(3)));
    assert_eq!(filename_hint("/x/Title.flac"), (Some("Title".to_string()), None));
    assert_eq!(filename_hint("/x/Artist - Title.flac"), (Some("Artist - Title".to_string()), None));
    assert_eq!(filename_hint("/x/07 -.flac"), (None, Some(7)));
}

#[test]
fn assignment_takes_cheapest_pairs() {
    let rel = release(vec![track(Some(1), None, "One"), track(Some(2), None, "Two")]);
    let locals = vec![local("/s/b.flac"), local("/s/a.flac")];
    let costs = vec![vec![900_000, 100_000], vec![100_000, 900_000]];
    let accept = vec![vec![true, true], vec![true, true]];
    let r = match_tracks(&locals, &rel, &costs, &accept);
    assert_eq!(r.matched.len(), 2);
    assert_eq!(r.matched[0].file, "/s/b.flac");
    assert_eq!(r.matched[0].title, "Two");
    assert_eq!(r.matched[1].file, "/s/a.flac");
    assert_eq!(r.matched[1].position, Some(1));
    assert!(r.unmatched_files.is_empty());
    assert!(r.missing_tracks.is_empty());
    assert!(!r.blocked());
}

#[test]
fn rejected_and_leftover_pairs() {
    let rel = release(vec![track(Some(1), None, "One"), track(Some(2), None, "Two"), track(Some(3), None, "Three")]);
    let locals = vec![local("/s/x.flac"), local("/s/y.flac")];
    let costs = vec![vec![0, SCALE, SCALE], vec![SCALE, SCALE, 800_000]];
    let accept = vec![vec![true, false, false], vec![false, false, false]];
    let r = match_tracks(&locals, &rel, &costs, &accept);
    assert_eq!(r.matched.len(), 1);
    assert_eq!(r.matched[0].file, "/s/x.flac");
    assert_eq!(r.unmatched_files, vec!["/s/y.flac"]);
    let missing: Vec<&str> = r.missing_tracks.iter().map(|m| m.title.as_str()).collect();
    assert_eq!(missing, vec!["Two", "Three"]);
    assert!(r.blocked());
    assert!(r.blocked_unmatched());
}

#[test]
fn plan_reports_every_file_and_track_once() {
    let costs = vec![vec![10, 20], vec![30, 40], vec![50, 60]];
    let accept = vec![vec![true, true], vec![true, true], vec![true, true]];
    let p = plan_matches(&costs, &accept, 2);
    let mut files: Vec<usize> = p.pairs.iter().map(|x| x.0).chain(p.unmatched_files.iter().copied()).collect();
    files.sort();
    assert_eq!(files, vec![0, 1, 2]);
    let mut tracks: Vec<usize> = p.pairs.iter().map(|x| x.1).chain(p.missing_tracks.iter().copied()).collect();
    tracks.sort();
    assert_eq!(tracks, vec![0, 1]);
    assert_eq!(p.pairs.len(), 2);
}

#[test]
fn empty_match() {
    let rel = release(vec![]);
    let r = match_tracks(&[], &rel, &vec![], &vec![]);
    assert!(r.matched.is_empty() && r.unmatched_files.is_empty() && r.missing_tracks.is_empty());
}

#[test]
fn forced_mapping_applied() {
    let rel = release(vec![track(Some(1), Some(1), "A"), track(Some(1), Some(2), "B"), track(Some(2), Some(2), "C")]);
    let locals = vec![local("/s/1.flac"), local("/s/2.flac"), local("/s/3.flac")];
    let mapping = vec![
        ForceEntry { file: "/s/2.flac".to_string(), position: 2, disc: None },
        ForceEntry { file: "/s/1.flac".to_string(), position: 1, disc: Some(2) },
    ];
    let r = apply_force_mapping(&locals, &rel, &mapping).unwrap();
    assert_eq!(r.matched.len(), 2);
    assert_eq!(r.matched[0].file, "/s/2.flac");
    assert_eq!(r.matched[0].title, "C");
    assert_eq!(r.matched[1].title, "B");
    assert_eq!(r.unmatched_files, vec!["/s/3.flac"]);
    assert_eq!(r.missing_tracks.len(), 1);
    assert_eq!(r.missing_tracks[0].title, "A");
}

#[test]
fn forced_mapping_compares_paths_by_component() {
    let rel = release(vec![track(Some(1), Some(1), "A"), track(Some(2), Some(1), "B")]);
    let locals = vec![local("/s/1.flac"), local("/s/2.flac")];
    let mapping = vec![ForceEntry { file: "/s//2.flac".to_string(), position: 1, disc: None }];
    let r = apply_force_mapping(&locals, &rel, &mapping).unwrap();
    assert_eq!(r.matched.len(), 1);
    assert_eq!(r.matched[0].file, "/s/2.flac");
    assert_eq!(r.matched[0].title, "A");
}

#[test]
fn forced_mapping_errors() {
    let rel = release(vec![track(Some(1), Some(1), "A"), track(Some(1), Some(2), "B"), track(Some(2), Some(2), "C")]);
    let locals = vec![local("/s/1.flac"), local("/s/2.flac")];
    let msg = |m: Vec<ForceEntry>| match apply_force_mapping(&locals, &rel, &m) {
        Err(Error::ForceMapping(s)) => s,
        _ => panic!("expected ForceMapping"),
    };
    assert_eq!(
        msg(vec![ForceEntry { file: "/s/9.flac".to_string(), position: 1, disc: Some(1) }]),
        "\"/s/9.flac\" is not one of the scanned local files"
    );
    assert_eq!(
        msg(vec![ForceEntry { file: "/s/1.flac".to_string(), position: 7, disc: None }]),
        "no track at position 7 in the release"
    );
    assert_eq!(
        msg(vec![ForceEntry { file: "/s/1.flac".to_string(), position: 1, disc: None }]),
        "position 1 is ambiguous across discs; specify a disc"
    );
    assert_eq!(
        msg(vec![
            ForceEntry { file: "/s/1.flac".to_string(), position: 2, disc: None },
            ForceEntry { file: "/s/2.flac".to_string(), position: 2, disc: Some(2) },
        ]),
        "multiple files map to position 2 on disc Some(2)"
    );
}

fn matched(file: &str, pos: Option<u32>, disc: Option<u32>, title: &str) -> MatchedTrack {
    MatchedTrack {
        file: file.to_string(),
        position: pos,
        medium_position: disc,
        title: title.to_string(),
        title_native: None,
        recording_id: Some("rec".to_string()),
        raw_position: pos.map(|p| p.to_string()),
    }
}

#[test]
fn destinations_single_disc() {
    let rel = release(vec![track(Some(1), Some(1), "A"), track(Some(2), Some(1), "B")]);
    let ms = vec![matched("/s/x.flac", Some(1), Some(1), "A/B?"), matched("/s/y.opus", Some(2), Some(1), "C")];
    let p = plan_destinations(&ms, &rel, "/lib");
    assert!(p.duplicate.is_none());
    assert_eq!(p.files.len(), 2);
    assert_eq!(p.files[0].source, "/s/x.flac");
    assert_eq!(p.files[0].dest, "/lib/AC_DC/Album_ Part 1 (1997)/01 - A_B_.flac");
    assert_eq!(p.files[1].dest, "/lib/AC_DC/Album_ Part 1 (1997)/02 - C.opus");
}

#[test]
fn destinations_multi_disc_and_duplicates() {
    let mut rel = release(vec![track(Some(1), Some(1), "A"), track(Some(1), Some(2), "B")]);
    rel.artist_credit = None;
    rel.date = None;
    let ms = vec![
        matched("/s/x.flac", Some(1), Some(2), "B"),
        matched("/s/y.flac", None, None, "Z"),
        matched("/s/z.flac", Some(1), Some(2), "B"),
    ];
    let p = plan_destinations(&ms, &rel, "/lib");
    assert_eq!(p.duplicate.as_deref(), Some("/lib/Unknown Artist/Album_ Part 1/02-01 - B.flac"));
    assert_eq!(p.files.len(), 2);
    assert_eq!(p.files[0].dest, "/lib/Unknown Artist/Album_ Part 1/02-01 - B.flac");
    assert_eq!(p.files[1].dest, "/lib/Unknown Artist/Album_ Part 1/01-00 - Z.flac");
}

#[test]
fn tag_field_list() {
    let mut rel = release(vec![track(Some(1), Some(1), "A"), track(Some(2), Some(1), "B"), track(Some(1), Some(2), "C")]);
    rel.title_native = Some("アルバム".to_string());
    let mut m = matched("/s/x.flac", Some(2), Some(1), "B");
    m.title_native = Some("ビー".to_string());
    assert_eq!(disc_total_for(&m, &rel), 2);
    let fields = tag_fields(&m, &rel);
    let shown: Vec<String> = fields
        .iter()
        .map(|f| match f {
            TagField::Title(s) => format!("title={s}"),
            TagField::Album(s) => format!("album={s}"),
            TagField::Artist(s) => format!("artist={s}"),
            TagField::Track(n) => format!("track={n}"),
            TagField::TrackText(s) => format!("tracktext={s}"),
            TagField::TrackTotal(n) => format!("total={n}"),
            TagField::Disc(n) => format!("disc={n}"),
            TagField::Date(s) => format!("date={s}"),
            TagField::Label(s) => format!("label={s}"),
            TagField::Genre(s) => format!("genre={s}"),
            TagField::RecordingId(s) => format!("rec={s}"),
            TagField::OriginalArtist(s) => format!("oartist={s}"),
            TagField::OriginalAlbum(s) => format!("oalbum={s}"),
            TagField::Comment(s) => format!("comment={s}"),
            TagField::ReleaseId(s) => format!("release={s}"),
        })
        .collect();
    assert_eq!(
        shown,
        vec![
            "title=B",
            "album=Album: Part 1",
            "artist=AC/DC",
            "track=2",
            "total=2",
            "disc=1",
            "date=1997-06-16",
            "label=Label",
            "rec=rec",
            "oalbum=アルバム",
            "comment=Original title: ビー",
            "release=a1b2c3d4-0000-1111-2222-333344445555",
        ]
    );
    let mut m = matched("/s/x.flac", None, None, "B");
    m.raw_position = Some("A1".to_string());
    rel.id = "not-an-id".to_string();
    assert_eq!(disc_total_for(&m, &rel), 3);
    let fields = tag_fields(&m, &rel);
    assert!(fields.iter().any(|f| matches!(f, TagField::TrackText(s) if s == "A1")));
    assert!(!fields.iter().any(|f| matches!(f, TagField::ReleaseId(_))));
}
