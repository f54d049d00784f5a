use mimport_core::error::Error;
use mimport_core::library::{
    edit_sql, escape_like, parse_edit_number, parse_edits, parse_query, parse_term, planned_rename, retain_fuzzy,
    select_sql, tag_format, tag_number, Clause, Field, LibraryTrack, MatchKind, SqlValue, TagFormat, TrackEdits,
};

fn lt(id: i64, artist: &str, album: &str, title: &str, year: Option<&str>, track: Option<i64>) -> LibraryTrack {
    LibraryTrack {
        id,
        job_id: None,
        release_mbid: Some("rel".to_string()),
        recording_id: None,
        artist: artist.to_string(),
        album: album.to_string(),
        title: title.to_string(),
        track_position: track,
        disc_position: Some(1),
        year: year.map(|s| s.to_string()),
        path: format!("/lib/{artist}/{album}/{title}.flac"),
        format: Some("flac".to_string()),
        imported_at: "now".to_string(),
    }
}

fn reason(raw: &str) -> String {
    match parse_term(raw) {
        Err(Error::QuerySyntax { term, reason }) => {
            assert_eq!(term, raw);
            reason
        }
        _ => panic!("expected QuerySyntax for {raw}"),
    }
}

#[test]
fn term_parsing() {
    let c = parse_term("artist:Boards").unwrap();
    assert!(c.field == Some(Field::Artist));
    assert!(!c.negate);
    assert!(matches!(&c.kind, MatchKind::Substring(s) if s == "Boards"));
    let c = parse_term("-TITLE:=Roygbiv").unwrap();
    assert!(c.field == Some(Field::Title) && c.negate);
    assert!(matches!(&c.kind, MatchKind::Exact(s) if s == "Roygbiv"));
    let c = parse_term("^~olsen").unwrap();
    assert!(c.field.is_none() && c.negate);
    assert!(matches!(&c.kind, MatchKind::Fuzzy(s) if s == "olsen"));
    let c = parse_term("year:1990..1999").unwrap();
    assert!(matches!(c.kind, MatchKind::Range(Some(1990), Some(1999))));
    let c = parse_term("track:..3").unwrap();
    assert!(matches!(c.kind, MatchKind::Range(None, Some(3))));
    let c = parse_term("title:1..2").unwrap();
    assert!(matches!(&c.kind, MatchKind::Substring(s) if s == "1..2"));
    let c = parse_term("\\-dash").unwrap();
    assert!(!c.negate);
    assert!(matches!(&c.kind, MatchKind::Substring(s) if s == "-dash"));
    let c = parse_term("a:").unwrap();
    assert!(c.field.is_none());
    assert!(matches!(&c.kind, MatchKind::Substring(s) if s == "a:"));
}

#[test]
fn term_errors() {
    assert_eq!(reason("-"), "empty term");
    assert_eq!(reason(""), "empty term");
    assert_eq!(reason("genre:jazz"), "unknown field prefix");
    assert_eq!(reason("year:x..2"), "range bound is not an integer");
    assert_eq!(reason("year:.."), "empty range");
    assert_eq!(reason("year:2000..1990"), "range start exceeds end");
    assert!(parse_query(&["artist:a".to_string(), "year:..".to_string()]).is_err());
    assert_eq!(parse_query(&["artist:a".to_string(), "b".to_string()]).unwrap().len(), 2);
}

#[test]
fn substring_match_folds_unicode_case() {
    let t = lt(2, "BJÖRK", "Homogenic", "Jóga", Some("1997"), Some(1));
    assert!(parse_term("artist:björk").unwrap().matches(&t));
    assert!(parse_term("jÓg").unwrap().matches(&t));
    // exact comparison folds ASCII only
    assert!(!parse_term("artist:=björk").unwrap().matches(&t));
    assert!(parse_term("artist:=bjÖrk").unwrap().matches(&t));
}

#[test]
fn clause_matching() {
    let t = lt(1, "Boards of Canada", "Geogaddi", "Dandelion", Some("2002"), Some(3));
    assert!(parse_term("canada").unwrap().matches(&t));
    assert!(parse_term("album:=geogaddi").unwrap().matches(&t));
    assert!(!parse_term("album:=geog").unwrap().matches(&t));
    assert!(parse_term("year:2000..2005").unwrap().matches(&t));
    assert!(!parse_term("year:2003..").unwrap().matches(&t));
    assert!(parse_term("track:3").unwrap().matches(&t));
    assert!(parse_term("~dandelion").unwrap().matches(&t));
    assert!(parse_term("title:~dandelon").unwrap().matches(&t));
    assert!(!parse_term("title:~xyz").unwrap().matches(&t));
    // negation law: `-t` matches exactly when `t` does not
    for term in ["canada", "album:=geogaddi", "year:2003..", "~olsen"] {
        let plain = parse_term(term).unwrap().matches(&t);
        let negated = parse_term(&format!("-{term}")).unwrap().matches(&t);
        assert_eq!(negated, !plain);
    }
    let no_year = lt(2, "a", "b", "c", None, None);
    assert!(!parse_term("year:1..3000").unwrap().matches(&no_year));
    assert!(parse_term("-year:1..3000").unwrap().matches(&no_year));
}

#[test]
fn fuzzy_rows_kept_in_order() {
    let rows = vec![
        lt(1, "a", "b", "Roygbiv", None, None),
        lt(2, "a", "b", "Turquoise Hexagon Sun", None, None),
        lt(3, "a", "b", "roygbif", None, None),
    ];
    let q = parse_query(&["title:~roygbiv".to_string(), "artist:a".to_string()]).unwrap();
    let kept: Vec<i64> = retain_fuzzy(rows, &q).iter().map(|t| t.id).collect();
    assert_eq!(kept, vec![1, 3]);
}

#[test]
fn like_escaping() {
    assert_eq!(escape_like("100%_a\\b"), "100\\%\\_a\\\\b");
}

fn texts(v: &[SqlValue]) -> Vec<String> {
    v.iter()
        .map(|x| match x {
            SqlValue::Text(s) => format!("t:{s}"),
            SqlValue::Integer(i) => format!("i:{i}"),
        })
        .collect()
}

#[test]
fn clause_sql() {
    let (sql, p) = parse_term("artist:50%").unwrap().to_sql().unwrap();
    assert_eq!(sql, "artist IS NOT NULL AND lower(artist) LIKE '%' || lower(?) || '%' ESCAPE '\\'");
    assert_eq!(texts(&p), vec!["t:50\\%"]);
    let (sql, p) = parse_term("-=x").unwrap().to_sql().unwrap();
    assert_eq!(
        sql,
        "NOT ((artist IS NOT NULL AND lower(artist) = lower(?) OR album IS NOT NULL AND lower(album) = lower(?) OR title IS NOT NULL AND lower(title) = lower(?)))"
    );
    assert_eq!(texts(&p), vec!["t:x", "t:x", "t:x"]);
    let (sql, p) = parse_term("track:2..5").unwrap().to_sql().unwrap();
    assert_eq!(sql, "track_position IS NOT NULL AND CAST(track_position AS INTEGER) BETWEEN ? AND ?");
    assert_eq!(texts(&p), vec!["i:2", "i:5"]);
    let (sql, _) = parse_term("disc:2..").unwrap().to_sql().unwrap();
    assert_eq!(sql, "disc_position IS NOT NULL AND CAST(disc_position AS INTEGER) >= ?");
    assert!(parse_term("~fuzzy").unwrap().to_sql().is_none());
}

#[test]
fn listing_sql() {
    let (sql, p) = select_sql(&[]);
    assert_eq!(sql, "SELECT * FROM library_tracks ORDER BY lower(artist), lower(album), disc_position, track_position");
    assert!(p.is_empty());
    let q: Vec<Clause> = parse_query(&["year:..2000".to_string(), "~x".to_string(), "path:=p".to_string()]).unwrap();
    let (sql, p) = select_sql(&q);
    assert_eq!(
        sql,
        "SELECT * FROM library_tracks WHERE year IS NOT NULL AND CAST(year AS INTEGER) <= ? AND path IS NOT NULL AND lower(path) = lower(?) ORDER BY lower(artist), lower(album), disc_position, track_position"
    );
    assert_eq!(texts(&p), vec!["i:2000", "t:p"]);
}

#[test]
fn edit_parsing() {
    let e = parse_edits(&["Title=New".to_string(), "track=7".to_string(), "year=1999".to_string()]).unwrap();
    assert_eq!(e.title.as_deref(), Some("New"));
    assert_eq!(e.track, Some(7));
    assert_eq!(e.year.as_deref(), Some("1999"));
    assert!(e.artist.is_none() && e.disc.is_none());
    assert!(!e.is_empty());
    assert!(parse_edits(&[]).unwrap().is_empty());
    let err = |pairs: &[&str]| match parse_edits(&pairs.iter().map(|s| s.to_string()).collect::<Vec<_>>()) {
        Err(Error::QuerySyntax { term, reason }) => (term, reason),
        _ => panic!("expected QuerySyntax"),
    };
    assert_eq!(err(&["title"]), ("title".to_string(), "expected field=value".to_string()));
    assert_eq!(err(&["title="]), ("title=".to_string(), "empty value".to_string()));
    assert_eq!(err(&["disc=two"]), ("disc=two".to_string(), "not a number".to_string()));
    assert_eq!(
        err(&["title=a", "genre=x"]),
        ("genre=x".to_string(), "unknown field (title/artist/album/year/track/disc)".to_string())
    );
    assert_eq!(parse_edit_number("t", "-3").unwrap(), -3);
}

#[test]
fn edit_statement() {
    let e = TrackEdits {
        title: Some("T".to_string()),
        artist: None,
        album: Some("A".to_string()),
        year: None,
        track: None,
        disc: Some(2),
    };
    let (sql, p) = edit_sql(42, &e, Some("/new/path.flac")).unwrap();
    assert_eq!(sql, "UPDATE library_tracks SET title = ?1, album = ?2, disc_position = ?3, path = ?4 WHERE id = ?5");
    assert_eq!(texts(&p), vec!["t:T", "t:A", "i:2", "t:/new/path.flac", "i:42"]);
    let none = TrackEdits { title: None, artist: None, album: None, year: None, track: None, disc: None };
    assert!(edit_sql(1, &none, None).is_none());
}

#[test]
fn rename_plans() {
    let mut t = lt(1, "a", "b", "New: Title", None, Some(2));
    t.path = "/lib/a/b/01 - Old.flac".to_string();
    assert_eq!(planned_rename(&t), Some("/lib/a/b/02 - New_ Title.flac".to_string()));
    t.path = "/lib/a/b/01-03 - Old.flac".to_string();
    t.disc_position = Some(2);
    t.track_position = Some(5);
    assert_eq!(planned_rename(&t), Some("/lib/a/b/02-05 - New_ Title.flac".to_string()));
    t.path = "/lib/a/b/02-05 - New_ Title.flac".to_string();
    assert_eq!(planned_rename(&t), None);
    t.track_position = Some(100);
    assert_eq!(planned_rename(&t), None);
    t.track_position = None;
    assert_eq!(planned_rename(&t), None);
    t.track_position = Some(1);
    t.path = "/lib/a/b/noext".to_string();
    assert_eq!(planned_rename(&t), None);
}

#[test]
fn tag_rewrite_paths() {
    assert!(tag_format("/x/a.FLAC") == TagFormat::Flac);
    assert!(tag_format("/x/a.opus") == TagFormat::Opus);
    assert!(tag_format("/x/a.mp3") == TagFormat::Other);
    assert!(tag_format("/x/a") == TagFormat::Other);
    assert_eq!(tag_number(-4), 0);
    assert_eq!(tag_number(12), 12);
    assert_eq!(tag_number(4_294_967_297), 1);
}
