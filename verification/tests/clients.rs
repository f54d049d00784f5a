use mimport_core::error::Error;
use mimport_core::lidarr;
use mimport_core::mb::{
    artist_search_query, backoff_millis, escape_lucene, fetch_step, join_artist_credit, lucene_phrase,
    not_found, path_segments_of, recording_search_query, request_url, retry_after_secs, status_error,
    trim_end_char_str, trim_start_char_str, urlencode, ArtistCreditItem, ArtistRef, FetchAction, FetchEvent,
};

fn credit(name: &str, join: &str) -> ArtistCreditItem {
    ArtistCreditItem {
        name: name.to_string(),
        join_phrase: join.to_string(),
        artist: ArtistRef { id: "id".to_string(), name: name.to_string() },
    }
}

#[test]
fn artist_credit_joined() {
    assert_eq!(join_artist_credit(&[]), None);
    assert_eq!(
        join_artist_credit(&[credit("A", " & "), credit("B", " feat. "), credit("C", "")]),
        Some("A & B feat. C".to_string())
    );
}

#[test]
fn lucene_escaping() {
    assert_eq!(escape_lucene("AC/DC (live)!"), "AC\\/DC \\(live\\)\\!");
    assert_eq!(escape_lucene("plain"), "plain");
    assert_eq!(lucene_phrase("say \"hi\" \\ now"), "\"say \\\"hi\\\" \\\\ now\"");
}

#[test]
fn search_queries() {
    assert_eq!(artist_search_query("Boards of Canada"), Some("artist:\"Boards of Canada\"".to_string()));
    assert_eq!(recording_search_query("Roygbiv"), Some("recording:\"Roygbiv\"".to_string()));
    assert_eq!(artist_search_query("   "), None);
}

#[test]
fn url_building() {
    assert_eq!(urlencode("a b/ü~"), "a%20b%2F%C3%BC~");
    assert_eq!(
        request_url("https://musicbrainz.org/ws/2", "/artist", &[("query", "a b"), ("limit", "5")]),
        "https://musicbrainz.org/ws/2/artist?fmt=json&query=a%20b&limit=5"
    );
    assert_eq!(request_url("b", "/p", &[]), "b/p?fmt=json");
    assert_eq!(lidarr::request_url("https://api", "/search", &[]), "https://api/search");
    assert_eq!(
        lidarr::request_url("https://api", "/search", &[("type", "all"), ("query", "a&b")]),
        "https://api/search?type=all&query=a%26b"
    );
}

#[test]
fn trimming_chars() {
    assert_eq!(trim_end_char_str("base///", '/'), "base");
    assert_eq!(trim_start_char_str("//p/q", '/'), "p/q");
}

#[test]
fn backoff_doubles_and_caps() {
    assert_eq!(backoff_millis(0), 500);
    assert_eq!(backoff_millis(1), 1000);
    assert_eq!(backoff_millis(3), 4000);
    assert_eq!(backoff_millis(6), 32000);
    assert_eq!(backoff_millis(40), 32000);
}

#[test]
fn retry_after_header() {
    assert_eq!(retry_after_secs(None), None);
    assert_eq!(retry_after_secs(Some("7")), Some(7));
    assert_eq!(retry_after_secs(Some("3600")), Some(60));
    assert_eq!(retry_after_secs(Some("Wed, 21 Oct 2015 07:28:00 GMT")), None);
}

#[test]
fn retry_policy() {
    assert!(fetch_step(false, 1, 3, FetchEvent::Success) == FetchAction::Done);
    assert!(fetch_step(false, 1, 3, FetchEvent::TransportFailed) == FetchAction::Retry { sleep_millis: 1000 });
    assert!(fetch_step(false, 4, 3, FetchEvent::TransportFailed) == FetchAction::FailTransport);
    assert!(
        fetch_step(false, 2, 3, FetchEvent::Status { code: 503, retry_after: Some(9) })
            == FetchAction::Retry { sleep_millis: 9000 }
    );
    assert!(
        fetch_step(false, 2, 3, FetchEvent::Status { code: 503, retry_after: None })
            == FetchAction::Retry { sleep_millis: 2000 }
    );
    // a bare 500 is retried by the proxy client only
    assert!(fetch_step(false, 1, 3, FetchEvent::Status { code: 500, retry_after: None }) == FetchAction::FailStatus);
    assert!(
        fetch_step(true, 1, 3, FetchEvent::Status { code: 500, retry_after: None })
            == FetchAction::Retry { sleep_millis: 1000 }
    );
    assert!(fetch_step(false, 4, 3, FetchEvent::Status { code: 429, retry_after: None }) == FetchAction::FailStatus);
    assert!(fetch_step(false, 1, 3, FetchEvent::Status { code: 404, retry_after: None }) == FetchAction::FailStatus);
}

#[test]
fn path_segments() {
    assert_eq!(path_segments_of("/release/abc/extra"), ("release".to_string(), "abc".to_string()));
    assert_eq!(path_segments_of("artist"), ("artist".to_string(), "".to_string()));
}

#[test]
fn mb_errors() {
    match not_found("/release-group/xyz") {
        Error::MbNotFound { entity, mbid } => {
            assert_eq!(entity, "release-group");
            assert_eq!(mbid, "xyz");
        }
        _ => panic!("expected MbNotFound"),
    }
    match not_found("/label/xyz") {
        Error::MbNotFound { entity, .. } => assert_eq!(entity, "entity"),
        _ => panic!("expected MbNotFound"),
    }
    assert!(matches!(status_error("/artist/a", 503, 6, String::new()), Error::MbRateLimited { attempts: 6 }));
    match status_error("/artist/a", 400, 1, "bad".to_string()) {
        Error::Mb { what, status, body } => {
            assert_eq!(what, "request");
            assert_eq!(status, 400);
            assert_eq!(body, "bad");
        }
        _ => panic!("expected Mb"),
    }
    assert!(matches!(status_error("/artist/a", 404, 1, String::new()), Error::MbNotFound { .. }));
}

#[test]
fn lidarr_errors() {
    match lidarr::not_found("/album/q1") {
        Error::LidarrNotFound { entity, mbid } => {
            assert_eq!(entity, "album");
            assert_eq!(mbid, "q1");
        }
        _ => panic!("expected LidarrNotFound"),
    }
    match lidarr::not_found("/search") {
        Error::LidarrNotFound { entity, mbid } => {
            assert_eq!(entity, "entity");
            assert_eq!(mbid, "");
        }
        _ => panic!("expected LidarrNotFound"),
    }
    assert!(matches!(lidarr::status_error("/album/x", 500, 4, String::new()), Error::LidarrUnavailable { attempts: 4 }));
    match lidarr::status_error("/album/x", 418, 1, "teapot".to_string()) {
        Error::Lidarr { what, status, body } => {
            assert_eq!(what, "request");
            assert_eq!(status, 418);
            assert_eq!(body, "teapot");
        }
        _ => panic!("expected Lidarr"),
    }
}
