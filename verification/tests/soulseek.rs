use mimport_core::error::Error;
use mimport_core::lossless::{is_lossless, lossless_files, lossless_ranking, LOSSLESS_VIEW_TOP};
use mimport_core::slskd::{
    browse_path, call_error, call_verdict, downloads_path, removal_outcome, is_terminal_state, resolve_selector,
    reusable_search_id, search_path, search_status_path, search_timeout_error, split_remote_path, still_listed,
    transfer_path, CallVerdict, ListedDirectory, ListedTransfer, PollVerdict, Search, SearchResponseItem,
    SearchStep, SearchWait, SlskdFile, TransferSnapshot, TransferWait, UserDownloads, WaitAction, WaitFailure,
};

fn file(name: &str) -> SlskdFile {
    SlskdFile {
        filename: name.to_string(),
        size: 10,
        extension: None,
        bit_rate: None,
        bit_depth: None,
        sample_rate: None,
        length: None,
        is_variable_bit_rate: false,
        is_locked: false,
    }
}

fn response(user: &str, files: Vec<SlskdFile>) -> SearchResponseItem {
    SearchResponseItem {
        username: user.to_string(),
        token: 1,
        file_count: files.len() as u32,
        files,
        locked_file_count: 0,
        locked_files: vec![],
        has_free_upload_slot: true,
        queue_length: 0,
        upload_speed: 100,
    }
}

fn search(id: &str, text: &str, complete: bool, count: u32, ended: Option<&str>, started: Option<&str>) -> Search {
    Search {
        id: id.to_string(),
        token: 0,
        search_text: text.to_string(),
        state: "Completed".to_string(),
        is_complete: complete,
        file_count: count,
        locked_file_count: 0,
        response_count: 0,
        responses: vec![],
        started_at: started.map(|s| s.to_string()),
        ended_at: ended.map(|s| s.to_string()),
    }
}

#[test]
fn remote_path_split() {
    assert_eq!(split_remote_path("Music\\Album\\01.flac"), ("Music\\Album", "01.flac"));
    assert_eq!(split_remote_path("01.flac"), ("", "01.flac"));
}

#[test]
fn terminal_states() {
    assert!(is_terminal_state("Completed, Succeeded"));
    assert!(is_terminal_state("Completed, Errored"));
    assert!(is_terminal_state("Completed, Cancelled"));
    assert!(is_terminal_state("Completed, Rejected"));
    assert!(!is_terminal_state("Queued, Remotely"));
    assert!(!is_terminal_state("InProgress"));
}

#[test]
fn selector_error_quotes_directory() {
    let s = sample_search();
    match resolve_selector(&s, "alice", "Mu\"sic", &[]) {
        Err(Error::SlskdSelectorNotFound { what, detail }) => {
            assert_eq!(what, "directory");
            assert_eq!(detail, "alice has no files under \"Mu\\\"sic\"");
        }
        _ => panic!("expected directory error"),
    }
}

fn sample_search() -> Search {
    let mut s = search("s1", "q", true, 3, None, None);
    s.responses = vec![
        response("bob", vec![file("Other\\x.flac")]),
        response(
            "alice",
            vec![file("Music\\Album\\01.flac"), file("Music\\Album\\02.flac"), file("Music\\Else\\03.flac")],
        ),
    ];
    s
}

#[test]
fn selector_whole_directory() {
    let s = sample_search();
    let files = resolve_selector(&s, "alice", "Music\\Album", &[]).unwrap();
    let names: Vec<&str> = files.iter().map(|f| f.filename.as_str()).collect();
    assert_eq!(names, vec!["Music\\Album\\01.flac", "Music\\Album\\02.flac"]);
}

#[test]
fn selector_named_files_deduplicated() {
    let s = sample_search();
    let wanted = vec!["02.flac".to_string(), "01.flac".to_string(), "02.flac".to_string()];
    let files = resolve_selector(&s, "alice", "Music\\Album", &wanted).unwrap();
    let names: Vec<&str> = files.iter().map(|f| f.filename.as_str()).collect();
    assert_eq!(names, vec!["Music\\Album\\02.flac", "Music\\Album\\01.flac"]);
}

#[test]
fn selector_errors() {
    let s = sample_search();
    match resolve_selector(&s, "carol", "Music\\Album", &[]) {
        Err(Error::SlskdSelectorNotFound { what, detail }) => {
            assert_eq!(what, "peer");
            assert_eq!(detail, "no response from carol in search s1");
        }
        _ => panic!("expected peer error"),
    }
    match resolve_selector(&s, "alice", "Music\\Nope", &[]) {
        Err(Error::SlskdSelectorNotFound { what, detail }) => {
            assert_eq!(what, "directory");
            assert_eq!(detail, "alice has no files under \"Music\\\\Nope\"");
        }
        _ => panic!("expected directory error"),
    }
    let wanted = vec!["09.flac".to_string(), "01.flac".to_string(), "08.flac".to_string()];
    match resolve_selector(&s, "alice", "Music\\Album", &wanted) {
        Err(Error::SlskdSelectorNotFound { what, detail }) => {
            assert_eq!(what, "file");
            assert_eq!(detail, "alice: Music\\Album\\ (missing: 09.flac, 08.flac)");
        }
        _ => panic!("expected file error"),
    }
}

#[test]
fn search_reuse_picks_latest_completed_with_files() {
    let searches = vec![
        search("a", "q", true, 5, Some("2024-01-01"), None),
        search("b", "q", true, 5, Some("2024-03-01"), None),
        search("c", "q", false, 5, Some("2024-05-01"), None),
        search("d", "q", true, 0, Some("2024-06-01"), None),
        search("e", "other", true, 5, Some("2024-07-01"), None),
        search("f", "q", true, 5, None, Some("2024-02-01")),
    ];
    assert_eq!(reusable_search_id(&searches, "q"), Some("b".to_string()));
    assert_eq!(reusable_search_id(&searches, "none"), None);
    let ties = vec![search("x", "q", true, 1, Some("t"), None), search("y", "q", true, 1, Some("t"), None)];
    assert_eq!(reusable_search_id(&ties, "q"), Some("y".to_string()));
}

#[test]
fn request_paths() {
    assert_eq!(search_status_path("a b"), "/api/v0/searches/a%20b?includeResponses=true");
    assert_eq!(search_path("id-1"), "/api/v0/searches/id-1");
    assert_eq!(downloads_path("us/er"), "/api/v0/transfers/downloads/us%2Fer");
    assert_eq!(transfer_path("u", "i", None), "/api/v0/transfers/downloads/u/i");
    assert_eq!(transfer_path("u", "i", Some(true)), "/api/v0/transfers/downloads/u/i?remove=true");
    assert_eq!(transfer_path("u", "i", Some(false)), "/api/v0/transfers/downloads/u/i?remove=false");
    assert_eq!(browse_path("ü"), "/api/v0/users/%C3%BC/directory");
}

#[test]
fn call_outcomes() {
    assert!(call_verdict(200, false) == CallVerdict::Success);
    assert!(call_verdict(204, true) == CallVerdict::Success);
    assert!(call_verdict(401, false) == CallVerdict::Relogin);
    assert!(call_verdict(401, true) == CallVerdict::Fail);
    assert!(call_verdict(500, false) == CallVerdict::Fail);
    match call_error("/api/v0/x", 404, "gone".to_string()) {
        Error::SlskdNotFound { what } => assert_eq!(what, "/api/v0/x"),
        _ => panic!("expected not found"),
    }
    match call_error("/api/v0/x", 500, "boom".to_string()) {
        Error::Slskd { what, status, body } => {
            assert_eq!(what, "request");
            assert_eq!(status, 500);
            assert_eq!(body, "boom");
        }
        _ => panic!("expected slskd error"),
    }
}

#[test]
fn listing_check() {
    let ds = vec![
        UserDownloads {
            username: "bob".to_string(),
            directories: vec![ListedDirectory { files: vec![ListedTransfer { id: "t1".to_string() }] }],
        },
        UserDownloads {
            username: "alice".to_string(),
            directories: vec![ListedDirectory { files: vec![ListedTransfer { id: "t2".to_string() }] }],
        },
    ];
    assert!(still_listed(&ds, "alice", &["x".to_string(), "t2".to_string()]));
    assert!(!still_listed(&ds, "alice", &["t1".to_string()]));
    assert!(!still_listed(&ds, "carol", &["t2".to_string()]));
}

fn snap(id: &str, state: &str, bytes: i64) -> TransferSnapshot {
    TransferSnapshot { id: id.to_string(), state: state.to_string(), bytes_transferred: bytes, place_in_queue: None }
}

#[test]
fn transfer_wait_collects_and_rearms() {
    let mut w = TransferWait::new(vec![snap("a", "Queued", 0), snap("b", "Queued", 0)], 10_000, 1_000);
    assert_eq!(w.pending[0].deadline, 11_000);
    match w.next_action(2_000) {
        WaitAction::Poll(id) => assert_eq!(id, "a"),
        _ => panic!("expected poll"),
    }
    assert!(w.on_poll(2_000, Some(snap("a", "Completed, Succeeded", 10))) == PollVerdict::Collect);
    match w.next_action(3_000) {
        WaitAction::Poll(id) => assert_eq!(id, "b"),
        _ => panic!("expected poll"),
    }
    // progress re-arms the deadline from the poll time
    assert!(w.on_poll(3_000, Some(snap("b", "InProgress", 5))) == PollVerdict::Keep);
    assert_eq!(w.pending[0].deadline, 13_000);
    assert!(matches!(w.next_action(3_000), WaitAction::Sleep));
    // no progress past the deadline: given up, first failure recorded
    match w.next_action(14_000) {
        WaitAction::Finish => {}
        _ => panic!("expected finish"),
    }
    match &w.failure {
        Some(WaitFailure::Timeout { id, last_state }) => {
            assert_eq!(id, "b");
            assert_eq!(last_state, "InProgress");
        }
        _ => panic!("expected timeout"),
    }
    match w.timeout_error("alice") {
        Some(Error::SlskdFetchTimeout { username, id, waited_secs, last_state }) => {
            assert_eq!(username, "alice");
            assert_eq!(id, "b");
            assert_eq!(waited_secs, 10);
            assert_eq!(last_state, "InProgress");
        }
        _ => panic!("expected timeout error"),
    }
}

#[test]
fn transfer_wait_poll_errors() {
    let mut w = TransferWait::new(vec![snap("a", "Queued", 0)], 1_000, 0);
    assert!(matches!(w.next_action(10), WaitAction::Poll(_)));
    assert!(w.on_poll(10, None) == PollVerdict::Keep);
    assert!(matches!(w.next_action(10), WaitAction::Sleep));
    assert!(matches!(w.next_action(20), WaitAction::Poll(_)));
    assert!(w.on_poll(1_000, None) == PollVerdict::Dropped { first: true });
    assert!(matches!(w.failure, Some(WaitFailure::PollError)));
    assert!(w.timeout_error("u").is_none());
    assert!(matches!(w.next_action(1_000), WaitAction::Finish));
}

#[test]
fn search_wait_steps() {
    let mut w = SearchWait::new(0);
    assert_eq!(w.deadline, 600_000);
    assert!(w.step(false, false, 1_000) == SearchStep::Poll { delay_ms: 1500 });
    assert!(w.step(false, false, 600_000) == SearchStep::TimedOut);
    // complete but empty: drained at most five times
    for _ in 0..5 {
        assert!(w.step(true, false, 1_000) == SearchStep::Poll { delay_ms: 500 });
    }
    assert!(w.step(true, false, 1_000) == SearchStep::Done);
    let mut v = SearchWait::new(0);
    assert!(v.step(true, true, 10) == SearchStep::Done);
    match search_timeout_error() {
        Error::Slskd { what, status, body } => {
            assert_eq!(what, "search");
            assert_eq!(status, 0);
            assert_eq!(body, "search never completed");
        }
        _ => panic!("expected slskd error"),
    }
}

fn peer(user: &str, files: &[&str], free: bool, speed: i64, queue: i64) -> SearchResponseItem {
    let mut r = response(user, files.iter().map(|f| file(f)).collect());
    r.has_free_upload_slot = free;
    r.upload_speed = speed;
    r.queue_length = queue;
    r
}

#[test]
fn lossless_files_by_extension() {
    assert!(is_lossless(&file("Music\\A\\01.FLAC")));
    assert!(is_lossless(&file("Music\\A\\01.wv")));
    assert!(!is_lossless(&file("Music\\A\\01.mp3")));
    assert!(!is_lossless(&file("Music\\A.flac\\cover")));
    let files = vec![file("a\\1.mp3"), file("a\\2.flac"), file("a\\3.jpg"), file("a\\4.wav")];
    assert_eq!(lossless_files(&files), vec![1, 3]);
}

#[test]
fn lossless_view_ranks_free_slot_speed_queue() {
    let rs = vec![
        peer("mp3only", &["x\\1.mp3"], true, 900, 0),
        peer("busy", &["x\\1.flac"], false, 999, 0),
        peer("slow", &["x\\1.flac"], true, 10, 0),
        peer("fast", &["x\\1.flac", "x\\2.mp3"], true, 500, 3),
        peer("fast_short_queue", &["x\\1.ape"], true, 500, 1),
        peer("tie", &["x\\1.flac"], true, 10, 0),
    ];
    assert_eq!(lossless_ranking(&rs, LOSSLESS_VIEW_TOP), vec![4, 3, 2, 5, 1]);
    assert_eq!(lossless_ranking(&rs, 2), vec![4, 3]);
    assert_eq!(lossless_ranking(&rs, 0), Vec::<usize>::new());
    assert_eq!(lossless_ranking(&vec![], LOSSLESS_VIEW_TOP), Vec::<usize>::new());
}

#[test]
fn removal_of_a_gone_transfer_is_done() {
    assert!(removal_outcome(Ok(())).is_ok());
    assert!(removal_outcome(Err(Error::SlskdNotFound { what: "/x".to_string() })).is_ok());
    match removal_outcome(Err(Error::Slskd { what: "request".to_string(), status: 500, body: "b".to_string() })) {
        Err(Error::Slskd { status, .. }) => assert_eq!(status, 500),
        _ => panic!("expected the failure to stand"),
    }
}
