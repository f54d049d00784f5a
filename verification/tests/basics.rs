use mimport_core::audio::{
    downsample_args, first_chars, is_audio, is_temp_file, needs_downsample, resample_filter, sample_fmt_for,
    temp_sibling,
};
use mimport_core::cache::{cache_dir_default, fnv1a, hex16, DiskCache};
use mimport_core::config::{
    check_credentials, default_medium_terms, default_secondary_types, default_strong_terms, default_weak_terms,
    is_unset, CoverArtConfig, QualityConfig,
};
use mimport_core::error::Error;
use mimport_core::jobs::{
    cancellable, default_title, derive_status_from_states, is_succeeded, job_file_local_path, local_dir_for,
    JobFile,
};
use mimport_core::text::{
    fmt_i64, fmt_u64, fmt_u64_pad2, parse_i64, parse_u32, parse_u64, replace_str, rsplit_char_once,
    split_char_once, str_lt, to_ascii_lowercase, trim_str,
};

#[test]
fn parse_numbers() {
    assert_eq!(parse_u32("42"), Some(42));
    assert_eq!(parse_u32("+7"), Some(7));
    assert_eq!(parse_u32("4294967296"), None);
    assert_eq!(parse_u32(""), None);
    assert_eq!(parse_u32("1a"), None);
    assert_eq!(parse_u64("18446744073709551615"), Some(u64::MAX));
    assert_eq!(parse_i64("-12"), Some(-12));
    assert_eq!(parse_i64("-9223372036854775808"), Some(i64::MIN));
    assert_eq!(parse_i64("-"), None);
    assert_eq!(parse_i64(" 1"), None);
}

#[test]
fn format_numbers() {
    assert_eq!(fmt_u64(0), "0");
    assert_eq!(fmt_u64(1234567), "1234567");
    assert_eq!(fmt_u64_pad2(3), "03");
    assert_eq!(fmt_u64_pad2(12), "12");
    assert_eq!(fmt_u64_pad2(123), "123");
    assert_eq!(fmt_i64(-45), "-45");
    assert_eq!(fmt_i64(i64::MIN), "-9223372036854775808");
}

#[test]
fn text_helpers() {
    assert_eq!(trim_str("  a b \t"), "a b");
    assert_eq!(to_ascii_lowercase("AbÇ"), "abÇ");
    assert_eq!(replace_str("a-b-c", "-", "+"), "a+b+c");
    assert_eq!(split_char_once("k=v=w", '='), Some(("k".to_string(), "v=w".to_string())));
    assert_eq!(rsplit_char_once("k=v=w", '='), Some(("k=v".to_string(), "w".to_string())));
    assert_eq!(split_char_once("kv", '='), None);
    assert!(str_lt("abc", "abd"));
    assert!(str_lt("ab", "abc"));
    assert!(!str_lt("abc", "abc"));
}

#[test]
fn path_handling_follows_std() {
    assert!(is_audio("/a/b/song.FLAC"));
    assert!(!is_audio("/a/b/noext"));
    assert!(is_temp_file("/a/b/x.mimport-tmp.3.flac"));
    assert!(!is_temp_file("/a/b.mimport-tmp.3/x.flac"));
    assert_eq!(temp_sibling("/a/b/old.flac", 5), "/a/b/old.flac.mimport-tmp.5.flac");
    assert_eq!(cache_dir_default(&None, &Some("/h".to_string()), "lidarr"), "/h/.cache/mimport/lidarr");
}

#[test]
fn audio_classification() {
    assert!(is_audio("x/Track.FLAC"));
    assert!(is_audio("x/t.opus"));
    assert!(!is_audio("x/cover.jpg"));
    assert!(!is_audio("x/README"));
    assert!(is_temp_file("/d/a.flac.mimport-tmp.77.flac"));
    assert!(!is_temp_file("/d/a.flac"));
}

#[test]
fn downsample_decisions() {
    assert!(needs_downsample("/a/x.flac", Some(96000), Some(24), 44100, 16));
    assert!(needs_downsample("/a/x.WAV", Some(44100), Some(24), 44100, 16));
    assert!(!needs_downsample("/a/x.flac", Some(44100), Some(16), 44100, 16));
    assert!(!needs_downsample("/a/x.flac", None, None, 44100, 16));
    // lossy files are never touched
    assert!(!needs_downsample("/a/x.mp3", Some(48000), None, 44100, 16));
    assert!(!needs_downsample("/a/x.opus", Some(48000), Some(24), 44100, 16));
    assert_eq!(sample_fmt_for(16).unwrap(), "s16");
    assert_eq!(sample_fmt_for(24).unwrap(), "s32");
    match sample_fmt_for(20) {
        Err(Error::ConfigInvalid(m)) => assert_eq!(m, "unsupported target bit depth 20"),
        _ => panic!("expected ConfigInvalid"),
    }
    assert_eq!(
        resample_filter(44100, "s16"),
        "aresample=44100:resampler=soxr:precision=28:osf=s16:dither_method=triangular_hp"
    );
}

#[test]
fn downsample_command_line() {
    let args = downsample_args("in.flac", "out.flac", 48000, 24).unwrap();
    let expected = vec![
        "-y",
        "-hide_banner",
        "-loglevel",
        "error",
        "-i",
        "in.flac",
        "-map",
        "0",
        "-c:v",
        "copy",
        "-af",
        "aresample=48000:resampler=soxr:precision=28:osf=s32:dither_method=triangular_hp",
        "-sample_fmt",
        "s32",
        "-map_metadata",
        "0",
        "-metadata",
        "encoder=",
        "out.flac",
    ];
    assert_eq!(args, expected);
    assert!(matches!(downsample_args("a", "b", 44100, 8), Err(Error::ConfigInvalid(_))));
}

#[test]
fn temp_names() {
    assert_eq!(temp_sibling("/d/a.flac", 12), "/d/a.flac.mimport-tmp.12.flac");
    // the sibling is a temp file, is audio, and shares the directory
    for (p, pid) in [("/d/a.flac", 12), ("/m/01 - Song.wav", 4_000_000_000), ("rel.opus", 0)] {
        let s = temp_sibling(p, pid);
        assert!(is_temp_file(&s) && is_audio(&s));
        assert_eq!(std::path::Path::new(&s).parent(), std::path::Path::new(p).parent());
    }
    assert!(!is_temp_file("/m/01 - Song.flac"));
    assert_eq!(first_chars("héllo", 2), "hé");
    assert_eq!(first_chars("hi", 5), "hi");
}

#[test]
fn fnv_and_hex() {
    assert_eq!(fnv1a(b""), 0xcbf2_9ce4_8422_2325);
    assert_eq!(fnv1a(b"a"), 0xaf63_dc4c_8601_ec8c);
    assert_eq!(hex16(0xab), "00000000000000ab");
    assert_eq!(hex16(u64::MAX), "ffffffffffffffff");
}

#[test]
fn cache_paths_and_freshness() {
    let c = DiskCache::new("/tmp/c".to_string(), 60);
    let p = c.path_for("https://x.org/a?b=1");
    let expected_name = format!("httpsxorgab1-{:016x}.json", fnv1a("https://x.org/a?b=1".as_bytes()));
    assert_eq!(p, format!("/tmp/c/{expected_name}"));
    let long_key = "a".repeat(60);
    let name = c.path_for(&long_key);
    assert!(name.starts_with(&format!("/tmp/c/{}-", "a".repeat(40))));
    assert!(c.is_fresh(60, 0));
    assert!(!c.is_fresh(60, 1));
    assert!(!c.is_fresh(61, 0));
    assert!(c.is_fresh(0, 5));
    assert_eq!(c.staging_path("https://x.org/a?b=1", 77), format!("/tmp/c/.{expected_name}.77.tmp"));
}

#[test]
fn default_cache_dir() {
    let xdg = Some("/x".to_string());
    let home = Some("/home/u".to_string());
    assert_eq!(cache_dir_default(&xdg, &home, "coverart"), "/x/mimport/coverart");
    assert_eq!(cache_dir_default(&None, &home, "coverart"), "/home/u/.cache/mimport/coverart");
    assert_eq!(cache_dir_default(&None, &None, "mb"), "./.cache/mimport/mb");
}

#[test]
fn config_defaults() {
    let c = CoverArtConfig::default();
    assert_eq!(c.base_url, "https://coverartarchive.org");
    assert!(c.cache_dir.is_none());
    assert_eq!(c.cache_ttl_secs, 2_592_000);
    assert!(c.itunes_fallback);
    assert_eq!(c.itunes_country, "JP");
    let q = QualityConfig::default();
    assert_eq!(q.target_samplerate, 44100);
    assert_eq!(q.target_bitdepth, 16);
    assert_eq!(default_strong_terms(), vec!["live", "remix", "karaoke", "commentary", "interview", "rehearsal"]);
    assert_eq!(
        default_medium_terms(),
        vec!["demo", "instrumental", "acoustic", "alternate take", "alt take", "session"]
    );
    assert_eq!(default_weak_terms(), vec!["radio edit", "edit", "version"]);
    assert_eq!(
        default_secondary_types(),
        vec!["compilation", "live", "remix", "demo", "interview", "spokenword"]
    );
}

#[test]
fn credentials_check() {
    assert!(is_unset("  "));
    assert!(is_unset(" CHANGE_ME "));
    assert!(!is_unset("me"));
    match check_credentials("CHANGE_ME", "u", "p") {
        Err(Error::MbUserAgentUnset { value }) => assert_eq!(value, "CHANGE_ME"),
        _ => panic!("expected MbUserAgentUnset"),
    }
    match check_credentials("ua/1.0", "", "p") {
        Err(Error::SlskdCredsUnset { field, value }) => {
            assert_eq!(field, "username");
            assert_eq!(value, "");
        }
        _ => panic!("expected SlskdCredsUnset"),
    }
    match check_credentials("ua/1.0", "u", "CHANGE_ME") {
        Err(Error::SlskdCredsUnset { field, .. }) => assert_eq!(field, "password"),
        _ => panic!("expected SlskdCredsUnset"),
    }
    assert!(check_credentials("ua/1.0", "u", "p").is_ok());
}

#[test]
fn job_locations() {
    assert_eq!(local_dir_for("/dl", "alice", "@@user\\Music\\Album (2001)"), "/dl/alice/Album (2001)");
    assert_eq!(local_dir_for("/dl", "bob", "Album"), "/dl/bob/Album");
    assert_eq!(default_title("Music\\Album"), "Album");
    assert_eq!(default_title("Album"), "Album");
    assert_eq!(job_file_local_path("/dl/Album", "Music\\Album\\01 - a.flac"), "/dl/Album/01 - a.flac");
}

#[test]
fn job_status_from_states() {
    assert_eq!(derive_status_from_states(&[]), "incomplete");
    assert_eq!(derive_status_from_states(&["Completed, Succeeded", "Completed, Succeeded"]), "fetched");
    assert_eq!(derive_status_from_states(&["Completed, Succeeded", "Completed, Errored"]), "partial");
    assert_eq!(derive_status_from_states(&["Completed, Errored", "Queued, Remotely"]), "failed");
    assert!(is_succeeded("Completed, Succeeded"));
    assert!(!is_succeeded("Succeeded"));
}

fn job_file(state: &str) -> JobFile {
    JobFile {
        id: 1,
        job_id: 1,
        remote_path: "a\\b.flac".to_string(),
        transfer_id: "t".to_string(),
        size: 1,
        state: state.to_string(),
        local_path: "/dl/b.flac".to_string(),
    }
}

#[test]
fn cancel_skips_terminal_files() {
    let files = vec![
        job_file("Completed, Succeeded"),
        job_file("InProgress"),
        job_file("Completed, Cancelled"),
        job_file("Queued, Remotely"),
    ];
    assert_eq!(cancellable(&files), vec![1, 3]);
    assert!(cancellable(&[job_file("Completed, Errored")]).is_empty());
}
