use hookrunner::build_check::{build_accepted, build_matches};
use hookrunner::client::{begin_join, update_session, LinkReport, Session, SessionPhase};
use hookrunner::loading::LoadingProgress;
use hookrunner::native::{parse_u32, starts_with, Options};
use hookrunner::scoreboard::{page_count, rows_per_page, turn_page};
use hookrunner::web::default_server_url;

fn args(list: &[&str]) -> Vec<String> {
    list.iter().map(|s| s.to_string()).collect()
}

#[test]
fn loading_progress_is_monotone_and_capped() {
    let mut p = LoadingProgress::default();
    p.advance(50);
    p.advance(30);
    assert_eq!(p.percent, 50);
    p.advance(200);
    assert_eq!(p.percent, 100);
}

#[test]
fn join_from_title_only() {
    let mut s = Session::default();
    assert!(!s.is_playing());
    assert!(!begin_join(&mut s, "   "));
    assert_eq!(s.error.as_deref(), Some("Enter a nickname."));
    assert_eq!(s.phase, SessionPhase::Title);
    assert!(begin_join(&mut s, " Kai "));
    assert_eq!(s.phase, SessionPhase::Connecting);
    assert_eq!(s.nickname, "Kai");
    assert_eq!(s.error, None);
    assert!(!begin_join(&mut s, "Other"));
    assert_eq!(s.nickname, "Kai");
}

#[test]
fn session_becomes_playing_when_player_arrives() {
    let mut s = Session::default();
    begin_join(&mut s, "Kai");
    let report = LinkReport { refusals: vec![], disconnected: false, disconnect_reason: false };
    let server_name = "Kai".to_string();
    assert!(!update_session(&mut s, Some(&report), Some(&server_name), false));
    assert!(s.is_playing());
    // A disconnect without reason while playing ends the session.
    let closed = LinkReport { refusals: vec![], disconnected: true, disconnect_reason: false };
    assert!(update_session(&mut s, Some(&closed), None, false));
    assert_eq!(s.phase, SessionPhase::Title);
    assert_eq!(s.error.as_deref(), Some("Disconnected. Check the server and try again."));
}

#[test]
fn session_failures() {
    let mut s = Session::default();
    begin_join(&mut s, "Kai");
    let refused = LinkReport {
        refusals: vec!["first".to_string(), "The server is full. Please try again later.".to_string()],
        disconnected: true,
        disconnect_reason: true,
    };
    assert!(update_session(&mut s, Some(&refused), None, false));
    assert_eq!(s.error.as_deref(), Some("The server is full. Please try again later."));

    let mut s = Session::default();
    begin_join(&mut s, "Kai");
    assert!(update_session(&mut s, None, None, false));
    assert_eq!(s.error.as_deref(), Some("Connection lost. Please try again."));

    let mut s = Session::default();
    begin_join(&mut s, "Kai");
    let quiet = LinkReport { refusals: vec![], disconnected: false, disconnect_reason: false };
    assert!(!update_session(&mut s, Some(&quiet), None, false));
    assert_eq!(s.phase, SessionPhase::Connecting);
    assert!(update_session(&mut s, Some(&quiet), None, true));
    assert_eq!(s.error.as_deref(), Some("Connection timed out. Check the server and try again."));

    // Closing without a reason while still connecting is not a failure yet.
    let mut s = Session::default();
    begin_join(&mut s, "Kai");
    let closed = LinkReport { refusals: vec![], disconnected: true, disconnect_reason: false };
    assert!(!update_session(&mut s, Some(&closed), None, false));
}

#[test]
fn options_defaults_and_help() {
    let o = Options::parse(&args(&[])).unwrap().unwrap();
    assert_eq!((o.server.as_str(), o.width, o.height, o.uncapped), ("ws://127.0.0.1:5000", 1280, 720, false));
    assert!(Options::parse(&args(&["--uncapped", "--help"])).unwrap().is_none());
    assert!(Options::parse(&args(&["-h"])).unwrap().is_none());
}

#[test]
fn options_values() {
    let o = Options::parse(&args(&["--server", "wss://example.org:5000", "--width", "64", "--height", "+16384", "--uncapped"]))
        .unwrap()
        .unwrap();
    assert_eq!((o.server.as_str(), o.width, o.height, o.uncapped), ("wss://example.org:5000", 64, 16384, true));
}

#[test]
fn options_errors() {
    assert_eq!(Options::parse(&args(&["--width"])).err().unwrap(), "--width requires a value");
    assert_eq!(Options::parse(&args(&["--width", "63"])).err().unwrap(), "--width must be between 64 and 16384 pixels");
    assert_eq!(Options::parse(&args(&["--height", "abc"])).err().unwrap(), "--height must be between 64 and 16384 pixels");
    assert_eq!(Options::parse(&args(&["--server", "http://x"])).err().unwrap(), "--server must start with ws:// or wss://");
    assert_eq!(Options::parse(&args(&["--fast"])).err().unwrap(), "unknown option: --fast");
}

#[test]
fn u32_parsing_matches_std() {
    for text in ["0", "007", "+12", "4294967295", "4294967296", "", "+", "-1", " 1", "1a", "99999999999999999999"] {
        assert_eq!(parse_u32(text), text.parse::<u32>().ok(), "{text:?}");
    }
    assert!(starts_with("wss://x", "ws"));
    assert!(!starts_with("w", "ws"));
}

#[test]
fn build_check_needs_exactly_one_matching_build() {
    assert!(build_accepted(Some("build=abc123"), "abc123"));
    assert!(build_accepted(Some("x=1&build=abc%31%32%33"), "abc123"));
    assert!(!build_accepted(Some("build=abc123&build=abc123"), "abc123"));
    assert!(!build_accepted(Some("build=other"), "abc123"));
    assert!(!build_accepted(Some("build=abc+123"), "abc123"));
    assert!(build_accepted(Some("build=abc+123"), "abc 123"));
    assert!(!build_accepted(None, "abc123"));
    assert!(!build_accepted(Some(""), ""));
    let pairs = vec![("build".to_string(), "v1".to_string()), ("other".to_string(), "v2".to_string())];
    assert!(build_matches(&pairs, "v1"));
    assert!(!build_matches(&pairs, "v2"));
}

#[test]
fn scoreboard_paging() {
    assert_eq!(rows_per_page(2), 4);
    assert_eq!(rows_per_page(10), 10);
    assert_eq!(rows_per_page(40), 16);
    assert_eq!(page_count(0, 4), 1);
    assert_eq!(page_count(4, 4), 1);
    assert_eq!(page_count(5, 4), 2);
    assert_eq!(turn_page(0, true, false, 2), 1);
    assert_eq!(turn_page(1, true, false, 2), 1);
    assert_eq!(turn_page(0, false, true, 2), 0);
    assert_eq!(turn_page(7, false, false, 3), 2);
}

#[test]
fn web_default_server() {
    assert_eq!(default_server_url("https:", "game.example"), "wss://game.example:5000");
    assert_eq!(default_server_url("http:", "localhost"), "ws://localhost:5000");
}
