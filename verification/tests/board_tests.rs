use hookrunner::client::{join_endpoint, Session, SessionPhase};
use hookrunner::match_state::ScoreRow;
use hookrunner::nickname::{validate, validate_flagged};
use hookrunner::scoreboard::{board_label, page_count};
use hookrunner::text::decimal_text;
use hookrunner::title::{editing_open, NicknameDraft};

fn row(id: u64, nickname: &str, kills: u32, deaths: u32, connected: bool) -> ScoreRow {
    ScoreRow { id, nickname: nickname.to_string(), kills, deaths, connected }
}

/// The scoreboard text written with `format!`, line by line, for comparison.
fn formatted(
    number: u64,
    results: bool,
    remaining: u32,
    rows: &[&ScoreRow],
    own: Option<u64>,
    page: usize,
    per_page: usize,
) -> String {
    let pages = rows.len().div_ceil(per_page).max(1);
    let heading = if results { "RESULTS" } else { "SCOREBOARD" };
    let clock = if results {
        format!("Next match in {}s", remaining)
    } else {
        format!("Time left {:02}:{:02}", remaining / 60, remaining % 60)
    };
    let mut label = format!("MATCH {number} — {heading}\n{clock}\n\n    #  NICKNAME               KILLS DEATHS\n");
    for (rank, row) in rows.iter().enumerate().skip(page * per_page).take(per_page) {
        let marker = if Some(row.id) == own { ">" } else { " " };
        let offline = if row.connected { " " } else { "*" };
        label.push_str(&format!(
            "{marker} {offline}{:>2}. {:<20} {:>5} {:>6}\n",
            rank + 1,
            row.nickname,
            row.kills,
            row.deaths
        ));
    }
    if rows.is_empty() {
        label.push_str("No participants yet\n");
    }
    label.push_str("\n> You   * Disconnected");
    if pages > 1 {
        label.push_str(&format!("\nPage {}/{} — PgUp/PgDn or wheel", page + 1, pages));
    }
    if !results {
        label.push_str("\nHold Tab to view");
    }
    label
}

#[test]
fn board_label_matches_format() {
    let rows: Vec<ScoreRow> = (0..11)
        .map(|i| row(i, &format!("player número {i}"), 1000 - i as u32 * 97, i as u32 * 3, i % 3 != 0))
        .collect();
    let refs: Vec<&ScoreRow> = rows.iter().collect();
    for (results, remaining) in [(false, 125), (false, 9), (true, 7), (false, 300)] {
        for count in [0, 1, 4, 11] {
            for per_page in [4, 5, 16] {
                let pages = page_count(count, per_page);
                for page in 0..pages {
                    let shown = &refs[..count];
                    let label = board_label(7, results, remaining, &shown.to_vec(), Some(4), page, per_page);
                    assert_eq!(label, formatted(7, results, remaining, shown, Some(4), page, per_page));
                }
            }
        }
    }
}

#[test]
fn decimal_numbers() {
    for n in [0u64, 7, 10, 99, 100, 12345, u64::MAX] {
        assert_eq!(decimal_text(n), n.to_string());
    }
}

#[test]
fn endpoint_carries_the_build() {
    let mut session = Session::default();
    let endpoint = join_endpoint(&mut session, " Ada ", "ws://127.0.0.1:5000", "a b&c");
    assert_eq!(endpoint.as_deref(), Some("ws://127.0.0.1:5000/?build=a+b%26c"));
    assert_eq!(session.phase, SessionPhase::Connecting);
    assert_eq!(session.nickname, "Ada");

    let mut session = Session::default();
    let endpoint = join_endpoint(&mut session, "Ada", "wss://example.net/play?x=1#top", "f00d");
    assert_eq!(endpoint.as_deref(), Some("wss://example.net/play?x=1&build=f00d#top"));

    let mut session = Session::default();
    assert_eq!(join_endpoint(&mut session, "", "ws://127.0.0.1:5000", "f00d"), None);
    assert_eq!(session.phase, SessionPhase::Title);
    assert_eq!(session.error.as_deref(), Some("Enter a nickname."));

    // A server address that is not a URL: the session connects, the endpoint is missing.
    let mut session = Session::default();
    assert_eq!(join_endpoint(&mut session, "Ada", "not a url", "f00d"), None);
    assert_eq!(session.phase, SessionPhase::Connecting);

    let mut session = Session { phase: SessionPhase::Playing, ..Session::default() };
    assert_eq!(join_endpoint(&mut session, "Ada", "ws://127.0.0.1:5000", "f00d"), None);
    assert_eq!(session.phase, SessionPhase::Playing);
}

#[test]
fn validation_with_given_alphanumeric_answers() {
    assert_eq!(validate_flagged("  ab  ", &[false, false, true, true, false, false]), Ok("ab".to_string()));
    assert_eq!(
        validate_flagged(" a!", &[false, true, false]),
        Err("Use letters, numbers, spaces, _ or -.")
    );
    // The answers decide, whatever the characters.
    assert_eq!(validate_flagged("!?", &[true, true]), Ok("!?".to_string()));
    assert_eq!(validate_flagged("ab", &[true, false]), Err("Use letters, numbers, spaces, _ or -."));
    assert_eq!(validate_flagged("a_-", &[true, false, false]), Ok("a_-".to_string()));
    assert_eq!(validate_flagged("   ", &[true, true, true]), Err("Enter a nickname."));
    let long = "x".repeat(21);
    assert_eq!(validate_flagged(&long, &[true; 21]), Err("Use at most 20 characters."));
    assert_eq!(validate("Über_Ninja 7"), Ok("Über_Ninja 7".to_string()));
}

#[test]
fn input_method_and_gating() {
    let mut draft = NicknameDraft::default();
    draft.ime_preedit("に");
    assert!(draft.composing);
    draft.ime_preedit("");
    assert!(!draft.composing);
    draft.ime_preedit("に");
    draft.ime_commit("日本");
    assert!(!draft.composing);
    assert_eq!(draft.value, "日本");
    draft.composing = true;
    draft.ime_disabled();
    assert!(!draft.composing);
    assert_eq!(draft.value, "日本");
    assert!(editing_open(SessionPhase::Title, 100));
    assert!(!editing_open(SessionPhase::Title, 99));
    assert!(!editing_open(SessionPhase::Connecting, 100));
}
