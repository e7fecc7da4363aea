use hookrunner::combat::resolve_hit;
use hookrunner::match_state::{MatchState, ScoreRow, MATCH_SECONDS};
use hookrunner::matches::{advance, sync_roster, MatchClock, MATCH_NANOS, NANOS_PER_SECOND, RESULTS_NANOS};
use hookrunner::protocol::PlayerState;

fn row(id: u64, kills: u32, deaths: u32) -> ScoreRow {
    ScoreRow { id, nickname: format!("p{id}"), kills, deaths, connected: true }
}

fn round_with(rows: Vec<ScoreRow>) -> MatchState {
    MatchState { rows, ..MatchState::default() }
}

#[test]
fn default_match() {
    let m = MatchState::default();
    assert_eq!(m.number, 1);
    assert!(!m.results);
    assert_eq!(m.remaining_seconds, MATCH_SECONDS);
    assert!(m.rows.is_empty());
}

#[test]
fn record_death_credits_killer_and_victim() {
    let mut m = round_with(vec![row(1, 0, 0), row(2, 0, 0), row(3, 5, 5)]);
    m.record_death(2, Some(1));
    assert_eq!((m.rows[0].kills, m.rows[0].deaths), (1, 0));
    assert_eq!((m.rows[1].kills, m.rows[1].deaths), (0, 1));
    assert_eq!((m.rows[2].kills, m.rows[2].deaths), (5, 5));
}

#[test]
fn record_death_self_and_hazard() {
    let mut m = round_with(vec![row(1, 2, 0)]);
    m.record_death(1, Some(1));
    assert_eq!((m.rows[0].kills, m.rows[0].deaths), (2, 1));
    m.record_death(1, None);
    assert_eq!((m.rows[0].kills, m.rows[0].deaths), (2, 2));
}

#[test]
fn record_death_ignored_during_results() {
    let mut m = round_with(vec![row(1, 0, 0), row(2, 0, 0)]);
    m.results = true;
    let before = m.clone();
    m.record_death(2, Some(1));
    assert_eq!(m, before);
}

#[test]
fn ranked_orders_by_kills_deaths_id() {
    let m = round_with(vec![row(9, 3, 2), row(4, 5, 7), row(2, 3, 2), row(7, 3, 1), row(1, 0, 0)]);
    let ids: Vec<u64> = m.ranked().iter().map(|r| r.id).collect();
    assert_eq!(ids, vec![4, 7, 2, 9, 1]);
}

#[test]
fn ranked_keeps_board_order_for_identical_keys() {
    let mut a = row(5, 1, 1);
    a.nickname = "first".into();
    let mut b = row(5, 1, 1);
    b.nickname = "second".into();
    let m = round_with(vec![a, b, row(3, 0, 0)]);
    let names: Vec<&str> = m.ranked().iter().map(|r| r.nickname.as_str()).collect();
    assert_eq!(names, vec!["first", "second", "p3"]);
    assert!(round_with(vec![]).ranked().is_empty());
}

#[test]
fn clock_counts_down_whole_seconds() {
    let mut clock = MatchClock::default();
    let mut m = MatchState::default();
    let out = advance(&mut clock, &mut m, NANOS_PER_SECOND / 2);
    assert!(!out.reset && !out.clear_bolts);
    assert_eq!(m.remaining_seconds, 300);
    advance(&mut clock, &mut m, NANOS_PER_SECOND / 2);
    assert_eq!(m.remaining_seconds, 299);
    assert_eq!(clock.remaining, MATCH_NANOS - NANOS_PER_SECOND);
}

#[test]
fn clock_ends_match_then_starts_next() {
    let mut clock = MatchClock::default();
    let mut m = round_with(vec![row(1, 4, 0)]);
    let out = advance(&mut clock, &mut m, MATCH_NANOS);
    assert!(out.clear_bolts && !out.reset);
    assert!(m.results);
    assert_eq!(m.remaining_seconds, 10);
    assert_eq!(m.rows.len(), 1);
    let out = advance(&mut clock, &mut m, RESULTS_NANOS + 3 * NANOS_PER_SECOND);
    assert!(out.reset && out.clear_bolts);
    assert!(!m.results);
    assert_eq!(m.number, 2);
    assert!(m.rows.is_empty());
    assert_eq!(m.remaining_seconds, 297);
}

#[test]
fn clock_handles_several_phases_at_once() {
    let mut clock = MatchClock::default();
    let mut m = MatchState::default();
    // 300 s match + 10 s results + 300 s match + 5 s into results.
    let out = advance(&mut clock, &mut m, MATCH_NANOS * 2 + RESULTS_NANOS + 5 * NANOS_PER_SECOND);
    assert!(out.reset && out.clear_bolts);
    assert!(m.results);
    assert_eq!(m.number, 2);
    assert_eq!(m.remaining_seconds, 5);
}

#[test]
fn roster_adds_players_and_marks_presence() {
    let mut m = round_with(vec![row(1, 2, 3), row(2, 0, 1)]);
    sync_roster(&mut m, &vec![(2, "p2".to_string()), (8, "Neo".to_string()), (8, "Dup".to_string())]);
    assert_eq!(m.rows.len(), 3);
    assert!(!m.rows[0].connected);
    assert!(m.rows[1].connected);
    assert_eq!(m.rows[2].id, 8);
    assert_eq!(m.rows[2].nickname, "Neo");
    assert_eq!((m.rows[2].kills, m.rows[2].deaths), (0, 0));
    assert_eq!((m.rows[0].kills, m.rows[0].deaths), (2, 3));
}

#[test]
fn roster_frozen_during_results() {
    let mut m = round_with(vec![row(1, 2, 3)]);
    m.results = true;
    sync_roster(&mut m, &vec![(1, "p1".to_string()), (4, "late".to_string())]);
    assert_eq!(m.rows.len(), 1);
    assert!(m.rows[0].connected);
}

#[test]
fn lethal_hit_scores_once() {
    let mut m = round_with(vec![row(1, 0, 0), row(2, 0, 0)]);
    let mut victim = PlayerState::default();
    for _ in 0..3 {
        assert!(!resolve_hit(&mut victim, &mut m, 2, 1));
    }
    assert_eq!(victim.health.0, 25);
    assert!(resolve_hit(&mut victim, &mut m, 2, 1));
    assert!(victim.death.is_some());
    assert!(!resolve_hit(&mut victim, &mut m, 2, 1));
    assert_eq!((m.rows[0].kills, m.rows[1].deaths), (1, 1));
}
