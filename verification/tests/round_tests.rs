use hookrunner::arena::{review_frame, review_link, Admission, MAX_PLAYERS};
use hookrunner::match_state::{MatchState, ScoreRow};
use hookrunner::matches::{run_match, MatchClock, MATCH_NANOS, RESULTS_NANOS};
use hookrunner::movement::{death_tick, plan_step, MAX_DASH_CHARGES};
use hookrunner::nickname::validate;
use hookrunner::protocol::{DeathState, PlayerInput, PlayerState};
use hookrunner::scoreboard::page_rows;
use hookrunner::title::{KeyKind, KeyPress, NicknameDraft};
use hookrunner::weapon::step;

fn row(id: u64, kills: u32, deaths: u32) -> ScoreRow {
    ScoreRow { id, nickname: format!("p{id}"), kills, deaths, connected: true }
}

fn present(ids: &[u64]) -> Vec<(u64, String)> {
    ids.iter().map(|id| (*id, format!("p{id}"))).collect()
}

#[test]
fn match_end_pauses_every_player() {
    let mut clock = MatchClock { remaining: 5 };
    let mut round = MatchState { rows: vec![row(1, 3, 1), row(9, 2, 2)], ..MatchState::default() };
    let mut players = vec![PlayerState::default(), PlayerState { spawn_index: 2, ..PlayerState::default() }];
    let inputs = vec![PlayerInput::default(); 2];
    let outcome = run_match(&mut clock, &mut round, 7, &mut players, &inputs, &present(&[1, 2]), 4);
    assert!(!outcome.reset);
    assert!(outcome.clear_bolts);
    assert!(round.results);
    assert_eq!(round.number, 1);
    assert_eq!(clock.remaining, RESULTS_NANOS - 2);
    assert_eq!(round.remaining_seconds, 10);
    assert!(players.iter().all(|p| p.match_paused));
    assert_eq!(players[1].spawn_index, 2);
    // Scores are kept through results, departed players marked, nobody added.
    assert_eq!(round.rows.len(), 2);
    assert_eq!((round.rows[0].kills, round.rows[0].deaths, round.rows[0].connected), (3, 1, true));
    assert_eq!((round.rows[1].kills, round.rows[1].connected), (2, false));
}

#[test]
fn new_match_respawns_unpauses_and_lists_players() {
    let mut clock = MatchClock { remaining: 1 };
    let mut round = MatchState { results: true, rows: vec![row(1, 3, 1)], ..MatchState::default() };
    let mut dead = PlayerState { match_paused: true, spawn_index: 3, ..PlayerState::default() };
    dead.death = Some(DeathState { remaining_ticks: 100 });
    dead.health.0 = 0;
    dead.weapon.shot = 17;
    let mut players = vec![dead, PlayerState { match_paused: true, ..PlayerState::default() }];
    let inputs = vec![PlayerInput { jump_press: 5, dash_press: 6, ..PlayerInput::default() }, PlayerInput::default()];
    let outcome = run_match(&mut clock, &mut round, 1, &mut players, &inputs, &present(&[7, 8]), 4);
    assert!(outcome.reset);
    assert!(outcome.clear_bolts);
    assert!(!round.results);
    assert_eq!(round.number, 2);
    assert_eq!(clock.remaining, MATCH_NANOS);
    assert_eq!(round.remaining_seconds, 300);
    let p = players[0];
    assert!(!p.match_paused);
    assert!(p.death.is_none());
    assert_eq!(p.health.0, 100);
    assert_eq!(p.spawn_index, 0);
    assert_eq!(p.weapon.shot, 17);
    assert_eq!((p.jump.last_press, p.dash.last_press), (5, 6));
    assert_eq!(p.dash.charges, MAX_DASH_CHARGES);
    assert_eq!(players[1].spawn_index, 1);
    let ids: Vec<u64> = round.rows.iter().map(|r| r.id).collect();
    assert_eq!(ids, vec![7, 8]);
    assert!(round.rows.iter().all(|r| r.kills == 0 && r.deaths == 0 && r.connected));
}

#[test]
fn running_match_adds_rows_for_new_players() {
    let mut clock = MatchClock::default();
    let mut round = MatchState { rows: vec![row(1, 3, 1)], ..MatchState::default() };
    let mut players = vec![PlayerState::default(); 2];
    let inputs = vec![PlayerInput::default(); 2];
    let outcome = run_match(&mut clock, &mut round, 1_000, &mut players, &inputs, &present(&[1, 2]), 0);
    assert!(!outcome.reset && !outcome.clear_bolts);
    assert!(players.iter().all(|p| !p.match_paused));
    assert_eq!(round.rows.len(), 2);
    assert_eq!((round.rows[0].id, round.rows[0].kills), (1, 3));
    assert_eq!((round.rows[1].id, round.rows[1].kills), (2, 0));
}

fn names(list: &[&str]) -> Vec<String> {
    list.iter().map(|s| s.to_string()).collect()
}

#[test]
fn one_join_per_connection() {
    let ds = review_link(false, &names(&["  Ada ", "Bob", "x!"]), 3);
    assert_eq!(ds, vec![Admission::Admitted("Ada".into()), Admission::Ignored, Admission::Ignored]);
    let ds = review_link(false, &names(&["", "Bob"]), 3);
    assert_eq!(ds, vec![Admission::Rejected("Enter a nickname.".into()), Admission::Admitted("Bob".into())]);
    let ds = review_link(true, &names(&["Bob"]), 0);
    assert_eq!(ds, vec![Admission::Ignored]);
}

#[test]
fn frame_never_overfills_the_arena() {
    let full = "The server is full. Please try again later.".to_string();
    let links = vec![
        (false, names(&["A", "B"])),
        (true, names(&["C"])),
        (false, names(&["D"])),
        (false, names(&["E"])),
    ];
    let dss = review_frame(&links, MAX_PLAYERS - 2);
    assert_eq!(dss[0], vec![Admission::Admitted("A".into()), Admission::Ignored]);
    assert_eq!(dss[1], vec![Admission::Ignored]);
    assert_eq!(dss[2], vec![Admission::Admitted("D".into())]);
    assert_eq!(dss[3], vec![Admission::Rejected(full.clone())]);
    let dss = review_frame(&links, MAX_PLAYERS);
    let admitted = dss.iter().flatten().filter(|a| matches!(a, Admission::Admitted(_))).count();
    assert_eq!(admitted, 0);
    assert_eq!(dss[3], vec![Admission::Rejected(full)]);
}

fn shots_after(ticks: usize) -> u16 {
    let mut s = PlayerState::default();
    let fire = PlayerInput { fire: true, ..PlayerInput::default() };
    for _ in 0..ticks {
        step(&mut s, &fire);
    }
    s.weapon.shot
}

#[test]
fn held_fire_shoots_once_per_cooldown() {
    assert_eq!(shots_after(0), 0);
    assert_eq!(shots_after(1), 1);
    assert_eq!(shots_after(24), 1);
    assert_eq!(shots_after(25), 2);
    assert_eq!(shots_after(48), 2);
    assert_eq!(shots_after(49), 3);
    assert_eq!(shots_after(240), 10);
}

#[test]
fn whitespace_and_control_follow_std() {
    for code in 0..=0x10FFFFu32 {
        let Some(c) = char::from_u32(code) else { continue };
        let text = format!("{c}a");
        let result = validate(&text);
        if c.is_whitespace() {
            assert_eq!(result, Ok("a".to_string()), "U+{code:04X}");
        } else if c.is_alphanumeric() || c == '_' || c == '-' {
            assert_eq!(result, Ok(text), "U+{code:04X}");
        } else {
            assert!(result.is_err(), "U+{code:04X}");
        }
    }
    for code in 0..=0x3000u32 {
        let Some(c) = char::from_u32(code) else { continue };
        let mut draft = NicknameDraft::default();
        draft.insert_text(&format!("x{c}"));
        if c.is_control() {
            assert_eq!(draft.value, "", "U+{code:04X}");
        } else {
            assert_eq!(draft.value, format!("x{c}"), "U+{code:04X}");
        }
    }
}

#[test]
fn page_row_ranges() {
    assert_eq!(page_rows(10, 0, 4), (0, 4));
    assert_eq!(page_rows(10, 2, 4), (8, 10));
    assert_eq!(page_rows(10, 3, 4), (10, 10));
    assert_eq!(page_rows(0, 0, 4), (0, 0));
    assert_eq!(page_rows(10, usize::MAX, 4), (10, 10));
}

fn press(key: KeyKind, text: Option<&str>) -> KeyPress {
    KeyPress { key, pressed: true, repeat: false, text: text.map(str::to_string) }
}

#[test]
fn title_keys() {
    let mut draft = NicknameDraft::default();
    let out = draft.press_key(&press(KeyKind::Character("a".into()), Some("a")), false, false);
    assert!(out.edited && !out.submit);
    draft.press_key(&press(KeyKind::Character("b".into()), Some("b")), false, false);
    assert_eq!(draft.value, "ab");
    // Typing is suppressed on the frame an input method committed text.
    draft.press_key(&press(KeyKind::Character("c".into()), Some("c")), false, true);
    assert_eq!(draft.value, "ab");
    let out = draft.press_key(&press(KeyKind::Character("A".into()), Some("A")), true, false);
    assert!(draft.selected && !out.edited);
    draft.press_key(&press(KeyKind::Character("z".into()), Some("z")), false, false);
    assert_eq!(draft.value, "z");
    let out = draft.press_key(&press(KeyKind::Backspace, None), false, false);
    assert!(out.edited);
    assert_eq!(draft.value, "");
    assert!(draft.press_key(&press(KeyKind::Enter, Some("\r")), false, false).submit);
    let repeated = KeyPress { repeat: true, ..press(KeyKind::Enter, Some("\r")) };
    assert!(!draft.press_key(&repeated, false, false).submit);
    let released = KeyPress { pressed: false, ..press(KeyKind::Character("q".into()), Some("q")) };
    assert!(!draft.press_key(&released, false, false).edited);
    draft.composing = true;
    draft.press_key(&press(KeyKind::Character("q".into()), Some("q")), false, false);
    assert_eq!(draft.value, "");
}

#[test]
fn relaxed_tick_preconditions() {
    // Charges at the limit are fine while no recharge completes.
    let mut s = PlayerState::default();
    s.dash.charges = u8::MAX;
    s.dash.recharge_ticks = 0;
    plan_step(&mut s, &PlayerInput::default(), true);
    assert_eq!(s.dash.charges, u8::MAX);
    // A death tick that does not respawn needs no spawns.
    let mut s = PlayerState { death: Some(DeathState { remaining_ticks: 5 }), ..PlayerState::default() };
    assert!(!death_tick(&mut s, &PlayerInput::default(), 0));
    assert_eq!(s.death.map(|d| d.remaining_ticks), Some(4));
}
