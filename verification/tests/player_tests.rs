use hookrunner::health::{apply_damage, Health, MAX_HEALTH};
use hookrunner::level::TriggerKind;
use hookrunner::movement::{
    apply_map_triggers, death_tick, kill, land_step, plan_step, respawn, TriggerOutcome, DASH_RECHARGE_TICKS,
    DASH_TICKS, MAX_AIR_JUMPS, MAX_DASH_CHARGES, RESPAWN_TICKS, TRIGGER_COOLDOWN_TICKS,
};
use hookrunner::protocol::{PlayerInput, PlayerState};
use hookrunner::weapon::{detect_shot, step, ShotTracker, FIRE_COOLDOWN_TICKS};

#[test]
fn damage_until_death() {
    let mut s = PlayerState::default();
    assert_eq!(s.health, Health(MAX_HEALTH));
    assert!(!apply_damage(&mut s, 0));
    assert!(!apply_damage(&mut s, 60));
    assert_eq!(s.health.0, 40);
    assert!(apply_damage(&mut s, 60));
    assert_eq!(s.health.0, 0);
    assert_eq!(s.death.map(|d| d.remaining_ticks), Some(RESPAWN_TICKS));
    assert!(!apply_damage(&mut s, 60));
}

#[test]
fn paused_match_takes_no_damage() {
    let mut s = PlayerState { match_paused: true, ..PlayerState::default() };
    assert!(!apply_damage(&mut s, 100));
    assert_eq!(s.health.0, MAX_HEALTH);
}

#[test]
fn kill_is_idempotent() {
    let mut s = PlayerState::default();
    s.dash.remaining_ticks = 5;
    kill(&mut s);
    assert_eq!(s.dash.remaining_ticks, 0);
    s.death.as_mut().unwrap().remaining_ticks = 100;
    let before = s;
    kill(&mut s);
    assert_eq!(s, before);
}

#[test]
fn death_counts_down_then_respawns() {
    let mut s = PlayerState::default();
    s.weapon.shot = 7;
    s.spawn_index = 3;
    s.relocation = u16::MAX;
    kill(&mut s);
    let input = PlayerInput { jump_press: 4, dash_press: 9, ..PlayerInput::default() };
    for _ in 0..RESPAWN_TICKS - 1 {
        assert!(!death_tick(&mut s, &input, 4));
        assert_eq!((s.jump.last_press, s.dash.last_press), (4, 9));
    }
    assert!(death_tick(&mut s, &input, 4));
    assert!(s.death.is_none());
    assert_eq!(s.health.0, MAX_HEALTH);
    assert_eq!(s.spawn_index, 0);
    assert_eq!(s.relocation, 0);
    assert_eq!(s.weapon.shot, 7);
    assert!(s.grounded);
    assert_eq!((s.jump.last_press, s.dash.last_press), (4, 9));
}

#[test]
fn respawn_goes_to_next_spawn() {
    let mut s = PlayerState { spawn_index: 1, relocation: 10, ..PlayerState::default() };
    respawn(&mut s, &PlayerInput::default(), 5);
    assert_eq!((s.spawn_index, s.relocation), (2, 11));
}

#[test]
fn jump_once_per_press() {
    let mut s = PlayerState::default();
    let press = PlayerInput { jump_press: 1, ..PlayerInput::default() };
    let plan = plan_step(&mut s, &press, true);
    assert!(plan.jumped && !plan.dashing);
    let again = plan_step(&mut s, &press, false);
    assert!(!again.jumped);
    // A new press in the air uses the air jump, then no more.
    let press2 = PlayerInput { jump_press: 2, ..PlayerInput::default() };
    assert!(plan_step(&mut s, &press2, false).jumped);
    assert_eq!(s.jump.air_jumps_remaining, MAX_AIR_JUMPS - 1);
    let press3 = PlayerInput { jump_press: 3, ..PlayerInput::default() };
    assert!(!plan_step(&mut s, &press3, false).jumped);
}

#[test]
fn dash_spends_and_recharges_charges() {
    let mut s = PlayerState::default();
    let dash1 = PlayerInput { dash_press: 1, ..PlayerInput::default() };
    let plan = plan_step(&mut s, &dash1, true);
    assert!(plan.dash_started && plan.dashing);
    assert_eq!(s.dash.charges, MAX_DASH_CHARGES - 1);
    assert_eq!(s.dash.remaining_ticks, DASH_TICKS - 1);
    assert_eq!(s.dash.recharge_ticks, DASH_RECHARGE_TICKS);
    let dash2 = PlayerInput { dash_press: 2, ..PlayerInput::default() };
    assert!(plan_step(&mut s, &dash2, true).dash_started);
    assert_eq!(s.dash.charges, 0);
    let dash3 = PlayerInput { dash_press: 3, ..PlayerInput::default() };
    assert!(!plan_step(&mut s, &dash3, true).dash_started);
    // Recharge: one charge per period, sequentially.
    let mut ticks = 0;
    while s.dash.charges == 0 {
        plan_step(&mut s, &dash3, true);
        ticks += 1;
    }
    // The first charge returns DASH_RECHARGE_TICKS ticks after the dash that spent it.
    assert_eq!(ticks + 2, DASH_RECHARGE_TICKS);
    assert_eq!(s.dash.recharge_ticks, DASH_RECHARGE_TICKS);
    for _ in 0..DASH_RECHARGE_TICKS {
        plan_step(&mut s, &dash3, true);
    }
    assert_eq!(s.dash.charges, MAX_DASH_CHARGES);
    assert_eq!(s.dash.recharge_ticks, 0);
}

#[test]
fn dashing_blocks_jump() {
    let mut s = PlayerState::default();
    let both = PlayerInput { dash_press: 1, jump_press: 1, ..PlayerInput::default() };
    let plan = plan_step(&mut s, &both, true);
    assert!(plan.dashing && !plan.jumped);
}

#[test]
fn airborne_dash_impact_ends_dash() {
    let mut s = PlayerState::default();
    s.dash.remaining_ticks = 5;
    s.jump.air_jumps_remaining = 0;
    assert!(land_step(&mut s, true, false, true, true, true));
    assert_eq!(s.dash.remaining_ticks, 0);
    assert!(s.grounded);
    assert_eq!(s.jump.air_jumps_remaining, MAX_AIR_JUMPS);
    let mut t = PlayerState::default();
    t.dash.remaining_ticks = 5;
    assert!(!land_step(&mut t, true, true, true, true, true));
    assert_eq!(t.dash.remaining_ticks, 5);
}

#[test]
fn triggers_hazard_push_teleport_and_cooldown() {
    let kinds = [TriggerKind::Push, TriggerKind::Teleport, TriggerKind::Hurt];
    let mut s = PlayerState::default();
    assert_eq!(apply_map_triggers(&mut s, false, &[false, false, true], &kinds), TriggerOutcome::Killed);
    assert!(s.death.is_some());
    let mut s = PlayerState::default();
    assert_eq!(apply_map_triggers(&mut s, true, &[false, false, false], &kinds), TriggerOutcome::Killed);
    let mut s = PlayerState::default();
    s.dash.remaining_ticks = 3;
    s.jump.air_jumps_remaining = 0;
    assert_eq!(apply_map_triggers(&mut s, false, &[true, true, false], &kinds), TriggerOutcome::Pushed(0));
    assert_eq!(s.trigger_cooldown, TRIGGER_COOLDOWN_TICKS);
    assert_eq!((s.dash.remaining_ticks, s.jump.air_jumps_remaining), (0, MAX_AIR_JUMPS));
    // During the cooldown nothing fires.
    assert_eq!(apply_map_triggers(&mut s, false, &[false, true, false], &kinds), TriggerOutcome::Untouched);
    assert_eq!(s.trigger_cooldown, TRIGGER_COOLDOWN_TICKS - 1);
    let mut s = PlayerState::default();
    assert_eq!(apply_map_triggers(&mut s, false, &[false, true, false], &kinds), TriggerOutcome::Relocated(1));
    assert_eq!(s.relocation, 1);
    let mut s = PlayerState::default();
    assert_eq!(apply_map_triggers(&mut s, false, &[false, false, false], &kinds), TriggerOutcome::Untouched);
}

#[test]
fn fire_cadence() {
    let mut s = PlayerState::default();
    let fire = PlayerInput { fire: true, ..PlayerInput::default() };
    let mut shots = Vec::new();
    for tick in 0..60u16 {
        let before = s.weapon.shot;
        step(&mut s, &fire);
        if s.weapon.shot != before {
            shots.push(tick);
        }
    }
    assert_eq!(shots, vec![0, FIRE_COOLDOWN_TICKS, 2 * FIRE_COOLDOWN_TICKS]);
    let mut dead = PlayerState::default();
    kill(&mut dead);
    step(&mut dead, &fire);
    assert_eq!(dead.weapon.shot, 0);
}

#[test]
fn shot_counter_wraps() {
    let mut s = PlayerState::default();
    s.weapon.shot = u16::MAX;
    step(&mut s, &PlayerInput { fire: true, ..PlayerInput::default() });
    assert_eq!(s.weapon.shot, 0);
}

#[test]
fn detect_shot_baseline_replay_and_death() {
    let mut t = ShotTracker { player: None, shot: 0 };
    assert!(!detect_shot(&mut t, Some((5, 10, false))));
    assert_eq!((t.player, t.shot), (Some(5), 10));
    assert!(detect_shot(&mut t, Some((5, 11, false))));
    assert_eq!(t.shot, 11);
    assert!(!detect_shot(&mut t, Some((5, 11, false))));
    // A counter moved back by prediction correction is ignored.
    assert!(!detect_shot(&mut t, Some((5, 9, false))));
    assert_eq!(t.shot, 11);
    assert!(!detect_shot(&mut t, Some((5, 12, true))));
    assert_eq!(t.shot, 12);
    assert!(detect_shot(&mut t, Some((5, 2, false)).map(|(a, _, c)| (a, 13, c))));
    assert!(!detect_shot(&mut t, None));
    assert_eq!(t.player, None);
}
