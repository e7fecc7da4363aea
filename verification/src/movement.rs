//! The discrete half of one simulation tick, the same on the authoritative
//! server and during client replay: death and respawn, jump and dash
//! resources with their press history, and map triggers.  Positions and
//! velocities are integrated by the physics, which asks these functions what
//! happens and applies the geometric part.
use vstd::prelude::*;
use crate::health::{Health, MAX_HEALTH};
use crate::level::TriggerKind;
use crate::protocol::{DashState, DeathState, JumpState, PlayerInput, PlayerState};
use crate::weapon::WeaponState;

verus! {

pub const MAX_AIR_JUMPS: u8 = 1;

pub const MAX_DASH_CHARGES: u8 = 2;

/// Ticks a dash lasts.
pub const DASH_TICKS: u16 = 18;

/// Ticks to restore one dash charge.
pub const DASH_RECHARGE_TICKS: u16 = 90;

/// Ticks from death to respawn.
pub const RESPAWN_TICKS: u16 = 360;

/// Ticks during which map triggers are ignored after one fired.
pub const TRIGGER_COOLDOWN_TICKS: u16 = 36;

/// The state after entering the death sequence; a dead player stays as is, so
/// repeated hits cannot reset the timer.
pub open spec fn killed(s: PlayerState) -> PlayerState {
    if s.death is Some {
        s
    } else {
        PlayerState {
            death: Some(DeathState { remaining_ticks: RESPAWN_TICKS }),
            dash: DashState { remaining_ticks: 0, ..s.dash },
            ..s
        }
    }
}

/// Enter the same death sequence for projectiles and map hazards.  The
/// physics stops the body and keeps the aim when this changes `death`.
pub fn kill(state: &mut PlayerState)
    ensures
        *final(state) == killed(*old(state)),
{
    if state.death.is_some() {
        return;
    }
    state.death = Some(DeathState { remaining_ticks: RESPAWN_TICKS });
    state.dash.remaining_ticks = 0;
}

/// Killing twice is killing once.
pub proof fn lemma_kill_idempotent(s: PlayerState)
    ensures
        killed(killed(s)) == killed(s),
{
}

/// The state of a player who respawns at the spawn after their previous one,
/// with every resource restored, the presses of `input` consumed and the shot
/// counter kept.
pub open spec fn respawned(s: PlayerState, input: PlayerInput, spawn_count: int) -> PlayerState {
    let index = (s.spawn_index as int + 1) % spawn_count;
    PlayerState {
        dash: DashState {
            charges: MAX_DASH_CHARGES,
            remaining_ticks: 0,
            recharge_ticks: 0,
            last_press: input.dash_press,
        },
        jump: JumpState { air_jumps_remaining: MAX_AIR_JUMPS, last_press: input.jump_press },
        weapon: WeaponState { cooldown_ticks: 0, shot: s.weapon.shot },
        health: Health(MAX_HEALTH),
        grounded: true,
        match_paused: false,
        death: None,
        trigger_cooldown: 0,
        spawn_index: index as u8,
        relocation: (if s.relocation == u16::MAX {
            0
        } else {
            s.relocation + 1
        }) as u16,
    }
}

/// Respawn at the next of the map's `spawn_count` spawns.  The physics places
/// the body at that spawn and turns it to the spawn's heading.
pub fn respawn(state: &mut PlayerState, input: &PlayerInput, spawn_count: usize)
    requires
        spawn_count > 0,
    ensures
        *final(state) == respawned(*old(state), *input, spawn_count as int),
{
    let index = (state.spawn_index as usize + 1) % spawn_count;
    *state = PlayerState {
        dash: DashState { last_press: input.dash_press, ..DashState::default() },
        jump: JumpState { last_press: input.jump_press, ..JumpState::default() },
        weapon: WeaponState { shot: state.weapon.shot, ..WeaponState::default() },
        grounded: true,
        spawn_index: index as u8,
        relocation: state.relocation.wrapping_add(1),
        ..PlayerState::default()
    };
}

/// One tick of a dead player: presses are consumed throughout death, so they
/// never become queued jumps or dashes, and the last tick respawns.
pub open spec fn death_ticked(s: PlayerState, input: PlayerInput, spawn_count: int) -> PlayerState {
    let left = (s.death->0.remaining_ticks - 1) as u16;
    let counted = PlayerState {
        jump: JumpState { last_press: input.jump_press, ..s.jump },
        dash: DashState { last_press: input.dash_press, ..s.dash },
        death: Some(DeathState { remaining_ticks: left }),
        ..s
    };
    if left == 0 {
        respawned(counted, input, spawn_count)
    } else {
        counted
    }
}

/// Count a dead player's respawn timer down; returns whether they respawned.
pub fn death_tick(state: &mut PlayerState, input: &PlayerInput, spawn_count: usize) -> (respawned: bool)
    requires
        old(state).death is Some,
        old(state).death->0.remaining_ticks > 0,
        old(state).death->0.remaining_ticks == 1 ==> spawn_count > 0,
    ensures
        *final(state) == death_ticked(*old(state), *input, spawn_count as int),
        respawned == (old(state).death->0.remaining_ticks == 1),
{
    state.jump.last_press = input.jump_press;
    state.dash.last_press = input.dash_press;
    let left = match state.death {
        Some(d) => d.remaining_ticks - 1,
        None => 0,
    };
    state.death = Some(DeathState { remaining_ticks: left });
    if left == 0 {
        respawn(state, input, spawn_count);
        true
    } else {
        false
    }
}

/// What the discrete part of a live tick decided, for the physics to carry out.
#[derive(Clone, Copy, Debug, PartialEq)]
pub struct StepPlan {
    /// A dash began this tick: the physics sets its direction.
    pub dash_started: bool,
    /// The dash overrides all momentum this tick.
    pub dashing: bool,
    /// The player jumps this tick.
    pub jumped: bool,
}

/// Dash charges and recharge timer after one tick of recharging: charges come
/// back one at a time, each after `DASH_RECHARGE_TICKS`, while airborne or dashing too.
pub open spec fn recharged(d: DashState) -> DashState {
    if d.recharge_ticks > 0 {
        let left = (d.recharge_ticks - 1) as u16;
        if left == 0 {
            let charges = (if d.charges + 1 <= MAX_DASH_CHARGES {
                d.charges + 1
            } else {
                MAX_DASH_CHARGES as int
            }) as u8;
            DashState {
                charges,
                recharge_ticks: if charges < MAX_DASH_CHARGES {
                    DASH_RECHARGE_TICKS
                } else {
                    0
                },
                ..d
            }
        } else {
            DashState { recharge_ticks: left, ..d }
        }
    } else {
        d
    }
}

/// The discrete outcome of the first half of a live tick for a player who is
/// on the ground (or not) at its start.
pub open spec fn planned(s: PlayerState, input: PlayerInput, grounded: bool) -> (PlayerState, StepPlan) {
    let air = if grounded {
        MAX_AIR_JUMPS
    } else {
        s.jump.air_jumps_remaining
    };
    let jump_pressed = input.jump_press != s.jump.last_press;
    let d = recharged(s.dash);
    let dash_pressed = input.dash_press != s.dash.last_press;
    let start = dash_pressed && d.charges > 0;
    let d = if start {
        DashState {
            charges: (d.charges - 1) as u8,
            remaining_ticks: DASH_TICKS,
            recharge_ticks: if d.recharge_ticks == 0 {
                DASH_RECHARGE_TICKS
            } else {
                d.recharge_ticks
            },
            ..d
        }
    } else {
        d
    };
    let dashing = d.remaining_ticks > 0;
    let d = if dashing {
        DashState { remaining_ticks: (d.remaining_ticks - 1) as u16, ..d }
    } else {
        d
    };
    let jumped = !dashing && jump_pressed && (grounded || air > 0);
    let air = if jumped && !grounded {
        (air - 1) as u8
    } else {
        air
    };
    (
        PlayerState {
            jump: JumpState { air_jumps_remaining: air, last_press: input.jump_press },
            dash: DashState { last_press: input.dash_press, ..d },
            ..s
        },
        StepPlan { dash_started: start, dashing, jumped },
    )
}

/// The discrete first half of a live tick: restore air jumps on the ground,
/// consume jump and dash presses (even when they cannot act, so they cannot
/// fire on landing), recharge and spend dash charges, and decide between
/// dashing and jumping.
pub fn plan_step(state: &mut PlayerState, input: &PlayerInput, grounded: bool) -> (plan: StepPlan)
    requires
        old(state).dash.recharge_ticks == 1 ==> old(state).dash.charges < u8::MAX,
    ensures
        (*final(state), plan) == planned(*old(state), *input, grounded),
        final(state).dash.last_press == input.dash_press,
        final(state).jump.last_press == input.jump_press,
        input.dash_press == old(state).dash.last_press ==> !plan.dash_started,
        input.dash_press != old(state).dash.last_press && old(state).dash.charges > 0 ==> plan.dash_started,
        input.dash_press != old(state).dash.last_press && recharged(old(state).dash).charges > 0
            ==> plan.dash_started,
        plan.dash_started ==> {
            &&& plan.dashing
            &&& final(state).dash.charges + 1 == recharged(old(state).dash).charges
            &&& final(state).dash.remaining_ticks == DASH_TICKS - 1
        },
        plan.jumped ==> !plan.dashing && input.jump_press != old(state).jump.last_press,
        input.jump_press != old(state).jump.last_press && grounded && !plan.dashing ==> plan.jumped,
        !grounded && old(state).jump.air_jumps_remaining == 0 ==> !plan.jumped,
{
    if grounded {
        state.jump.air_jumps_remaining = MAX_AIR_JUMPS;
    }
    let jump_pressed = input.jump_press != state.jump.last_press;
    state.jump.last_press = input.jump_press;
    if state.dash.recharge_ticks > 0 {
        state.dash.recharge_ticks = state.dash.recharge_ticks - 1;
        if state.dash.recharge_ticks == 0 {
            let restored = state.dash.charges + 1;
            state.dash.charges = if restored <= MAX_DASH_CHARGES {
                restored
            } else {
                MAX_DASH_CHARGES
            };
            if state.dash.charges < MAX_DASH_CHARGES {
                state.dash.recharge_ticks = DASH_RECHARGE_TICKS;
            }
        }
    }
    let dash_pressed = input.dash_press != state.dash.last_press;
    state.dash.last_press = input.dash_press;
    let mut dash_started = false;
    if dash_pressed && state.dash.charges > 0 {
        state.dash.charges = state.dash.charges - 1;
        state.dash.remaining_ticks = DASH_TICKS;
        if state.dash.recharge_ticks == 0 {
            state.dash.recharge_ticks = DASH_RECHARGE_TICKS;
        }
        dash_started = true;
    }
    let dashing = state.dash.remaining_ticks > 0;
    let mut jumped = false;
    if dashing {
        state.dash.remaining_ticks = state.dash.remaining_ticks - 1;
    } else if jump_pressed && (grounded || state.jump.air_jumps_remaining > 0) {
        if !grounded {
            state.jump.air_jumps_remaining = state.jump.air_jumps_remaining - 1;
        }
        jumped = true;
    }
    StepPlan { dash_started, dashing, jumped }
}

/// The discrete outcome of the second half of a live tick, once the physics
/// moved the body: `grounded_after` and `landed` describe that motion and
/// `descending` whether the planned velocity pointed down.
pub open spec fn landed_state(
    s: PlayerState,
    dashing: bool,
    grounded_before: bool,
    grounded_after: bool,
    landed: bool,
    descending: bool,
) -> (PlayerState, bool) {
    let impact = dashing && !grounded_before && landed && descending;
    let dash = if impact {
        DashState { remaining_ticks: 0, ..s.dash }
    } else {
        s.dash
    };
    let jump = if grounded_after {
        JumpState { air_jumps_remaining: MAX_AIR_JUMPS, ..s.jump }
    } else {
        s.jump
    };
    (PlayerState { grounded: grounded_after, dash, jump, ..s }, impact)
}

/// The discrete second half of a live tick.  Returns whether an airborne
/// dash hit the floor: the physics then turns its downward speed into forward
/// speed, and the dash ends.
pub fn land_step(
    state: &mut PlayerState,
    dashing: bool,
    grounded_before: bool,
    grounded_after: bool,
    landed: bool,
    descending: bool,
) -> (impact: bool)
    ensures
        (*final(state), impact) == landed_state(
            *old(state),
            dashing,
            grounded_before,
            grounded_after,
            landed,
            descending,
        ),
{
    state.grounded = grounded_after;
    let impact = dashing && !grounded_before && landed && descending;
    if impact {
        state.dash.remaining_ticks = 0;
    }
    if grounded_after {
        state.jump.air_jumps_remaining = MAX_AIR_JUMPS;
    }
    impact
}

/// One jump attempt per press: a second tick with the same input neither
/// jumps nor starts a dash, whatever happened on the first.
pub proof fn lemma_press_consumed(s: PlayerState, input: PlayerInput, grounded: bool, grounded2: bool)
    ensures
        !planned(planned(s, input, grounded).0, input, grounded2).1.jumped,
        !planned(planned(s, input, grounded).0, input, grounded2).1.dash_started,
{
}

/// Dash charges never exceed the maximum and a recharge never waits longer
/// than one recharge period.
pub proof fn lemma_dash_bounds(s: PlayerState, input: PlayerInput, grounded: bool)
    requires
        s.dash.charges <= MAX_DASH_CHARGES,
        s.dash.recharge_ticks <= DASH_RECHARGE_TICKS,
        s.dash.remaining_ticks <= DASH_TICKS,
    ensures
        planned(s, input, grounded).0.dash.charges <= MAX_DASH_CHARGES,
        planned(s, input, grounded).0.dash.recharge_ticks <= DASH_RECHARGE_TICKS,
        planned(s, input, grounded).0.dash.remaining_ticks < DASH_TICKS,
{
}

/// Presses are consumed while dead too: after any death tick the press
/// history equals the input's counters.
pub proof fn lemma_death_consumes_presses(s: PlayerState, input: PlayerInput, spawn_count: int)
    requires
        s.death is Some,
        s.death->0.remaining_ticks > 0,
        s.death->0.remaining_ticks == 1 ==> spawn_count > 0,
    ensures
        death_ticked(s, input, spawn_count).jump.last_press == input.jump_press,
        death_ticked(s, input, spawn_count).dash.last_press == input.dash_press,
{
}

/// Dashing does not depend on the ground: whether a dash starts, and whether
/// the tick is a dash tick, is the same on the ground and in the air; a new
/// press with a charge (after this tick's recharge) always starts one.
pub proof fn lemma_dash_anywhere(s: PlayerState, input: PlayerInput)
    ensures
        planned(s, input, true).1.dash_started == planned(s, input, false).1.dash_started,
        planned(s, input, true).1.dashing == planned(s, input, false).1.dashing,
        planned(s, input, true).0.dash == planned(s, input, false).0.dash,
        input.dash_press != s.dash.last_press && recharged(s.dash).charges > 0 ==> planned(
            s,
            input,
            false,
        ).1.dash_started && planned(s, input, true).1.dash_started,
        input.dash_press != s.dash.last_press && s.dash.charges > 0 ==> planned(
            s,
            input,
            false,
        ).1.dash_started,
        planned(s, input, false).1.dash_started ==> planned(s, input, false).0.dash.charges + 1 == recharged(
            s.dash,
        ).charges,
{
}

/// Charges recharge, never drain, on their own: the recharge keeps every charge.
pub proof fn lemma_recharge_keeps_charges(d: DashState)
    ensures
        recharged(d).charges >= d.charges || d.charges > MAX_DASH_CHARGES,
        d.recharge_ticks == 0 ==> recharged(d) == d,
        d.recharge_ticks > 1 ==> recharged(d).charges == d.charges && recharged(d).recharge_ticks
            == d.recharge_ticks - 1,
        d.recharge_ticks == 1 && d.charges + 1 < MAX_DASH_CHARGES ==> recharged(d).charges == d.charges + 1
            && recharged(d).recharge_ticks == DASH_RECHARGE_TICKS,
        d.recharge_ticks == 1 && d.charges + 1 == MAX_DASH_CHARGES ==> recharged(d).charges == MAX_DASH_CHARGES
            && recharged(d).recharge_ticks == 0,
{
}

/// A jump needs a new press and no dash this tick; on the ground a new press
/// without a dash always jumps, in the air only with an air jump left, which
/// it uses up.
pub proof fn lemma_jump_rules(s: PlayerState, input: PlayerInput, grounded: bool)
    ensures
        planned(s, input, grounded).1.jumped ==> input.jump_press != s.jump.last_press && !planned(
            s,
            input,
            grounded,
        ).1.dashing,
        grounded && input.jump_press != s.jump.last_press && !planned(s, input, grounded).1.dashing
            ==> planned(s, input, grounded).1.jumped,
        !grounded && s.jump.air_jumps_remaining == 0 ==> !planned(s, input, grounded).1.jumped,
        !grounded && planned(s, input, grounded).1.jumped ==> planned(s, input, grounded).0.jump.air_jumps_remaining
            == s.jump.air_jumps_remaining - 1,
{
}

/// What a map trigger did this tick.
#[derive(Clone, Copy, Debug, PartialEq, Eq)]
pub enum TriggerOutcome {
    /// Nothing fired.
    Untouched,
    /// A hazard (a hurt volume, or falling out of the map) killed the player.
    Killed,
    /// The trigger at this index launched the player with its velocity.
    Pushed(usize),
    /// The trigger at this index moved the player to its destination.
    Relocated(usize),
}

/// Whether a hurt trigger touches the player.
pub open spec fn hurt_touches(touching: Seq<bool>, kinds: Seq<TriggerKind>) -> bool {
    exists|k: int| 0 <= k < touching.len() && #[trigger] touching[k] && kinds[k] == TriggerKind::Hurt
}

/// `k` is the first index whose trigger touches the player.
pub open spec fn first_touch(touching: Seq<bool>, k: int) -> bool {
    &&& 0 <= k < touching.len()
    &&& touching[k]
    &&& forall|m: int| 0 <= m < k ==> !#[trigger] touching[m]
}

/// The state with the trigger cooldown counted down by one tick.
pub open spec fn cooled(s: PlayerState) -> PlayerState {
    PlayerState {
        trigger_cooldown: (if s.trigger_cooldown > 0 {
            s.trigger_cooldown - 1
        } else {
            0
        }) as u16,
        ..s
    }
}

/// The state after a push volume launched the player.
pub open spec fn pushed(s: PlayerState) -> PlayerState {
    PlayerState {
        grounded: false,
        dash: DashState { remaining_ticks: 0, ..s.dash },
        jump: JumpState { air_jumps_remaining: MAX_AIR_JUMPS, ..s.jump },
        trigger_cooldown: TRIGGER_COOLDOWN_TICKS,
        ..s
    }
}

/// The state after a teleporter or warp moved the player.
pub open spec fn relocated(s: PlayerState) -> PlayerState {
    PlayerState {
        relocation: (if s.relocation == u16::MAX {
            0
        } else {
            s.relocation + 1
        }) as u16,
        grounded: false,
        trigger_cooldown: TRIGGER_COOLDOWN_TICKS,
        ..s
    }
}

/// The first index whose trigger touches the player.
pub open spec fn first_touched(touching: Seq<bool>) -> int {
    choose|k: int| first_touch(touching, k)
}

/// The player and the outcome after the map's triggers this tick.
pub open spec fn triggered(s: PlayerState, fell: bool, touching: Seq<bool>, kinds: Seq<TriggerKind>) -> (
    PlayerState,
    TriggerOutcome,
) {
    let c = cooled(s);
    if fell || hurt_touches(touching, kinds) {
        (killed(c), TriggerOutcome::Killed)
    } else if c.trigger_cooldown > 0 || !(exists|k: int| 0 <= k < touching.len() && #[trigger] touching[k]) {
        (c, TriggerOutcome::Untouched)
    } else {
        let k = first_touched(touching);
        if kinds[k] == TriggerKind::Push {
            (pushed(c), TriggerOutcome::Pushed(k as usize))
        } else {
            (relocated(c), TriggerOutcome::Relocated(k as usize))
        }
    }
}

proof fn lemma_first_touch_unique(touching: Seq<bool>, k: int, l: int)
    requires
        first_touch(touching, k),
        first_touch(touching, l),
    ensures
        k == l,
{
    if k < l {
        assert(!touching[k]);
    } else if l < k {
        assert(!touching[l]);
    }
}

proof fn lemma_first_touch_exists(touching: Seq<bool>, j: int)
    requires
        0 <= j < touching.len(),
        touching[j],
    ensures
        exists|k: int| first_touch(touching, k),
    decreases j,
{
    if exists|m: int| 0 <= m < j && #[trigger] touching[m] {
        let m = choose|m: int| 0 <= m < j && #[trigger] touching[m];
        lemma_first_touch_exists(touching, m);
    } else {
        assert(first_touch(touching, j));
    }
}

/// A trigger that fires starts the cooldown: after a push, a teleport or a
/// warp the cooldown is `TRIGGER_COOLDOWN_TICKS`, and while more than one
/// tick of cooldown is left no trigger fires, so none fires again within
/// `TRIGGER_COOLDOWN_TICKS` ticks.  Hazards kill even then.
pub proof fn lemma_trigger_cooldown(s: PlayerState, fell: bool, touching: Seq<bool>, kinds: Seq<TriggerKind>)
    requires
        touching.len() == kinds.len(),
    ensures
        (triggered(s, fell, touching, kinds).1 is Pushed || triggered(s, fell, touching, kinds).1 is Relocated)
            ==> triggered(s, fell, touching, kinds).0.trigger_cooldown == TRIGGER_COOLDOWN_TICKS,
        s.trigger_cooldown > 1 ==> triggered(s, fell, touching, kinds).1 is Untouched || triggered(
            s,
            fell,
            touching,
            kinds,
        ).1 is Killed,
        fell || hurt_touches(touching, kinds) ==> triggered(s, fell, touching, kinds).1 is Killed
            && triggered(s, fell, touching, kinds).0.death is Some,
        triggered(s, fell, touching, kinds).1 is Untouched ==> triggered(s, fell, touching, kinds).0
            == (PlayerState { trigger_cooldown: (if s.trigger_cooldown > 0 { s.trigger_cooldown - 1 } else { 0 }) as u16, ..s }),
        (forall|k: int| 0 <= k < touching.len() ==> !#[trigger] touching[k]) && !fell ==> triggered(
            s,
            fell,
            touching,
            kinds,
        ).1 is Untouched,
{
}

/// A ready player touching a trigger, and no hazard, is moved by the first
/// trigger touched: pushed by a push pad, relocated by a teleporter or warp
/// (a new relocation count, off the ground).
pub proof fn lemma_trigger_fires(s: PlayerState, touching: Seq<bool>, kinds: Seq<TriggerKind>, j: int)
    requires
        touching.len() == kinds.len(),
        0 <= j < touching.len(),
        touching[j],
        !hurt_touches(touching, kinds),
        s.trigger_cooldown <= 1,
    ensures
        ({
            let (after, outcome) = triggered(s, false, touching, kinds);
            let k = first_touched(touching);
            &&& first_touch(touching, k)
            &&& k <= j
            &&& kinds[k] == TriggerKind::Push ==> outcome == TriggerOutcome::Pushed(k as usize) && !after.grounded
                && after.dash.remaining_ticks == 0 && after.jump.air_jumps_remaining == MAX_AIR_JUMPS
                && after.relocation == s.relocation
            &&& kinds[k] != TriggerKind::Push ==> outcome == TriggerOutcome::Relocated(k as usize)
                && after.relocation != s.relocation && !after.grounded
            &&& after.trigger_cooldown == TRIGGER_COOLDOWN_TICKS
        }),
{
    lemma_first_touch_exists(touching, j);
    let k = first_touched(touching);
    if j < k {
        assert(!touching[j]);
    }
}

/// Apply the map's triggers.  `touching[k]` says whether trigger `k`, of kind
/// `kinds[k]`, touches the player; `fell` whether they fell below the map.
/// Hazards kill even during the cooldown; otherwise the first touching
/// trigger fires, unless one fired within the last `TRIGGER_COOLDOWN_TICKS`.
pub fn apply_map_triggers(
    state: &mut PlayerState,
    fell: bool,
    touching: &[bool],
    kinds: &[TriggerKind],
) -> (outcome: TriggerOutcome)
    requires
        touching@.len() == kinds@.len(),
    ensures
        (*final(state), outcome) == triggered(*old(state), fell, touching@, kinds@),
        (outcome is Pushed || outcome is Relocated) ==> final(state).trigger_cooldown == TRIGGER_COOLDOWN_TICKS,
        old(state).trigger_cooldown > 1 ==> outcome is Untouched || outcome is Killed,
        ({
            let s = cooled(*old(state));
            let hazard = fell || hurt_touches(touching@, kinds@);
            match outcome {
                TriggerOutcome::Killed => hazard && *final(state) == killed(s),
                TriggerOutcome::Untouched => {
                    &&& !hazard
                    &&& (s.trigger_cooldown > 0 || forall|k: int|
                        0 <= k < touching@.len() ==> !#[trigger] touching@[k])
                    &&& *final(state) == s
                },
                TriggerOutcome::Pushed(k) => {
                    &&& !hazard
                    &&& s.trigger_cooldown == 0
                    &&& first_touch(touching@, k as int)
                    &&& kinds@[k as int] == TriggerKind::Push
                    &&& *final(state) == pushed(s)
                },
                TriggerOutcome::Relocated(k) => {
                    &&& !hazard
                    &&& s.trigger_cooldown == 0
                    &&& first_touch(touching@, k as int)
                    &&& (kinds@[k as int] == TriggerKind::Teleport || kinds@[k as int]
                        == TriggerKind::Warp)
                    &&& *final(state) == relocated(s)
                },
            }
        }),
{
    state.trigger_cooldown = state.trigger_cooldown.saturating_sub(1);
    let n = touching.len();
    let mut hazard = fell;
    let mut k: usize = 0;
    while k < n && !hazard
        invariant
            0 <= k <= n,
            n == touching@.len(),
            n == kinds@.len(),
            hazard ==> (fell || hurt_touches(touching@, kinds@)),
            !hazard ==> !fell && forall|m: int|
                0 <= m < k ==> !(#[trigger] touching@[m] && kinds@[m] == TriggerKind::Hurt),
        decreases n - k + (if hazard { 0int } else { 1int }),
    {
        if touching[k] && kinds[k] == TriggerKind::Hurt {
            hazard = true;
        } else {
            k = k + 1;
        }
    }
    if hazard {
        kill(state);
        return TriggerOutcome::Killed;
    }
    if state.trigger_cooldown > 0 {
        return TriggerOutcome::Untouched;
    }
    let mut k: usize = 0;
    while k < n
        invariant
            0 <= k <= n,
            n == touching@.len(),
            n == kinds@.len(),
            !fell,
            !hurt_touches(touching@, kinds@),
            forall|m: int| 0 <= m < k ==> !#[trigger] touching@[m],
            *state == cooled(*old(state)),
            state.trigger_cooldown == 0,
        decreases n - k,
    {
        if touching[k] {
            match kinds[k] {
                TriggerKind::Push => {
                    proof {
                        assert(first_touch(touching@, k as int));
                        lemma_first_touch_unique(touching@, k as int, first_touched(touching@));
                    }
                    state.grounded = false;
                    state.dash.remaining_ticks = 0;
                    state.jump.air_jumps_remaining = MAX_AIR_JUMPS;
                    state.trigger_cooldown = TRIGGER_COOLDOWN_TICKS;
                    return TriggerOutcome::Pushed(k);
                },
                TriggerKind::Teleport | TriggerKind::Warp => {
                    proof {
                        assert(first_touch(touching@, k as int));
                        lemma_first_touch_unique(touching@, k as int, first_touched(touching@));
                    }
                    state.relocation = state.relocation.wrapping_add(1);
                    state.grounded = false;
                    state.trigger_cooldown = TRIGGER_COOLDOWN_TICKS;
                    return TriggerOutcome::Relocated(k);
                },
                TriggerKind::Hurt => {
                    assert(hurt_touches(touching@, kinds@));
                    return TriggerOutcome::Untouched;
                },
            }
        }
        k = k + 1;
    }
    TriggerOutcome::Untouched
}

} // verus!
