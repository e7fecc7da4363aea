//! The automatic energy pistol.  Fire gating rewinds with player prediction;
//! projectile movement and hits are decided by the server.
use vstd::prelude::*;
use crate::protocol::{PlayerInput, PlayerState};

verus! {

pub const FIRE_COOLDOWN_TICKS: u16 = 24;

pub const PROJECTILE_DAMAGE: u16 = 25;

pub const PROJECTILE_LIFETIME_TICKS: u16 = 240;

/// Fire cooldown and the wrapping count of shots fired.
#[derive(Clone, Copy, Debug, PartialEq)]
pub struct WeaponState {
    pub cooldown_ticks: u16,
    pub shot: u16,
}

impl Default for WeaponState {
    fn default() -> (w: Self)
        ensures
            w == (WeaponState { cooldown_ticks: 0, shot: 0 }),
    {
        WeaponState { cooldown_ticks: 0, shot: 0 }
    }
}

/// The weapon after one tick with the fire button `fire` held (or not) by a
/// player who is alive (or not).
pub open spec fn weapon_ticked(w: WeaponState, fire: bool, alive: bool) -> WeaponState {
    let cooldown = if w.cooldown_ticks > 0 {
        (w.cooldown_ticks - 1) as u16
    } else {
        0u16
    };
    if fire && cooldown == 0 && alive {
        WeaponState { cooldown_ticks: FIRE_COOLDOWN_TICKS, shot: (if w.shot == u16::MAX {
            0
        } else {
            w.shot + 1
        }) as u16 }
    } else {
        WeaponState { cooldown_ticks: cooldown, shot: w.shot }
    }
}

/// One fixed tick of the weapon: count the cooldown down and fire when the
/// button is held, the cooldown is over and the player is alive.
pub fn step(state: &mut PlayerState, input: &PlayerInput)
    ensures
        *final(state) == (PlayerState {
            weapon: weapon_ticked(old(state).weapon, input.fire, old(state).death is None),
            ..*old(state)
        }),
        !input.fire ==> final(state).weapon.shot == old(state).weapon.shot,
        old(state).death is Some ==> final(state).weapon.shot == old(state).weapon.shot,
        input.fire && old(state).death is None && old(state).weapon.cooldown_ticks <= 1 ==> {
            &&& final(state).weapon.shot as int == (old(state).weapon.shot + 1) % 65536
            &&& final(state).weapon.cooldown_ticks == FIRE_COOLDOWN_TICKS
        },
        old(state).weapon.cooldown_ticks > 1 ==> final(state).weapon.shot == old(state).weapon.shot
            && final(state).weapon.cooldown_ticks == old(state).weapon.cooldown_ticks - 1,
{
    let alive = state.death.is_none();
    let weapon = &mut state.weapon;
    weapon.cooldown_ticks = weapon.cooldown_ticks.saturating_sub(1);
    if input.fire && weapon.cooldown_ticks == 0 && alive {
        weapon.shot = weapon.shot.wrapping_add(1);
        weapon.cooldown_ticks = FIRE_COOLDOWN_TICKS;
    }
}

/// The weapon after one tick per entry of `fires`, the player staying alive or not.
pub open spec fn weapon_run(w: WeaponState, fires: Seq<bool>, alive: bool) -> WeaponState
    decreases fires.len(),
{
    if fires.len() == 0 {
        w
    } else {
        weapon_ticked(weapon_run(w, fires.drop_last(), alive), fires.last(), alive)
    }
}

proof fn lemma_weapon_run_cooling(w: WeaponState, fires: Seq<bool>, alive: bool)
    requires
        fires.len() < w.cooldown_ticks,
    ensures
        weapon_run(w, fires, alive).shot == w.shot,
        weapon_run(w, fires, alive).cooldown_ticks == w.cooldown_ticks - fires.len(),
    decreases fires.len(),
{
    if fires.len() > 0 {
        lemma_weapon_run_cooling(w, fires.drop_last(), alive);
    }
}

/// Fire cadence: after a shot, the next `FIRE_COOLDOWN_TICKS - 1` ticks fire
/// nothing, whatever the inputs.
pub proof fn lemma_fire_cadence(w: WeaponState, fire: bool, alive: bool, later: Seq<bool>)
    requires
        weapon_ticked(w, fire, alive).shot != w.shot,
        later.len() < FIRE_COOLDOWN_TICKS,
    ensures
        weapon_run(weapon_ticked(w, fire, alive), later, alive).shot == weapon_ticked(
            w,
            fire,
            alive,
        ).shot,
{
    lemma_weapon_run_cooling(weapon_ticked(w, fire, alive), later, alive);
}

/// `n` ticks with the fire button held.
pub open spec fn held(n: nat) -> Seq<bool> {
    Seq::new(n, |i: int| true)
}

proof fn lemma_held_run(w: WeaponState, n: nat)
    requires
        w.cooldown_ticks <= 1,
        n >= 1,
    ensures
        weapon_run(w, held(n), true).shot == (w.shot + (n - 1) / 24 + 1) % 65536,
        weapon_run(w, held(n), true).cooldown_ticks == 24 - (n - 1) % 24,
    decreases n,
{
    assert(held(n).drop_last() =~= held((n - 1) as nat));
    assert(held(n).last());
    let before = weapon_run(w, held((n - 1) as nat), true);
    assert(weapon_run(w, held(n), true) == weapon_ticked(before, true, true));
    if n > 1 {
        lemma_held_run(w, (n - 1) as nat);
        let m = (n - 2) as int;
        assert((m + 1) / 24 == (if m % 24 == 23 { m / 24 + 1 } else { m / 24 })) by (nonlinear_arith)
            requires m >= 0;
        assert((m + 1) % 24 == (if m % 24 == 23 { 0 } else { m % 24 + 1 })) by (nonlinear_arith)
            requires m >= 0;
        assert(before.shot == (w.shot + m / 24 + 1) % 65536);
        assert(((w.shot + m / 24 + 1) % 65536 + 1) % 65536 == (w.shot + m / 24 + 2) % 65536) by (nonlinear_arith)
            requires m >= 0;
    } else {
        assert(before == w);
    }
}

/// The trigger decides: a tick without the fire button held never fires,
/// and a dead player never fires; a live player holding fire on a ready
/// weapon (cooldown at most one tick) fires one shot and starts the cooldown;
/// a cooling weapon only counts down.
pub proof fn lemma_fire_needs_trigger(w: WeaponState, fire: bool, alive: bool)
    ensures
        !fire ==> weapon_ticked(w, fire, alive).shot == w.shot,
        !alive ==> weapon_ticked(w, fire, alive).shot == w.shot,
        fire && alive && w.cooldown_ticks <= 1 ==> {
            &&& weapon_ticked(w, fire, alive).shot as int == (w.shot + 1) % 65536
            &&& weapon_ticked(w, fire, alive).cooldown_ticks == FIRE_COOLDOWN_TICKS
        },
        w.cooldown_ticks > 1 ==> weapon_ticked(w, fire, alive).shot == w.shot
            && weapon_ticked(w, fire, alive).cooldown_ticks == w.cooldown_ticks - 1,
{
}

/// Released fire never shoots: however many ticks pass without the button,
/// the shot counter is unchanged.
pub proof fn lemma_released_never_fires(w: WeaponState, n: nat, alive: bool)
    ensures
        weapon_run(w, Seq::new(n, |i: int| false), alive).shot == w.shot,
    decreases n,
{
    if n > 0 {
        assert(Seq::new(n, |i: int| false).drop_last() =~= Seq::new((n - 1) as nat, |i: int| false));
        lemma_released_never_fires(w, (n - 1) as nat, alive);
    }
}

/// Holding fire one more tick is one more weapon step with the button held:
/// `n` calls of `step` with fire held on a live player give `weapon_run(w, held(n), true)`.
pub proof fn lemma_held_step(w: WeaponState, n: nat)
    ensures
        weapon_run(w, held(n + 1), true) == weapon_ticked(weapon_run(w, held(n), true), true, true),
{
    assert(held(n + 1).drop_last() =~= held(n));
    assert(held(n + 1).last());
}

/// Fire count: from a ready weapon, holding the button for `n` ticks fires
/// one shot at once and one more every `FIRE_COOLDOWN_TICKS` ticks, that is
/// `ceil(n / FIRE_COOLDOWN_TICKS)` shots (the counter wraps).
pub proof fn lemma_fire_count(w: WeaponState, n: nat)
    requires
        w.cooldown_ticks <= 1,
    ensures
        weapon_run(w, held(n), true).shot == (w.shot + (n + FIRE_COOLDOWN_TICKS - 1) / (
        FIRE_COOLDOWN_TICKS as int)) % 65536,
{
    if n == 0 {
        assert(held(0) =~= Seq::<bool>::empty());
    } else {
        lemma_held_run(w, n);
        assert((n + 23) / 24 == (n - 1) / 24 + 1) by (nonlinear_arith)
            requires n >= 1;
    }
}

/// The local player and shot count last seen by the first-person weapon.
pub struct ShotTracker {
    pub player: Option<u64>,
    pub shot: u16,
}

/// The shot counter's advance from `seen` to `now`, wrapping.
pub open spec fn shot_advance(seen: u16, now: u16) -> int {
    (now as int - seen as int) % 65536
}

/// Whether the local player's weapon fired since the last frame, for the
/// muzzle flash and recoil.  `local` is the predicted local player (id, shot
/// counter, dead), if there is one.  A new player only sets the baseline; a
/// counter that moved backwards (by half the range or more, as when
/// prediction is corrected) is ignored so that old flashes are not replayed,
/// and a dead player shows no flash.
pub fn detect_shot(tracker: &mut ShotTracker, local: Option<(u64, u16, bool)>) -> (fired: bool)
    ensures
        match local {
            None => !fired && final(tracker).player is None && final(tracker).shot == old(tracker).shot,
            Some((id, shot, dead)) => if old(tracker).player != Some(id) {
                !fired && final(tracker).player == Some(id) && final(tracker).shot == shot
            } else if shot_advance(old(tracker).shot, shot) == 0 || shot_advance(old(tracker).shot, shot)
                >= 32768 {
                !fired && final(tracker).player == old(tracker).player && final(tracker).shot == old(
                    tracker,
                ).shot
            } else {
                fired == !dead && final(tracker).player == old(tracker).player && final(tracker).shot
                    == shot
            },
        },
{
    match local {
        None => {
            tracker.player = None;
            false
        },
        Some((id, shot, dead)) => {
            if tracker.player != Some(id) {
                tracker.player = Some(id);
                tracker.shot = shot;
                return false;
            }
            let seen = tracker.shot;
            let difference = shot.wrapping_sub(seen);
            assert(difference == (shot as int - seen as int) % 65536) by (bit_vector)
                requires difference == shot.wrapping_sub(seen);
            if difference == 0 || difference >= 32768 {
                return false;
            }
            tracker.shot = shot;
            !dead
        },
    }
}

} // verus!
