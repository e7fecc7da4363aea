//! The messages and the replicated player state of the game protocol, as far
//! as they hold no geometry: identities, intents, and the discrete part of a
//! player's rollback state.
use vstd::prelude::*;
use crate::health::{Health, MAX_HEALTH};
use crate::weapon::WeaponState;

verus! {

/// A player's stable identity.
#[derive(Clone, Debug, PartialEq)]
pub struct PlayerId(pub u64);

/// A player's validated nickname.
#[derive(Clone, Debug, PartialEq)]
pub struct PlayerName(pub String);

/// A client's request to enter the match under a nickname.
#[derive(Clone, Debug, PartialEq)]
pub struct JoinRequest {
    pub nickname: String,
}

/// The server's refusal of a join request, with the reason shown to the player.
#[derive(Clone, Debug, PartialEq)]
pub struct JoinRejected {
    pub reason: String,
}

/// Death timing rewinds together with movement prediction.
#[derive(Clone, Copy, Debug, PartialEq)]
pub struct DeathState {
    pub remaining_ticks: u16,
}

/// The extra air jump and the consumed press history rewind with prediction.
#[derive(Clone, Copy, Debug, PartialEq)]
pub struct JumpState {
    pub air_jumps_remaining: u8,
    pub last_press: u16,
}

impl Default for JumpState {
    fn default() -> (j: Self)
        ensures
            j == (JumpState { air_jumps_remaining: crate::movement::MAX_AIR_JUMPS, last_press: 0 }),
    {
        JumpState { air_jumps_remaining: crate::movement::MAX_AIR_JUMPS, last_press: 0 }
    }
}

/// Dash resources, timers and press history are part of rollback state.
#[derive(Clone, Copy, Debug, PartialEq)]
pub struct DashState {
    pub charges: u8,
    pub remaining_ticks: u16,
    pub recharge_ticks: u16,
    pub last_press: u16,
}

impl Default for DashState {
    fn default() -> (d: Self)
        ensures
            d == (DashState {
                charges: crate::movement::MAX_DASH_CHARGES,
                remaining_ticks: 0,
                recharge_ticks: 0,
                last_press: 0,
            }),
    {
        DashState {
            charges: crate::movement::MAX_DASH_CHARGES,
            remaining_ticks: 0,
            recharge_ticks: 0,
            last_press: 0,
        }
    }
}

/// The discrete part of a player's simulated state: resources, timers, press
/// history and flags.  Feet position, velocities and angles are kept beside it
/// by the physics, which reads and writes no field here except through the
/// functions of this library.
#[derive(Clone, Copy, Debug, PartialEq)]
pub struct PlayerState {
    pub dash: DashState,
    pub jump: JumpState,
    pub weapon: WeaponState,
    pub health: Health,
    pub grounded: bool,
    pub match_paused: bool,
    pub death: Option<DeathState>,
    pub trigger_cooldown: u16,
    pub spawn_index: u8,
    /// Changes on every teleport or respawn, so that no one interpolates across it.
    pub relocation: u16,
}

/// The state a player starts from, before a spawn is chosen.
pub open spec fn default_player_state() -> PlayerState {
    PlayerState {
        dash: DashState {
            charges: crate::movement::MAX_DASH_CHARGES,
            remaining_ticks: 0,
            recharge_ticks: 0,
            last_press: 0,
        },
        jump: JumpState { air_jumps_remaining: crate::movement::MAX_AIR_JUMPS, last_press: 0 },
        weapon: WeaponState { cooldown_ticks: 0, shot: 0 },
        health: Health(MAX_HEALTH),
        grounded: false,
        match_paused: false,
        death: None,
        trigger_cooldown: 0,
        spawn_index: 0,
        relocation: 0,
    }
}

impl Default for PlayerState {
    fn default() -> (s: Self)
        ensures
            s == default_player_state(),
    {
        PlayerState {
            dash: DashState::default(),
            jump: JumpState::default(),
            weapon: WeaponState::default(),
            health: Health::default(),
            grounded: false,
            match_paused: false,
            death: None,
            trigger_cooldown: 0,
            spawn_index: 0,
            relocation: 0,
        }
    }
}

/// Only intent crosses the client-to-server boundary.  Aim is quantized:
/// `yaw` is a fraction of a full turn in units of 1/65536, `pitch` a fraction
/// of the maximum pitch in units of 1/32767.
#[derive(Clone, Copy, Debug, PartialEq, Eq)]
pub struct PlayerInput {
    pub forward: bool,
    pub backward: bool,
    pub left: bool,
    pub right: bool,
    /// One jump attempt per physical press; holding or repeating a packet cannot jump again.
    pub jump_press: u16,
    /// Wrapping press counter; repeating an input packet must not trigger another dash.
    pub dash_press: u16,
    /// Held fire button; fire cadence is enforced by the shared simulation.
    pub fire: bool,
    pub yaw: u16,
    pub pitch: i16,
}

impl Default for PlayerInput {
    fn default() -> (i: Self)
        ensures
            i == (PlayerInput {
                forward: false,
                backward: false,
                left: false,
                right: false,
                jump_press: 0,
                dash_press: 0,
                fire: false,
                yaw: 0,
                pitch: 0,
            }),
    {
        PlayerInput {
            forward: false,
            backward: false,
            left: false,
            right: false,
            jump_press: 0,
            dash_press: 0,
            fire: false,
            yaw: 0,
            pitch: 0,
        }
    }
}

} // verus!
