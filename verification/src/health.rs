//! Health rewinds together with the player state.  Projectile damage is
//! applied only by the server.
use vstd::prelude::*;
use crate::protocol::PlayerState;
use crate::movement::{kill, killed};

verus! {

pub const MAX_HEALTH: u16 = 100;

#[derive(Clone, Copy, Debug, PartialEq)]
pub struct Health(pub u16);

impl Default for Health {
    fn default() -> (h: Self)
        ensures
            h == Health(MAX_HEALTH),
    {
        Health(MAX_HEALTH)
    }
}

/// The player after `amount` damage, and whether that hit was the lethal one.
pub open spec fn damaged(s: PlayerState, amount: u16) -> (PlayerState, bool) {
    if s.match_paused || s.death is Some || amount == 0 {
        (s, false)
    } else {
        let health = if s.health.0 > amount {
            (s.health.0 - amount) as u16
        } else {
            0u16
        };
        let hurt = PlayerState { health: Health(health), ..s };
        if health == 0 {
            (killed(hurt), true)
        } else {
            (hurt, false)
        }
    }
}

/// Apply `amount` damage.  Returns true only for the hit that causes death,
/// so that the score is awarded once.
pub fn apply_damage(state: &mut PlayerState, amount: u16) -> (lethal: bool)
    ensures
        (*final(state), lethal) == damaged(*old(state), amount),
{
    if state.match_paused || state.death.is_some() || amount == 0 {
        return false;
    }
    state.health.0 = state.health.0.saturating_sub(amount);
    if state.health.0 == 0 {
        kill(state);
        true
    } else {
        false
    }
}

/// After the lethal hit no further hit is lethal: a death is credited once.
pub proof fn lemma_lethal_once(s: PlayerState, first: u16, second: u16)
    requires
        damaged(s, first).1,
    ensures
        damaged(damaged(s, first).0, second) == (damaged(s, first).0, false),
{
}

} // verus!
