//! The server's resolution of projectile hits on players.
use vstd::prelude::*;
use crate::health::{apply_damage, damaged};
use crate::match_state::{death_credit, death_recorded, kill_credit, MatchState};
use crate::protocol::PlayerState;
use crate::weapon::PROJECTILE_DAMAGE;

verus! {

/// A bolt of `owner` hit the player `victim`, whose state is `state`: apply
/// one bolt's damage and, for the lethal hit only, score the death and the kill.
pub fn resolve_hit(state: &mut PlayerState, round: &mut MatchState, victim: u64, owner: u64) -> (lethal: bool)
    requires
        damaged(*old(state), PROJECTILE_DAMAGE).1 && !old(round).results ==> forall|i: int|
            0 <= i < old(round).rows@.len() ==> {
                &&& (#[trigger] old(round).rows@[i]).deaths + death_credit(old(round).rows@[i], victim) <= u32::MAX
                &&& old(round).rows@[i].kills + kill_credit(old(round).rows@[i], victim, Some(owner)) <= u32::MAX
            },
    ensures
        (*final(state), lethal) == damaged(*old(state), PROJECTILE_DAMAGE),
        final(round).number == old(round).number,
        final(round).results == old(round).results,
        final(round).remaining_seconds == old(round).remaining_seconds,
        final(round).rows@.len() == old(round).rows@.len(),
        !lethal || old(round).results ==> final(round).rows@ == old(round).rows@,
        lethal && !old(round).results ==> forall|i: int|
            0 <= i < old(round).rows@.len() ==> death_recorded(
                old(round).rows@[i],
                #[trigger] final(round).rows@[i],
                victim,
                Some(owner),
            ),
{
    let lethal = apply_damage(state, PROJECTILE_DAMAGE);
    if lethal {
        round.record_death(victim, Some(owner));
    }
    lethal
}

} // verus!
