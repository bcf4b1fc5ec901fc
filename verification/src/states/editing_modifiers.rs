//! The mode in which one modifier of a participant is typed over.

use crate::combat_state::CombatState;
use vstd::prelude::*;

verus! {

/// The fight, the participant and its modifier that is being changed, and
/// the line being typed.
#[derive(Debug)]
pub struct EditingModifiers {
    pub combat_state: CombatState,
    pub participant_idx: usize,
    pub modifier_idx: usize,
    pub buffer: String,
}

impl EditingModifiers {
    /// The mode for changing modifier `modifier_idx` of participant
    /// `participant_idx`.
    pub fn new(
        combat_state: CombatState,
        participant_idx: usize,
        modifier_idx: usize,
        buffer: String,
    ) -> (s: EditingModifiers)
        ensures
            s.combat_state == combat_state,
            s.participant_idx == participant_idx,
            s.modifier_idx == modifier_idx,
            s.buffer == buffer,
    {
        EditingModifiers { combat_state, participant_idx, modifier_idx, buffer }
    }
}

} // verus!
