//! The mode in which one modifier of a participant is selected.

use crate::combat_state::CombatState;
use vstd::prelude::*;

verus! {

/// The fight, the participant, and the place of its selected modifier.
#[derive(Debug)]
pub struct ManagingModifiers {
    pub combat_state: CombatState,
    pub participant_pos: usize,
    pub selected_modifier: usize,
}

impl ManagingModifiers {
    /// The mode with modifier `selected_modifier` of participant
    /// `participant_pos` selected.
    pub fn new(combat_state: CombatState, participant_pos: usize, selected_modifier: usize) -> (s:
        ManagingModifiers)
        ensures
            s.combat_state == combat_state,
            s.participant_pos == participant_pos,
            s.selected_modifier == selected_modifier,
    {
        ManagingModifiers { combat_state, participant_pos, selected_modifier }
    }
}

} // verus!
