//! The mode in which participants are typed in.

use crate::combat_state::{CombatModel, CombatState, ParseError, Participant};
use crate::states::normal::Normal;
use crate::states::{InsertModel, Key, KeyPress, NormalModel, TrackerModel, TrackerState, step_view};
use crate::text::{pop_char, push_char, split_at_char};
use crate::utils::{parse_participant_with_ini, participant_with_ini_of};
use vstd::pervasive::unreached;
use vstd::prelude::*;

verus! {

/// The fight so far, the line being typed, and the initiatives of the
/// participants.
#[derive(Debug)]
pub struct Insert {
    pub combat_state: CombatState,
    pub input_buffer: String,
    pub initiatives: Vec<Option<u8>>,
}

impl DeepView for Insert {
    type V = InsertModel;

    open spec fn deep_view(&self) -> InsertModel {
        InsertModel {
            combat: self.combat_state.deep_view(),
            buffer: self.input_buffer@,
            initiatives: self.initiatives@,
        }
    }
}

/// The fight with one more participant at the end.
pub open spec fn with_participant(
    combat: CombatModel,
    p: crate::combat_state::ParticipantModel,
) -> CombatModel {
    CombatModel {
        current_round: combat.current_round,
        current_idx: combat.current_idx,
        participants: combat.participants.push(p),
    }
}

/// Where a key press leads from the mode `s`. A character goes to the end of
/// the line and backspace takes the last one off. Enter reads the line as a
/// participant, adds it and clears the line; a line that cannot be read is a
/// failure. Escape leads to the list of participants once there is one.
pub open spec fn insert_step(s: InsertModel, key: KeyPress) -> Result<TrackerModel, ParseError> {
    match key.code {
        Key::Char(c) => Ok(
            TrackerModel::Insert(
                InsertModel {
                    combat: s.combat,
                    buffer: s.buffer.push(c),
                    initiatives: s.initiatives,
                },
            ),
        ),
        Key::Backspace => Ok(
            TrackerModel::Insert(
                InsertModel {
                    combat: s.combat,
                    buffer: if s.buffer.len() > 0 {
                        s.buffer.drop_last()
                    } else {
                        s.buffer
                    },
                    initiatives: s.initiatives,
                },
            ),
        ),
        Key::Esc => if s.combat.participants.len() > 0 {
            Ok(
                TrackerModel::Normal(
                    NormalModel { combat: s.combat, initiatives: s.initiatives, selection: 0 },
                ),
            )
        } else {
            Ok(TrackerModel::Insert(s))
        },
        Key::Enter => match participant_with_ini_of(split_at_char(s.buffer, ':')) {
            Ok((ini, p)) => Ok(
                TrackerModel::Insert(
                    InsertModel {
                        combat: with_participant(s.combat, p),
                        buffer: Seq::empty(),
                        initiatives: s.initiatives.push(ini),
                    },
                ),
            ),
            Err(e) => Err(e),
        },
        Key::Other => Ok(TrackerModel::Insert(s)),
    }
}

impl Default for Insert {
    fn default() -> (s: Insert)
        ensures
            s.deep_view().combat.participants.len() == 0,
            s.deep_view().combat.current_round == 0,
            s.deep_view().combat.current_idx == 0,
            s.deep_view().buffer.len() == 0,
            s.deep_view().initiatives.len() == 0,
    {
        let s = Insert {
            combat_state: CombatState::default(),
            input_buffer: String::new(),
            initiatives: Vec::new(),
        };
        proof {
            assert(s.combat_state.participants.deep_view() =~= Seq::empty());
        }
        s
    }
}

impl Insert {
    /// The mode with the given fight, line and initiatives.
    pub fn new(combat_state: CombatState, input_buffer: String, initiatives: Vec<Option<u8>>) -> (s:
        Insert)
        ensures
            s.combat_state == combat_state,
            s.input_buffer == input_buffer,
            s.initiatives == initiatives,
    {
        Insert { combat_state, input_buffer, initiatives }
    }

    /// The mode with `c` at the end of the line.
    pub fn with_char_push(self, c: char) -> (s: Insert)
        ensures
            s.combat_state == self.combat_state,
            s.initiatives == self.initiatives,
            s.input_buffer@ == self.input_buffer@.push(c),
    {
        let mut s = self;
        push_char(&mut s.input_buffer, c);
        s
    }

    /// The mode with the last character of the line taken off, if there is
    /// one.
    pub fn with_char_pop(self) -> (s: Insert)
        ensures
            s.combat_state == self.combat_state,
            s.initiatives == self.initiatives,
            s.input_buffer@ == if self.input_buffer@.len() > 0 {
                self.input_buffer@.drop_last()
            } else {
                self.input_buffer@
            },
    {
        let mut s = self;
        pop_char(&mut s.input_buffer);
        s
    }

    /// The mode with the line replaced.
    pub fn with_input_buffer(self, input_buffer: String) -> (s: Insert)
        ensures
            s.combat_state == self.combat_state,
            s.initiatives == self.initiatives,
            s.input_buffer == input_buffer,
    {
        Insert {
            combat_state: self.combat_state,
            input_buffer,
            initiatives: self.initiatives,
        }
    }

    /// The mode with `p` as the last participant and `ini` as its initiative.
    pub fn with_new_participant(self, p: Participant, ini: Option<u8>) -> (s: Insert)
        ensures
            s.input_buffer == self.input_buffer,
            s.combat_state.current_round == self.combat_state.current_round,
            s.combat_state.current_idx == self.combat_state.current_idx,
            s.combat_state.participants@ == self.combat_state.participants@.push(p),
            s.initiatives@ == self.initiatives@.push(ini),
            s.deep_view().combat == with_participant(self.deep_view().combat, p.deep_view()),
    {
        let ghost before = self.combat_state.participants.deep_view();
        let mut s = self;
        s.combat_state.participants.push(p);
        s.initiatives.push(ini);
        proof {
            assert(s.combat_state.participants.deep_view() =~= before.push(p.deep_view()));
        }
        s
    }

    /// The mode that the key press leads to.
    pub fn process(self, key: KeyPress) -> (r: Result<TrackerState, ParseError>)
        ensures
            step_view(r) == insert_step(self.deep_view(), key),
    {
        match key.code {
            Key::Char(c) => Ok(TrackerState::Insert(self.with_char_push(c))),
            Key::Backspace => Ok(TrackerState::Insert(self.with_char_pop())),
            Key::Esc => {
                if self.combat_state.participants.len() > 0 {
                    match Normal::new(self.combat_state, self.initiatives) {
                        Ok(n) => Ok(TrackerState::Normal(n)),
                        Err(_) => unreached(),
                    }
                } else {
                    Ok(TrackerState::Insert(self))
                }
            },
            Key::Enter => {
                match parse_participant_with_ini(self.input_buffer.as_str()) {
                    Ok((ini, p)) => Ok(
                        TrackerState::Insert(
                            self.with_new_participant(p, ini).with_input_buffer(String::new()),
                        ),
                    ),
                    Err(e) => Err(e),
                }
            },
            Key::Other => Ok(TrackerState::Insert(self)),
        }
    }
}

} // verus!
