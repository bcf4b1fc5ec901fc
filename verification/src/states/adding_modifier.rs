//! The mode in which a modifier for one participant is typed in.

use crate::combat_state::{
    message_of, modifier_fac_of, time_of, CombatModel, Modifier, ModifierFac, ModifierFacModel,
    ModifierModel,
};
use crate::states::fighting::Fighting;
use crate::states::msg::Msg;
use crate::states::{
    tracker_model, AddingModel, FightingModel, Key, KeyPress, TrackerModel, TrackerState,
};
use crate::text::{pop_char, push_char, split_at_char};
use vstd::prelude::*;

verus! {

/// The fight that goes on, the participant that gets the modifier, and the
/// line being typed.
#[derive(Debug)]
pub struct AddingModifiers {
    pub parent_state: Fighting,
    pub target_participant: usize,
    pub input_buffer: String,
}

impl DeepView for AddingModifiers {
    type V = AddingModel;

    open spec fn deep_view(&self) -> AddingModel {
        AddingModel {
            parent: self.parent_state.deep_view(),
            target: self.target_participant,
            buffer: self.input_buffer@,
        }
    }
}

/// The fight with the modifier `m` as the last one of participant `target`.
pub open spec fn with_modifier(combat: CombatModel, target: int, m: ModifierModel) -> CombatModel {
    let p = combat.participants[target];
    CombatModel {
        current_round: combat.current_round,
        current_idx: combat.current_idx,
        participants: combat.participants.update(
            target,
            crate::combat_state::ParticipantModel {
                name: p.name,
                hp: p.hp,
                modifiers: p.modifiers.push(m),
            },
        ),
    }
}

/// The fighting mode with a modifier made by `fac` at the present time of
/// the fight, given to participant `target`.
pub open spec fn with_new_modifier(
    parent: FightingModel,
    target: int,
    fac: ModifierFacModel,
) -> FightingModel {
    FightingModel {
        combat: with_modifier(
            parent.combat,
            target,
            ModifierModel {
                name: fac.name,
                introduced_at: time_of(parent.combat),
                duration: fac.duration,
            },
        ),
        key_infos: parent.key_infos,
    }
}

/// The mode with another line.
pub open spec fn typing(s: AddingModel, buffer: Seq<char>) -> AddingModel {
    AddingModel { parent: s.parent, target: s.target, buffer }
}

/// The key presses that the mode can take: a modifier can only be given to a
/// participant that there is.
pub open spec fn adding_accepts(s: AddingModel, key: KeyPress) -> bool {
    key.code == Key::Enter && modifier_fac_of(split_at_char(s.buffer, ':')) is Ok ==> s.target
        < s.parent.combat.participants.len()
}

/// Where a key press leads from the mode `s`. Escape leads back to the
/// fight. Enter reads the line as a modifier and gives it to the
/// participant; a line that cannot be read leads to a message, behind which
/// this mode waits. Other keys edit the line.
pub open spec fn adding_step(s: AddingModel, key: KeyPress) -> TrackerModel {
    match key.code {
        Key::Esc => TrackerModel::Fighting(s.parent),
        Key::Enter => match modifier_fac_of(split_at_char(s.buffer, ':')) {
            Ok(fac) => TrackerModel::Fighting(with_new_modifier(s.parent, s.target as int, fac)),
            Err(e) => TrackerModel::Msg(Box::new(TrackerModel::AddingModifiers(s)), message_of(e)),
        },
        Key::Char(c) => TrackerModel::AddingModifiers(typing(s, s.buffer.push(c))),
        Key::Backspace => TrackerModel::AddingModifiers(
            typing(
                s,
                if s.buffer.len() > 0 {
                    s.buffer.drop_last()
                } else {
                    s.buffer
                },
            ),
        ),
        Key::Other => TrackerModel::AddingModifiers(s),
    }
}

impl AddingModifiers {
    /// The mode for giving a modifier to participant `target_participant`.
    pub fn new(parent_state: Fighting, target_participant: usize, input_buffer: String) -> (s:
        AddingModifiers)
        ensures
            s.parent_state == parent_state,
            s.target_participant == target_participant,
            s.input_buffer == input_buffer,
    {
        AddingModifiers { parent_state, target_participant, input_buffer }
    }

    /// Back to the fight, with the modifier that `fac` makes at the present
    /// time of the fight given to the participant.
    pub fn parent_with_modifier(self, fac: ModifierFac) -> (parent: Fighting)
        requires
            self.target_participant < self.parent_state.combat_state.participants@.len(),
        ensures
            parent.deep_view() == with_new_modifier(
                self.parent_state.deep_view(),
                self.target_participant as int,
                fac.deep_view(),
            ),
    {
        let ghost before = self.parent_state.deep_view();
        let mut parent = self.parent_state;
        let target = self.target_participant;
        let new_mod = fac.build(parent.combat_state.now());
        let ghost old_mods = parent.combat_state.participants@[target as int].modifiers.deep_view();
        parent.combat_state.participants[target].modifiers.push(new_mod);
        proof {
            let p = parent.combat_state.participants@[target as int];
            assert(p.modifiers.deep_view() =~= old_mods.push(new_mod.deep_view()));
            assert(parent.combat_state.deep_view().participants =~= with_new_modifier(
                before,
                target as int,
                fac.deep_view(),
            ).combat.participants);
        }
        parent
    }

    /// Whether the mode can take the key press.
    pub fn accepts(&self, key: &KeyPress) -> (ok: bool)
        ensures
            ok == adding_accepts(self.deep_view(), *key),
    {
        match key.code {
            Key::Enter => {
                match Modifier::parse_factory(self.input_buffer.as_str()) {
                    Ok(_) => self.target_participant < self.parent_state.combat_state.participants.len(),
                    Err(_) => true,
                }
            },
            _ => true,
        }
    }

    /// The mode that the key press leads to.
    pub fn process(self, key: KeyPress) -> (r: TrackerState)
        requires
            adding_accepts(self.deep_view(), key),
        ensures
            r.deep_view() == adding_step(self.deep_view(), key),
    {
        match key.code {
            Key::Esc => TrackerState::Fighting(self.parent_state),
            Key::Enter => match Modifier::parse_factory(self.input_buffer.as_str()) {
                Ok(mod_fac) => TrackerState::Fighting(self.parent_with_modifier(mod_fac)),
                Err(e) => {
                    let msg = e.message();
                    let ghost behind = TrackerState::AddingModifiers(self);
                    let r = TrackerState::Msg(
                        Msg::new(Box::new(TrackerState::AddingModifiers(self)), msg),
                    );
                    proof {
                        assert(tracker_model(behind) == TrackerModel::AddingModifiers(
                            self.deep_view(),
                        ));
                        assert(r.deep_view() == TrackerModel::Msg(
                            Box::new(tracker_model(behind)),
                            msg@,
                        ));
                    }
                    r
                },
            },
            Key::Char(c) => {
                let mut s = self;
                push_char(&mut s.input_buffer, c);
                TrackerState::AddingModifiers(s)
            },
            Key::Backspace => {
                let mut s = self;
                pop_char(&mut s.input_buffer);
                TrackerState::AddingModifiers(s)
            },
            Key::Other => TrackerState::AddingModifiers(self),
        }
    }
}

} // verus!
