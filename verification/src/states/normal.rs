//! The mode that shows the list of participants: one of them is selected and
//! can be moved, changed or removed, and initiatives can be rolled.

use crate::combat_state::{described, CombatModel, CombatState, Participant};
use crate::initiative_order::{
    apply_permutation, permutation_sources, rearranged, sorting_permutation, sorts_descending,
};
use crate::states::fighting::{fighting_of, Fighting};
use crate::states::insert::Insert;
use crate::states::{InsertModel, Key, KeyPress, NormalModel, TrackerModel, TrackerState};
use crate::text::{decimal_digits, decimal_text, push_char};
use crate::utils::{roll, swap_items, with_popped_n};
use vstd::prelude::*;

verus! {

/// The list of participants is empty where one participant is needed.
#[derive(Debug, Clone, Copy, PartialEq, Eq, Structural)]
pub struct NoParticipants;

/// The fight, the initiatives of its participants, and the place of the
/// participant that is selected.
#[derive(Debug)]
pub struct Normal {
    pub combat_state: CombatState,
    pub initiatives: Vec<Option<u8>>,
    pub current_selection: usize,
}

impl DeepView for Normal {
    type V = NormalModel;

    open spec fn deep_view(&self) -> NormalModel {
        NormalModel {
            combat: self.combat_state.deep_view(),
            initiatives: self.initiatives@,
            selection: self.current_selection,
        }
    }
}

/// The mode with another place selected.
pub open spec fn selecting(s: NormalModel, selection: int) -> NormalModel {
    NormalModel { combat: s.combat, initiatives: s.initiatives, selection: selection as usize }
}

/// The place after the selected one, and the first place after the last.
pub open spec fn place_below(s: NormalModel) -> int {
    if s.selection == s.combat.participants.len() - 1 {
        0
    } else {
        s.selection + 1
    }
}

/// The place before the selected one, and the last place but one before the
/// first.
pub open spec fn place_above(s: NormalModel) -> int {
    if s.selection == 0 {
        s.combat.participants.len() - 2
    } else {
        s.selection - 1
    }
}

/// The fight with the participants at the places `a` and `b` exchanged.
pub open spec fn exchanged(combat: CombatModel, a: int, b: int) -> CombatModel {
    CombatModel {
        current_round: combat.current_round,
        current_idx: combat.current_idx,
        participants: combat.participants.update(a, combat.participants[b]).update(
            b,
            combat.participants[a],
        ),
    }
}

/// The fight without the participant at place `n`.
pub open spec fn without(combat: CombatModel, n: int) -> CombatModel {
    CombatModel {
        current_round: combat.current_round,
        current_idx: combat.current_idx,
        participants: combat.participants.remove(n),
    }
}

/// The selection moved to `to`, and the participants at the old and the new
/// place exchanged. The initiatives stay where they are.
pub open spec fn moved(s: NormalModel, to: int) -> NormalModel {
    NormalModel {
        combat: exchanged(s.combat, to, s.selection as int),
        initiatives: s.initiatives,
        selection: to as usize,
    }
}

/// The mode without the selected participant. The selection stays at its
/// place, and moves up by one where that place is gone.
pub open spec fn deleted(s: NormalModel) -> NormalModel {
    NormalModel {
        combat: without(s.combat, s.selection as int),
        initiatives: s.initiatives.remove(s.selection as int),
        selection: if s.selection == s.combat.participants.len() - 1 {
            (s.selection - 1) as usize
        } else {
            s.selection
        },
    }
}

/// The line that stands for a participant and an initiative.
pub open spec fn line_of(p: crate::combat_state::ParticipantModel, ini: Option<u8>) -> Seq<char> {
    match ini {
        Some(v) => described(p) + seq![':'] + decimal_digits(v as nat),
        None => described(p),
    }
}

/// The selected participant taken out of the list and put into the line to
/// be typed over.
pub open spec fn changing(s: NormalModel) -> InsertModel {
    InsertModel {
        combat: without(s.combat, s.selection as int),
        buffer: line_of(s.combat.participants[s.selection as int], s.initiatives[s.selection as int]),
        initiatives: s.initiatives.remove(s.selection as int),
    }
}

/// The initiatives with every gap filled by `filled`.
pub open spec fn fills(initiatives: Seq<Option<u8>>, filled: Seq<u8>) -> bool {
    &&& filled.len() == initiatives.len()
    &&& forall|i: int|
        0 <= i < filled.len() ==> match initiatives[i] {
            Some(v) => #[trigger] filled[i] == v,
            None => 2 <= filled[i] <= 12,
        }
}

/// `after` is `before` with the missing initiatives rolled with two dice of
/// six faces, and participants and initiatives put in descending order of
/// initiative, equal ones in the order they had.
pub open spec fn rolled_from(before: NormalModel, after: NormalModel) -> bool {
    exists|filled: Seq<u8>, sources: Seq<int>|
        {
            &&& fills(before.initiatives, filled)
            &&& #[trigger] sorts_descending(sources, filled)
            &&& after.initiatives == Seq::new(filled.len(), |k: int| Some(filled[sources[k]]))
            &&& after.combat.participants == rearranged(before.combat.participants, sources)
            &&& after.combat.current_round == before.combat.current_round
            &&& after.combat.current_idx == before.combat.current_idx
            &&& after.selection == before.selection
        }
}

/// The key presses that the mode can take. The others have no mode to lead
/// to: they would move the selection to a place that does not exist.
pub open spec fn normal_accepts(s: NormalModel, key: KeyPress) -> bool {
    let n = s.combat.participants.len();
    match key.code {
        Key::Char(c) => if c == 'j' {
            n > 0 && (s.selection != n - 1 ==> s.selection < usize::MAX)
        } else if c == 'k' {
            n > 0 && (s.selection == 0 ==> n >= 2)
        } else if c == 'J' {
            s.selection < n && place_below(s) < n
        } else if c == 'K' {
            s.selection < n && (s.selection == 0 ==> n >= 2)
        } else if c == 'c' {
            s.selection < n && s.selection < s.initiatives.len()
        } else if c == 'd' {
            s.selection < n && s.selection < s.initiatives.len() && n >= 2
        } else if c == 'r' {
            s.initiatives.len() == n && n <= isize::MAX
        } else {
            true
        },
        _ => true,
    }
}

/// Where a key press leads from the mode `s`, for every key but `r`.
pub open spec fn normal_step(s: NormalModel, key: KeyPress) -> TrackerModel {
    match key.code {
        Key::Char(c) => if c == 'j' {
            TrackerModel::Normal(selecting(s, place_below(s)))
        } else if c == 'k' {
            TrackerModel::Normal(selecting(s, place_above(s)))
        } else if c == 'J' {
            TrackerModel::Normal(moved(s, place_below(s)))
        } else if c == 'K' {
            TrackerModel::Normal(moved(s, place_above(s)))
        } else if c == 'c' {
            TrackerModel::Insert(changing(s))
        } else if c == 'd' {
            TrackerModel::Normal(deleted(s))
        } else if c == 'i' {
            TrackerModel::Insert(
                InsertModel { combat: s.combat, buffer: Seq::empty(), initiatives: s.initiatives },
            )
        } else {
            TrackerModel::Normal(s)
        },
        Key::Enter => TrackerModel::Fighting(fighting_of(s.combat)),
        _ => TrackerModel::Normal(s),
    }
}

impl Normal {
    /// The mode for a fight with at least one participant; the first one is
    /// selected.
    pub fn new(combat_state: CombatState, initiatives: Vec<Option<u8>>) -> (r: Result<
        Normal,
        NoParticipants,
    >)
        ensures
            r is Err <==> combat_state.participants@.len() == 0,
            r matches Ok(n) ==> n.combat_state == combat_state && n.initiatives == initiatives
                && n.current_selection == 0,
    {
        if combat_state.participants.len() == 0 {
            return Err(NoParticipants);
        }
        Ok(Normal { combat_state, initiatives, current_selection: 0 })
    }

    /// The mode with the next participant selected, and the first after the
    /// last.
    pub fn increment_selection(self) -> (s: Normal)
        requires
            self.combat_state.participants@.len() > 0,
            self.current_selection != self.combat_state.participants@.len() - 1
                ==> self.current_selection < usize::MAX,
        ensures
            s.combat_state == self.combat_state,
            s.initiatives == self.initiatives,
            s.current_selection == place_below(self.deep_view()),
    {
        let len = self.combat_state.participants.len() - 1;
        let mut s = self;
        s.current_selection = if s.current_selection == len {
            0
        } else {
            s.current_selection + 1
        };
        s
    }

    /// The mode with the participant before selected; from the first place
    /// the selection goes to the last place but one.
    pub fn decrement_selection(self) -> (s: Normal)
        requires
            self.combat_state.participants@.len() > 0,
            self.current_selection == 0 ==> self.combat_state.participants@.len() >= 2,
        ensures
            s.combat_state == self.combat_state,
            s.initiatives == self.initiatives,
            s.current_selection == place_above(self.deep_view()),
    {
        let len = self.combat_state.participants.len() - 1;
        let mut s = self;
        s.current_selection = if s.current_selection == 0 {
            len - 1
        } else {
            s.current_selection - 1
        };
        s
    }

    /// Takes the selected participant out of the list and into the line of
    /// the typing mode.
    pub fn change_selection(self) -> (s: Insert)
        requires
            self.current_selection < self.combat_state.participants@.len(),
            self.current_selection < self.initiatives@.len(),
        ensures
            s.deep_view() == changing(self.deep_view()),
    {
        let ghost before = self.deep_view();
        let idx = self.current_selection;
        let (combat_state, editee) = self.combat_state.with_nth_participant_popped(idx);
        let (editee_ini, initiatives) = with_popped_n(self.initiatives, idx);
        let mut line = editee.describe();
        match editee_ini {
            Some(ini) => {
                push_char(&mut line, ':');
                let number = decimal_text(ini as u64);
                line.append(number.as_str());
            },
            None => {},
        }
        proof {
            assert(editee.deep_view() == before.combat.participants[idx as int]);
            assert(line@ =~= line_of(editee.deep_view(), editee_ini));
            assert(combat_state.participants.deep_view() =~= before.combat.participants.remove(
                idx as int,
            ));
        }
        Insert::new(combat_state, line, initiatives)
    }

    /// The mode without the selected participant.
    pub fn delete_selection(self) -> (s: Normal)
        requires
            self.current_selection < self.combat_state.participants@.len(),
            self.current_selection < self.initiatives@.len(),
            self.combat_state.participants@.len() >= 2,
        ensures
            s.deep_view() == deleted(self.deep_view()),
    {
        let ghost before = self.deep_view();
        let idx = self.current_selection;
        let mut res = self;
        res.combat_state = res.combat_state.without_participant(idx);
        res.initiatives.remove(idx);
        let new_index = if idx == res.combat_state.participants.len() {
            idx - 1
        } else {
            idx
        };
        res.current_selection = new_index;
        proof {
            assert(res.combat_state.participants.deep_view() =~= before.combat.participants.remove(
                idx as int,
            ));
        }
        res
    }

    /// The mode for a fight with at least one participant, none of which has
    /// an initiative yet.
    pub fn from_combat_state(cs: CombatState) -> (r: Result<Normal, NoParticipants>)
        ensures
            r is Err <==> cs.participants@.len() == 0,
            r matches Ok(n) ==> n.combat_state == cs && n.current_selection == 0 && n.initiatives@
                == Seq::new(cs.participants@.len(), |i: int| None::<u8>),
    {
        if cs.participants.len() == 0 {
            return Err(NoParticipants);
        }
        let mut initiatives: Vec<Option<u8>> = Vec::new();
        let mut i: usize = 0;
        while i < cs.participants.len()
            invariant
                i <= cs.participants@.len(),
                initiatives@ == Seq::new(i as nat, |i: int| None::<u8>),
            decreases cs.participants@.len() - i,
        {
            initiatives.push(None);
            proof {
                assert(initiatives@ =~= Seq::new((i + 1) as nat, |i: int| None::<u8>));
            }
            i += 1;
        }
        Normal::new(cs, initiatives)
    }

    /// Rolls two dice of six faces for every participant without an
    /// initiative, and puts participants and initiatives in descending order
    /// of initiative.
    pub fn roll_initiatives(self) -> (s: Normal)
        requires
            self.initiatives@.len() == self.combat_state.participants@.len(),
            self.initiatives@.len() <= isize::MAX,
        ensures
            rolled_from(self.deep_view(), s.deep_view()),
    {
        let ghost before = self.deep_view();
        let mut res = self;
        let mut keys: Vec<u8> = Vec::new();
        let mut i: usize = 0;
        while i < res.initiatives.len()
            invariant
                i <= res.initiatives@.len(),
                res.initiatives@.len() == before.initiatives.len(),
                res.current_selection == before.selection,
                res.combat_state.deep_view() == before.combat,
                res.combat_state.participants@.len() == before.combat.participants.len(),
                keys@.len() == i,
                forall|j: int| 0 <= j < i ==> res.initiatives@[j] == Some(#[trigger] keys@[j]),
                forall|j: int| i <= j < res.initiatives@.len() ==> res.initiatives@[j] == before.initiatives[j],
                forall|j: int|
                    0 <= j < i ==> match before.initiatives[j] {
                        Some(v) => #[trigger] keys@[j] == v,
                        None => 2 <= keys@[j] <= 12,
                    },
            decreases res.initiatives@.len() - i,
        {
            let ini = match res.initiatives[i] {
                None => roll(2, 6),
                Some(v) => v,
            };
            res.initiatives[i] = Some(ini);
            keys.push(ini);
            i += 1;
        }
        let mut sorter = sorting_permutation(&keys);
        let ghost sources = permutation_sources(sorter);
        let ghost people = res.combat_state.participants@;
        apply_permutation(&mut sorter, &mut res.initiatives);
        apply_permutation(&mut sorter, &mut res.combat_state.participants);
        proof {
            let filled = keys@;
            assert(fills(before.initiatives, filled));
            assert(res.initiatives@ =~= Seq::new(filled.len(), |k: int| Some(filled[sources[k]])));
            assert(before.combat.participants =~= people.map_values(|p: Participant| p.deep_view()));
            assert forall|k: int| 0 <= k < sources.len() implies 0 <= #[trigger] sources[k]
                < people.len() by {}
            assert(res.combat_state.participants.deep_view() =~= rearranged(
                before.combat.participants,
                sources,
            ));
        }
        res
    }

    /// Moves the selected participant one place down, and the last one to the
    /// first place.
    pub fn move_selected_down(self) -> (s: Normal)
        requires
            self.current_selection < self.combat_state.participants@.len(),
            place_below(self.deep_view()) < self.combat_state.participants@.len(),
        ensures
            s.deep_view() == moved(self.deep_view(), place_below(self.deep_view())),
    {
        let a = self.current_selection;
        let n = self.combat_state.participants.len();
        self.increment_selection().swap_current_selection_with(a)
    }

    /// Moves the selected participant one place up, and the first one to the
    /// last place but one.
    pub fn move_selected_up(self) -> (s: Normal)
        requires
            self.current_selection < self.combat_state.participants@.len(),
            self.current_selection == 0 ==> self.combat_state.participants@.len() >= 2,
        ensures
            s.deep_view() == moved(self.deep_view(), place_above(self.deep_view())),
    {
        let a = self.current_selection;
        let n = self.combat_state.participants.len();
        self.decrement_selection().swap_current_selection_with(a)
    }

    /// Exchanges the selected participant with the one at `swap_pos`. The
    /// selection and the initiatives stay as they are.
    pub fn swap_current_selection_with(self, swap_pos: usize) -> (s: Normal)
        requires
            self.current_selection < self.combat_state.participants@.len(),
            swap_pos < self.combat_state.participants@.len(),
        ensures
            s.initiatives == self.initiatives,
            s.current_selection == self.current_selection,
            s.combat_state.deep_view() == exchanged(
                self.combat_state.deep_view(),
                self.current_selection as int,
                swap_pos as int,
            ),
    {
        let ghost before = self.combat_state.deep_view();
        let sel = self.current_selection;
        let mut s = self;
        swap_items(&mut s.combat_state.participants, sel, swap_pos);
        proof {
            assert(s.combat_state.deep_view().participants =~= exchanged(
                before,
                sel as int,
                swap_pos as int,
            ).participants);
        }
        s
    }

    /// Whether the mode can take the key press.
    pub fn accepts(&self, key: &KeyPress) -> (ok: bool)
        ensures
            ok == normal_accepts(self.deep_view(), *key),
    {
        let n = self.combat_state.participants.len();
        let sel = self.current_selection;
        match key.code {
            Key::Char(c) => {
                if c == 'j' {
                    n > 0 && (sel == n - 1 || sel < usize::MAX)
                } else if c == 'k' {
                    n > 0 && (sel != 0 || n >= 2)
                } else if c == 'J' {
                    sel < n
                } else if c == 'K' {
                    sel < n && (sel != 0 || n >= 2)
                } else if c == 'c' {
                    sel < n && sel < self.initiatives.len()
                } else if c == 'd' {
                    sel < n && sel < self.initiatives.len() && n >= 2
                } else if c == 'r' {
                    self.initiatives.len() == n && n <= isize::MAX as usize
                } else {
                    true
                }
            },
            _ => true,
        }
    }

    /// The mode that the key press leads to.
    pub fn process(self, key: KeyPress) -> (r: TrackerState)
        requires
            normal_accepts(self.deep_view(), key),
        ensures
            key.code == Key::Char('r') ==> (r matches TrackerState::Normal(n) && rolled_from(
                self.deep_view(),
                n.deep_view(),
            )),
            key.code != Key::Char('r') ==> r.deep_view() == normal_step(self.deep_view(), key),
    {
        match key.code {
            Key::Char(c) => {
                if c == 'j' {
                    TrackerState::Normal(self.increment_selection())
                } else if c == 'k' {
                    TrackerState::Normal(self.decrement_selection())
                } else if c == 'J' {
                    TrackerState::Normal(self.move_selected_down())
                } else if c == 'K' {
                    TrackerState::Normal(self.move_selected_up())
                } else if c == 'c' {
                    TrackerState::Insert(self.change_selection())
                } else if c == 'd' {
                    TrackerState::Normal(self.delete_selection())
                } else if c == 'r' {
                    TrackerState::Normal(self.roll_initiatives())
                } else if c == 'i' {
                    TrackerState::Insert(
                        Insert::new(self.combat_state, String::new(), self.initiatives),
                    )
                } else {
                    TrackerState::Normal(self)
                }
            },
            Key::Enter => TrackerState::Fighting(Fighting::new(self.combat_state)),
            _ => TrackerState::Normal(self),
        }
    }
}

} // verus!
