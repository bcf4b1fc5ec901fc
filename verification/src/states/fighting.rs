//! The mode of the fight itself: every participant has a key that takes a
//! hit point away, one that gives one back, and one that adds a modifier.

use crate::combat_state::{
    after_next_turn, CombatModel, CombatState, Participant, ParticipantModel,
};
use crate::states::adding_modifier::AddingModifiers;
use crate::states::normal::{NoParticipants, Normal};
use crate::states::{
    step_view, AddingModel, FightingModel, Key, KeyPress, NormalModel, TrackerModel, TrackerState,
};
use crate::text::{char_at, chars_of};
use crate::utils::update_nth;
use vstd::prelude::*;

verus! {

/// The keys of one participant.
#[derive(Debug, Clone, Copy, PartialEq, Eq, Structural)]
pub struct KeyInfo {
    pub decrement: char,
    pub increment: char,
    pub edit_modifiers: char,
}

/// The fight and the keys of its participants, in the order of the
/// participants.
#[derive(Debug)]
pub struct Fighting {
    pub combat_state: CombatState,
    pub key_infos: Vec<KeyInfo>,
}

impl DeepView for Fighting {
    type V = FightingModel;

    open spec fn deep_view(&self) -> FightingModel {
        FightingModel { combat: self.combat_state.deep_view(), key_infos: self.key_infos@ }
    }
}

/// The keys that a text assigns: three characters for each participant, to
/// take a hit point away, to give one back, and to add a modifier.
pub open spec fn key_infos_of(s: Seq<char>) -> Seq<KeyInfo> {
    Seq::new((s.len() / 3) as nat, |i: int| key_info_at(s, i))
}

/// The keys of participant `i` in a text of keys.
pub open spec fn key_info_at(s: Seq<char>, i: int) -> KeyInfo {
    if 0 <= i && 3 * i + 2 < s.len() {
        KeyInfo { decrement: s[3 * i], increment: s[3 * i + 1], edit_modifiers: s[3 * i + 2] }
    } else {
        KeyInfo { decrement: ' ', increment: ' ', edit_modifiers: ' ' }
    }
}

/// The keys for up to twenty participants.
pub open spec fn default_key_infos() -> Seq<KeyInfo> {
    key_infos_of("qweasdzxcrtyfghvbnuiojklm,.;p/QWEASDZXCRTYFGHVBNUIOJKLM<>P:?"@)
}

/// The fighting mode for a fight: the participants get their keys in order,
/// as far as the keys go.
pub open spec fn fighting_of(combat: CombatModel) -> FightingModel {
    let keys = default_key_infos();
    FightingModel {
        combat,
        key_infos: if combat.participants.len() < keys.len() {
            keys.take(combat.participants.len() as int)
        } else {
            keys
        },
    }
}

/// The participant and the direction that the key `c` changes hit points
/// for: `true` gives one back. Where a key is assigned twice, the later
/// participant has it, and giving back goes before taking away.
pub open spec fn hp_binding(keys: Seq<KeyInfo>, c: char) -> Option<(int, bool)>
    decreases keys.len(),
{
    if keys.len() == 0 {
        None
    } else if keys.last().increment == c {
        Some((keys.len() - 1, true))
    } else if keys.last().decrement == c {
        Some((keys.len() - 1, false))
    } else {
        hp_binding(keys.drop_last(), c)
    }
}

/// The participant that the key `c` adds a modifier to: the last one to
/// which the key is assigned.
pub open spec fn tag_binding(keys: Seq<KeyInfo>, c: char) -> Option<int>
    decreases keys.len(),
{
    if keys.len() == 0 {
        None
    } else if keys.last().edit_modifiers == c {
        Some(keys.len() - 1)
    } else {
        tag_binding(keys.drop_last(), c)
    }
}

/// The participant with one hit point more, or with one less but not below
/// zero.
pub open spec fn with_hp_changed(p: ParticipantModel, up: bool) -> ParticipantModel {
    ParticipantModel {
        name: p.name,
        hp: if up {
            (p.hp + 1) as u16
        } else if p.hp == 0 {
            0
        } else {
            (p.hp - 1) as u16
        },
        modifiers: p.modifiers,
    }
}

/// The fight with the hit points of participant `i` changed; the fight as it
/// is where there is no such participant.
pub open spec fn with_hp_change_at(combat: CombatModel, i: int, up: bool) -> CombatModel {
    if 0 <= i < combat.participants.len() {
        CombatModel {
            current_round: combat.current_round,
            current_idx: combat.current_idx,
            participants: combat.participants.update(
                i,
                with_hp_changed(combat.participants[i], up),
            ),
        }
    } else {
        combat
    }
}

/// The key presses that the mode can take: the turn order can only move on
/// in a fight with participants, and hit points stop at 65535.
pub open spec fn fighting_accepts(s: FightingModel, key: KeyPress) -> bool {
    let n = s.combat.participants.len();
    match key.code {
        Key::Char(c) => if c == 'n' && key.control {
            &&& n > 0
            &&& s.combat.current_idx == n - 1 ==> s.combat.current_round < usize::MAX
            &&& s.combat.current_idx != n - 1 ==> s.combat.current_idx < usize::MAX
        } else {
            match hp_binding(s.key_infos, c) {
                Some((i, up)) => up && i < n ==> s.combat.participants[i].hp < u16::MAX,
                None => true,
            }
        },
        _ => true,
    }
}

/// Where a key press leads from the mode `s`. Escape leads back to the list
/// of participants, control and `n` to the next turn, a key of a participant
/// to its hit points changed or to a modifier being typed in.
pub open spec fn fighting_step(s: FightingModel, key: KeyPress) -> Result<
    TrackerModel,
    NoParticipants,
> {
    match key.code {
        Key::Esc => if s.combat.participants.len() == 0 {
            Err(NoParticipants)
        } else {
            Ok(
                TrackerModel::Normal(
                    NormalModel {
                        combat: s.combat,
                        initiatives: Seq::new(s.combat.participants.len(), |i: int| None::<u8>),
                        selection: 0,
                    },
                ),
            )
        },
        Key::Char(c) => if c == 'n' && key.control {
            Ok(
                TrackerModel::Fighting(
                    FightingModel { combat: after_next_turn(s.combat), key_infos: s.key_infos },
                ),
            )
        } else {
            match hp_binding(s.key_infos, c) {
                Some((i, up)) => Ok(
                    TrackerModel::Fighting(
                        FightingModel {
                            combat: with_hp_change_at(s.combat, i, up),
                            key_infos: s.key_infos,
                        },
                    ),
                ),
                None => match tag_binding(s.key_infos, c) {
                    Some(i) => Ok(
                        TrackerModel::AddingModifiers(
                            AddingModel { parent: s, target: i as usize, buffer: Seq::empty() },
                        ),
                    ),
                    None => Ok(TrackerModel::Fighting(s)),
                },
            }
        },
        _ => Ok(TrackerModel::Fighting(s)),
    }
}

/// The keys that a text assigns, three characters for each participant.
pub fn to_key_infos(s: &str) -> (keys: Vec<KeyInfo>)
    requires
        s@.len() % 3 == 0,
    ensures
        keys@ == key_infos_of(s@),
{
    let chars = chars_of(s);
    let count: usize = chars.len() / 3;
    let mut infos: Vec<KeyInfo> = Vec::new();
    let mut k: usize = 0;
    while k < count
        invariant
            k <= count,
            chars@.len() == 3 * count,
            chars@.len() <= usize::MAX,
            chars@ == s@,
            key_infos_of(s@).len() == count,
            infos@.len() == k,
            forall|j: int| 0 <= j < k ==> #[trigger] infos@[j] == key_infos_of(s@)[j],
        decreases count - k,
    {
        let i: usize = 3 * k;
        infos.push(
            KeyInfo {
                decrement: char_at(&chars, i),
                increment: char_at(&chars, i + 1),
                edit_modifiers: char_at(&chars, i + 2),
            },
        );
        k += 1;
    }
    proof {
        assert(infos@ =~= key_infos_of(s@));
    }
    infos
}

/// Finds the participant and the direction that the key `c` changes hit
/// points for.
pub fn find_hp_key(keys: &Vec<KeyInfo>, c: char) -> (found: Option<(usize, bool)>)
    ensures
        match found {
            Some((i, up)) => hp_binding(keys@, c) == Some((i as int, up)) && i < keys@.len(),
            None => hp_binding(keys@, c) is None,
        },
{
    let mut i: usize = keys.len();
    proof {
        assert(keys@.take(i as int) =~= keys@);
    }
    while i > 0
        invariant
            i <= keys@.len(),
            hp_binding(keys@, c) == hp_binding(keys@.take(i as int), c),
        decreases i,
    {
        i -= 1;
        proof {
            assert(keys@.take(i + 1).drop_last() =~= keys@.take(i as int));
            assert(keys@.take(i + 1).last() == keys@[i as int]);
        }
        if keys[i].increment == c {
            return Some((i, true));
        }
        if keys[i].decrement == c {
            return Some((i, false));
        }
    }
    None
}

/// Finds the participant that the key `c` adds a modifier to.
pub fn find_tag_key(keys: &Vec<KeyInfo>, c: char) -> (found: Option<usize>)
    ensures
        match found {
            Some(i) => tag_binding(keys@, c) == Some(i as int) && i < keys@.len(),
            None => tag_binding(keys@, c) is None,
        },
{
    let mut i: usize = keys.len();
    proof {
        assert(keys@.take(i as int) =~= keys@);
    }
    while i > 0
        invariant
            i <= keys@.len(),
            tag_binding(keys@, c) == tag_binding(keys@.take(i as int), c),
        decreases i,
    {
        i -= 1;
        proof {
            assert(keys@.take(i + 1).drop_last() =~= keys@.take(i as int));
            assert(keys@.take(i + 1).last() == keys@[i as int]);
        }
        if keys[i].edit_modifiers == c {
            return Some(i);
        }
    }
    None
}

impl Fighting {
    /// The fighting mode for a fight.
    pub fn new(combat_state: CombatState) -> (s: Fighting)
        ensures
            s.combat_state == combat_state,
            s.deep_view() == fighting_of(combat_state.deep_view()),
    {
        proof {
            reveal_strlit("qweasdzxcrtyfghvbnuiojklm,.;p/QWEASDZXCRTYFGHVBNUIOJKLM<>P:?");
        }
        let all = to_key_infos("qweasdzxcrtyfghvbnuiojklm,.;p/QWEASDZXCRTYFGHVBNUIOJKLM<>P:?");
        let mut key_infos: Vec<KeyInfo> = Vec::new();
        let mut i: usize = 0;
        while i < all.len() && i < combat_state.participants.len()
            invariant
                i <= all@.len(),
                i <= combat_state.participants@.len(),
                key_infos@ == all@.take(i as int),
            decreases all@.len() - i,
        {
            key_infos.push(all[i]);
            proof {
                assert(all@.take(i + 1) =~= all@.take(i as int).push(all@[i as int]));
            }
            i += 1;
        }
        proof {
            assert(all@.take(all@.len() as int) =~= all@);
        }
        Fighting { combat_state, key_infos }
    }

    /// The mode with one hit point given to participant `i`, or one taken
    /// from it; the mode as it is where there is no such participant.
    pub fn with_hp_change(self, i: usize, up: bool) -> (s: Fighting)
        requires
            up && i < self.combat_state.participants@.len()
                ==> self.combat_state.participants@[i as int].hp < u16::MAX,
        ensures
            s.key_infos == self.key_infos,
            s.combat_state.deep_view() == with_hp_change_at(
                self.combat_state.deep_view(),
                i as int,
                up,
            ),
    {
        let ghost before = self.combat_state.deep_view();
        let Fighting { combat_state, key_infos } = self;
        let CombatState { current_round, current_idx, participants } = combat_state;
        let changed = update_nth(
            participants,
            i,
            |p: &Participant| -> (q: Participant)
                requires
                    up ==> p.hp < u16::MAX,
                ensures
                    q.deep_view() == with_hp_changed(p.deep_view(), up)
                {
                    let mut q = p.clone();
                    q.hp = if up {
                        q.hp + 1
                    } else if q.hp == 0 {
                        0
                    } else {
                        q.hp - 1
                    };
                    q
                },
        );
        let s = Fighting {
            combat_state: CombatState { current_round, current_idx, participants: changed },
            key_infos,
        };
        proof {
            assert(s.combat_state.deep_view().participants =~= with_hp_change_at(
                before,
                i as int,
                up,
            ).participants);
        }
        s
    }

    /// Whether the mode can take the key press.
    pub fn accepts(&self, key: &KeyPress) -> (ok: bool)
        ensures
            ok == fighting_accepts(self.deep_view(), *key),
    {
        let n = self.combat_state.participants.len();
        match key.code {
            Key::Char(c) => {
                if c == 'n' && key.control {
                    n > 0 && (if self.combat_state.current_idx == n - 1 {
                        self.combat_state.current_round < usize::MAX
                    } else {
                        self.combat_state.current_idx < usize::MAX
                    })
                } else {
                    match find_hp_key(&self.key_infos, c) {
                        Some((i, up)) => {
                            if up && i < n {
                                self.combat_state.participants[i].hp < u16::MAX
                            } else {
                                true
                            }
                        },
                        None => true,
                    }
                }
            },
            _ => true,
        }
    }

    /// The mode that the key press leads to.
    pub fn process(self, key: KeyPress) -> (r: Result<TrackerState, NoParticipants>)
        requires
            fighting_accepts(self.deep_view(), key),
        ensures
            step_view(r) == fighting_step(self.deep_view(), key),
    {
        match key.code {
            Key::Esc => match Normal::from_combat_state(self.combat_state) {
                Ok(n) => Ok(TrackerState::Normal(n)),
                Err(e) => Err(e),
            },
            Key::Char(c) => {
                if c == 'n' && key.control {
                    let Fighting { combat_state, key_infos } = self;
                    Ok(
                        TrackerState::Fighting(
                            Fighting { combat_state: combat_state.with_next_turn(), key_infos },
                        ),
                    )
                } else {
                    match find_hp_key(&self.key_infos, c) {
                        Some((i, up)) => Ok(TrackerState::Fighting(self.with_hp_change(i, up))),
                        None => match find_tag_key(&self.key_infos, c) {
                            Some(i) => Ok(
                                TrackerState::AddingModifiers(
                                    AddingModifiers::new(self, i, String::new()),
                                ),
                            ),
                            None => Ok(TrackerState::Fighting(self)),
                        },
                    }
                }
            },
            _ => Ok(TrackerState::Fighting(self)),
        }
    }
}

} // verus!
