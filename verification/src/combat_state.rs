//! The state of a fight: who takes part, whose turn it is, and which
//! modifiers are still in force.

use crate::text::{
    decimal_digits, decimal_text, push_char, join_texts, join_with, lines_of, parse_unsigned, parse_unsigned_spec, split_at_char,
    split_text, trim_text, trimmed,
};
use vstd::prelude::*;

verus! {

/// A point within a round: turn `nom` of `denom`.
#[derive(Clone, Copy, Debug)]
pub struct SubRoundTime {
    pub nom: usize,
    pub denom: usize,
}

/// A point in time: a round and a point within it.
#[derive(Clone, Copy, Debug)]
pub struct TimeVec {
    pub round: usize,
    pub sub_round_time: SubRoundTime,
}

/// Something that holds for a participant, for good or for a number of rounds.
#[derive(Debug)]
pub struct Modifier {
    pub name: String,
    pub introduced_at: TimeVec,
    pub duration: Option<usize>,
}

/// One who takes part in the fight.
#[derive(Debug)]
pub struct Participant {
    pub name: String,
    pub hp: u16,
    pub modifiers: Vec<Modifier>,
}

/// The fight as a whole.
#[derive(Debug)]
pub struct CombatState {
    pub current_round: usize,
    pub current_idx: usize,
    pub participants: Vec<Participant>,
}

/// Why a line of text was not understood.
#[derive(Debug, Clone, Copy, PartialEq, Eq, Structural)]
pub enum ParseError {
    /// A participant needs a name and hit points with a colon between them.
    MissingColon,
    /// The hit points are not a number from 0 to 65535.
    InvalidHitPoints,
    /// The initiative is not a number from 0 to 255.
    InvalidInitiative,
    /// The duration of a modifier is not a number.
    InvalidDuration,
    /// A modifier is a name, or a name and a duration with a colon between.
    MalformedModifier,
}

/// What to tell the user about a failure.
pub open spec fn message_of(e: ParseError) -> Seq<char> {
    match e {
        ParseError::MissingColon => "Didn't find a :"@,
        ParseError::InvalidHitPoints => "The hit points are not a number"@,
        ParseError::InvalidInitiative => "The initiative is not a number"@,
        ParseError::InvalidDuration => "Parsing Modifier Duration"@,
        ParseError::MalformedModifier =>
            "Modifiers must have the following format: <Name>[:<Duration>]"@,
    }
}

/// Mathematical value of a [`Modifier`].
pub struct ModifierModel {
    pub name: Seq<char>,
    pub introduced_at: TimeVec,
    pub duration: Option<usize>,
}

/// Mathematical value of a [`Participant`].
pub struct ParticipantModel {
    pub name: Seq<char>,
    pub hp: u16,
    pub modifiers: Seq<ModifierModel>,
}

/// Mathematical value of a [`CombatState`].
pub struct CombatModel {
    pub current_round: usize,
    pub current_idx: usize,
    pub participants: Seq<ParticipantModel>,
}

impl DeepView for Modifier {
    type V = ModifierModel;

    open spec fn deep_view(&self) -> ModifierModel {
        ModifierModel {
            name: self.name@,
            introduced_at: self.introduced_at,
            duration: self.duration,
        }
    }
}

impl DeepView for Participant {
    type V = ParticipantModel;

    open spec fn deep_view(&self) -> ParticipantModel {
        ParticipantModel {
            name: self.name@,
            hp: self.hp,
            modifiers: self.modifiers.deep_view(),
        }
    }
}

impl DeepView for CombatState {
    type V = CombatModel;

    open spec fn deep_view(&self) -> CombatModel {
        CombatModel {
            current_round: self.current_round,
            current_idx: self.current_idx,
            participants: self.participants.deep_view(),
        }
    }
}

/// `a` lies later within its round than `b` within its own, as fractions
/// `nom / denom`. A fraction over zero counts as infinite, and zero over zero
/// is later than nothing and nothing is later than it.
pub open spec fn later_in_round(a: SubRoundTime, b: SubRoundTime) -> bool {
    a.nom * b.denom > b.nom * a.denom
}

/// The time one turn after `t`, in a round of `t.sub_round_time.denom` turns.
pub open spec fn next_turn(t: TimeVec) -> TimeVec {
    if t.sub_round_time.nom == t.sub_round_time.denom - 1 {
        TimeVec {
            round: (t.round + 1) as usize,
            sub_round_time: SubRoundTime { nom: 0, denom: t.sub_round_time.denom },
        }
    } else {
        TimeVec {
            round: t.round,
            sub_round_time: SubRoundTime {
                nom: (t.sub_round_time.nom + 1) as usize,
                denom: t.sub_round_time.denom,
            },
        }
    }
}

/// The rounds that a modifier still has at `now`; `None` for one that lasts
/// for good. A modifier counts from the round it came in, and a round later
/// once the turn it came in at is reached again.
pub open spec fn rounds_left(m: ModifierModel, now: TimeVec) -> Option<int> {
    match m.duration {
        Some(dur) => {
            let offset: int = if later_in_round(
                m.introduced_at.sub_round_time,
                now.sub_round_time,
            ) {
                0
            } else {
                -1
            };
            Some(m.introduced_at.round + dur - now.round + offset + 1)
        },
        None => None,
    }
}

/// The modifier is still in force at `now`.
pub open spec fn in_force(m: ModifierModel, now: TimeVec) -> bool {
    match rounds_left(m, now) {
        Some(left) => left > 0,
        None => true,
    }
}

/// Those of `mods` that are still in force at `now`.
pub open spec fn keep_in_force(mods: Seq<ModifierModel>, now: TimeVec) -> Seq<ModifierModel> {
    mods.filter(|m: ModifierModel| in_force(m, now))
}

/// The participant with only the modifiers that are in force at `now`.
pub open spec fn refreshed(p: ParticipantModel, now: TimeVec) -> ParticipantModel {
    ParticipantModel { name: p.name, hp: p.hp, modifiers: keep_in_force(p.modifiers, now) }
}

/// The time that a fight is at.
pub open spec fn time_of(s: CombatModel) -> TimeVec {
    TimeVec {
        round: s.current_round,
        sub_round_time: SubRoundTime { nom: s.current_idx, denom: s.participants.len() as usize },
    }
}

/// The turn order moved on by one: after the last participant the next round
/// begins with the first.
pub open spec fn advanced(s: CombatModel) -> CombatModel {
    if s.current_idx == s.participants.len() - 1 {
        CombatModel {
            current_round: (s.current_round + 1) as usize,
            current_idx: 0,
            participants: s.participants,
        }
    } else {
        CombatModel {
            current_round: s.current_round,
            current_idx: (s.current_idx + 1) as usize,
            participants: s.participants,
        }
    }
}

/// The fight one turn on: the turn order moved on, and every participant
/// left with the modifiers that are in force at the new time.
pub open spec fn after_next_turn(s: CombatModel) -> CombatModel {
    let moved = advanced(s);
    CombatModel {
        current_round: moved.current_round,
        current_idx: moved.current_idx,
        participants: Seq::new(
            s.participants.len(),
            |i: int| refreshed(s.participants[i], time_of(moved)),
        ),
    }
}

/// What a list of pieces says about a participant: all pieces but the last
/// are the name, with the colons back between them, and the last is the hit
/// points.
pub open spec fn participant_of(splits: Seq<Seq<char>>) -> Result<ParticipantModel, ParseError> {
    if splits.len() <= 1 {
        Err(ParseError::MissingColon)
    } else {
        match parse_unsigned_spec(trimmed(splits.last()), 0xffff) {
            Some(hp) => Ok(
                ParticipantModel {
                    name: join_with(splits.drop_last(), ':'),
                    hp: hp as u16,
                    modifiers: Seq::empty(),
                },
            ),
            None => Err(ParseError::InvalidHitPoints),
        }
    }
}

/// The mathematical value of a parsed participant or of the failure.
pub open spec fn participant_view(r: Result<Participant, ParseError>) -> Result<
    ParticipantModel,
    ParseError,
> {
    match r {
        Ok(p) => Ok(p.deep_view()),
        Err(e) => Err(e),
    }
}

/// What a modifier is made from: its name and how long it lasts.
#[derive(Debug)]
pub struct ModifierFac {
    pub name: String,
    pub duration: Option<usize>,
}

/// Mathematical value of a [`ModifierFac`].
pub struct ModifierFacModel {
    pub name: Seq<char>,
    pub duration: Option<usize>,
}

impl DeepView for ModifierFac {
    type V = ModifierFacModel;

    open spec fn deep_view(&self) -> ModifierFacModel {
        ModifierFacModel { name: self.name@, duration: self.duration }
    }
}

/// What a line says about a modifier: a name, or a name and a duration in
/// rounds with a colon between them.
pub open spec fn modifier_fac_of(splits: Seq<Seq<char>>) -> Result<ModifierFacModel, ParseError> {
    if splits.len() == 1 {
        Ok(ModifierFacModel { name: trimmed(splits[0]), duration: None })
    } else if splits.len() == 2 {
        match parse_unsigned_spec(trimmed(splits[1]), usize::MAX as nat) {
            Some(dur) => Ok(
                ModifierFacModel { name: trimmed(splits[0]), duration: Some(dur as usize) },
            ),
            None => Err(ParseError::InvalidDuration),
        }
    } else {
        Err(ParseError::MalformedModifier)
    }
}

/// The mathematical value of a parsed modifier or of the failure.
pub open spec fn modifier_fac_view(r: Result<ModifierFac, ParseError>) -> Result<
    ModifierFacModel,
    ParseError,
> {
    match r {
        Ok(f) => Ok(f.deep_view()),
        Err(e) => Err(e),
    }
}

impl SubRoundTime {
    /// Turn `nom` of `denom`.
    pub fn new(nom: usize, denom: usize) -> (t: SubRoundTime)
        ensures
            t == (SubRoundTime { nom, denom }),
    {
        SubRoundTime { nom, denom }
    }

    /// Whether `self` lies later within its round than `other` within its own.
    pub fn is_after(&self, other: &SubRoundTime) -> (later: bool)
        ensures
            later == later_in_round(*self, *other),
    {
        let left: u128 = widen(self.nom, other.denom);
        let right: u128 = widen(other.nom, self.denom);
        left > right
    }
}

/// The product of two sizes, which always fits in 128 bits.
fn widen(a: usize, b: usize) -> (p: u128)
    ensures
        p == a * b,
{
    proof {
        assert(a * b <= 0xffff_ffff_ffff_ffff * 0xffff_ffff_ffff_ffff) by (nonlinear_arith)
            requires
                a <= 0xffff_ffff_ffff_ffff,
                b <= 0xffff_ffff_ffff_ffff,
        ;
    }
    (a as u128) * (b as u128)
}

impl Default for SubRoundTime {
    fn default() -> (t: SubRoundTime)
        ensures
            t == (SubRoundTime { nom: 0, denom: 0 }),
    {
        SubRoundTime { nom: 0, denom: 0 }
    }
}

impl Default for TimeVec {
    fn default() -> (t: TimeVec)
        ensures
            t == (TimeVec { round: 0, sub_round_time: SubRoundTime { nom: 0, denom: 0 } }),
    {
        TimeVec { round: 0, sub_round_time: SubRoundTime { nom: 0, denom: 0 } }
    }
}

impl TimeVec {
    /// Turn `sr_nom` of `sr_denom` in round `round`.
    pub fn new(round: usize, sr_nom: usize, sr_denom: usize) -> (t: TimeVec)
        ensures
            t == (TimeVec {
                round,
                sub_round_time: SubRoundTime { nom: sr_nom, denom: sr_denom },
            }),
    {
        TimeVec { round, sub_round_time: SubRoundTime::new(sr_nom, sr_denom) }
    }

    /// The time one turn later. After the last turn of a round comes the
    /// first turn of the next.
    pub fn with_next_turn(self) -> (t: TimeVec)
        requires
            self.sub_round_time.denom > 0,
            self.sub_round_time.nom == self.sub_round_time.denom - 1 ==> self.round < usize::MAX,
            self.sub_round_time.nom != self.sub_round_time.denom - 1 ==> self.sub_round_time.nom
                < usize::MAX,
        ensures
            t == next_turn(self),
    {
        let TimeVec { round, sub_round_time: SubRoundTime { nom, denom } } = self;
        if nom == denom - 1 {
            TimeVec::new(round + 1, 0, denom)
        } else {
            TimeVec::new(round, nom + 1, denom)
        }
    }
}

impl Clone for Modifier {
    fn clone(&self) -> (copy: Modifier)
        ensures
            copy.deep_view() == self.deep_view(),
    {
        Modifier {
            name: self.name.clone(),
            introduced_at: self.introduced_at,
            duration: self.duration,
        }
    }
}

/// A copy of `mods`, modifier by modifier.
pub fn copy_modifiers(mods: &Vec<Modifier>) -> (copy: Vec<Modifier>)
    ensures
        copy.deep_view() == mods.deep_view(),
{
    let mut copy: Vec<Modifier> = Vec::new();
    let mut i: usize = 0;
    while i < mods.len()
        invariant
            i <= mods@.len(),
            copy@.len() == i,
            forall|j: int| 0 <= j < i ==> (#[trigger] copy@[j]).deep_view() == mods@[j].deep_view(),
        decreases mods@.len() - i,
    {
        copy.push(mods[i].clone());
        i += 1;
    }
    proof {
        assert(copy.deep_view() =~= mods.deep_view());
    }
    copy
}

impl Clone for Participant {
    fn clone(&self) -> (copy: Participant)
        ensures
            copy.deep_view() == self.deep_view(),
    {
        Participant {
            name: self.name.clone(),
            hp: self.hp,
            modifiers: copy_modifiers(&self.modifiers),
        }
    }
}

impl Clone for CombatState {
    fn clone(&self) -> (copy: CombatState)
        ensures
            copy.deep_view() == self.deep_view(),
    {
        let mut participants: Vec<Participant> = Vec::new();
        let mut i: usize = 0;
        while i < self.participants.len()
            invariant
                i <= self.participants@.len(),
                participants@.len() == i,
                forall|j: int|
                    0 <= j < i ==> (#[trigger] participants@[j]).deep_view()
                        == self.participants@[j].deep_view(),
            decreases self.participants@.len() - i,
        {
            participants.push(self.participants[i].clone());
            i += 1;
        }
        proof {
            assert(participants.deep_view() =~= self.participants.deep_view());
        }
        CombatState {
            current_round: self.current_round,
            current_idx: self.current_idx,
            participants,
        }
    }
}

impl Default for CombatState {
    fn default() -> (s: CombatState)
        ensures
            s.current_round == 0,
            s.current_idx == 0,
            s.participants@.len() == 0,
    {
        CombatState { current_round: 0, current_idx: 0, participants: Vec::new() }
    }
}

impl CombatState {
    /// A fight at the given point of the turn order.
    pub fn new(current_round: usize, current_idx: usize, participants: Vec<Participant>) -> (s:
        CombatState)
        ensures
            s.current_round == current_round,
            s.current_idx == current_idx,
            s.participants == participants,
    {
        CombatState { current_round, current_idx, participants }
    }

    /// The time that the fight is at: the current round, and the current turn
    /// out of as many as there are participants.
    pub fn now(&self) -> (t: TimeVec)
        ensures
            t == time_of(self.deep_view()),
    {
        TimeVec {
            round: self.current_round,
            sub_round_time: SubRoundTime::new(self.current_idx, self.participants.len()),
        }
    }

    /// The fight one turn on. Modifiers whose time is up at the new point of
    /// time are dropped; the others stay in their order.
    pub fn with_next_turn(self) -> (next: CombatState)
        requires
            self.participants@.len() > 0,
            self.current_idx == self.participants@.len() - 1 ==> self.current_round < usize::MAX,
            self.current_idx != self.participants@.len() - 1 ==> self.current_idx < usize::MAX,
        ensures
            next.deep_view() == after_next_turn(self.deep_view()),
    {
        let ghost before = self.deep_view();
        let mut next_state = self;
        if next_state.current_idx == next_state.participants.len() - 1 {
            next_state.current_round = next_state.current_round + 1;
            next_state.current_idx = 0;
        } else {
            next_state.current_idx = next_state.current_idx + 1;
        }
        let now = next_state.now();
        assert(next_state.deep_view() == advanced(before));
        let mut i: usize = 0;
        while i < next_state.participants.len()
            invariant
                i <= next_state.participants@.len(),
                next_state.participants@.len() == before.participants.len(),
                next_state.current_round == advanced(before).current_round,
                next_state.current_idx == advanced(before).current_idx,
                now == time_of(advanced(before)),
                forall|j: int|
                    0 <= j < i ==> (#[trigger] next_state.participants@[j]).deep_view()
                        == refreshed(before.participants[j], now),
                forall|j: int|
                    i <= j < before.participants.len() ==> (
                    #[trigger] next_state.participants@[j]).deep_view() == before.participants[j],
            decreases next_state.participants@.len() - i,
        {
            let kept = modifiers_in_force(&next_state.participants[i].modifiers, &now);
            next_state.participants[i].modifiers = kept;
            i += 1;
        }
        proof {
            assert(next_state.deep_view().participants =~= after_next_turn(before).participants);
        }
        next_state
    }

    /// A fight that is about to begin.
    pub fn from_participants(participants: Vec<Participant>) -> (s: CombatState)
        ensures
            s.current_round == 0,
            s.current_idx == 0,
            s.participants == participants,
    {
        CombatState { participants, current_idx: 0, current_round: 0 }
    }

    /// The fight without its `n`-th participant, and that participant.
    pub fn with_nth_participant_popped(self, n: usize) -> (res: (CombatState, Participant))
        requires
            n < self.participants@.len(),
        ensures
            res.0.current_round == self.current_round,
            res.0.current_idx == self.current_idx,
            res.0.participants@ == self.participants@.remove(n as int),
            res.1 == self.participants@[n as int],
    {
        let mut participants = self.participants;
        let popped = participants.remove(n);
        (
            CombatState {
                current_round: self.current_round,
                current_idx: self.current_idx,
                participants,
            },
            popped,
        )
    }

    /// The fight without its `n`-th participant.
    pub fn without_participant(self, n: usize) -> (s: CombatState)
        requires
            n < self.participants@.len(),
        ensures
            s.current_round == self.current_round,
            s.current_idx == self.current_idx,
            s.participants@ == self.participants@.remove(n as int),
    {
        let mut participants = self.participants;
        participants.remove(n);
        CombatState {
            current_round: self.current_round,
            current_idx: self.current_idx,
            participants,
        }
    }
}

/// Whether the modifier is still in force at `now`.
pub fn still_in_force(m: &Modifier, now: &TimeVec) -> (keep: bool)
    ensures
        keep == in_force(m.deep_view(), *now),
{
    match m.duration {
        Some(dur) => {
            let start = m.introduced_at;
            // left > 0 is: start.round + dur + offset + 1 > now.round
            let lasts_until: u128 = start.round as u128 + dur as u128;
            if start.sub_round_time.is_after(&now.sub_round_time) {
                lasts_until + 1 > now.round as u128
            } else {
                lasts_until > now.round as u128
            }
        },
        None => true,
    }
}

/// Copies of those of `mods` that are still in force at `now`, in their order.
pub fn modifiers_in_force(mods: &Vec<Modifier>, now: &TimeVec) -> (kept: Vec<Modifier>)
    ensures
        kept.deep_view() == keep_in_force(mods.deep_view(), *now),
{
    let mut kept: Vec<Modifier> = Vec::new();
    let ghost all = mods.deep_view();
    let ghost pred = |m: ModifierModel| in_force(m, *now);
    let mut i: usize = 0;
    proof {
        reveal(Seq::filter);
        assert(all.take(0) =~= Seq::empty());
        assert(kept.deep_view() =~= keep_in_force(all.take(0), *now));
    }
    while i < mods.len()
        invariant
            i <= mods@.len(),
            all == mods.deep_view(),
            kept.deep_view() == keep_in_force(all.take(i as int), *now),
        decreases mods@.len() - i,
    {
        let ghost before = kept.deep_view();
        proof {
            reveal(Seq::filter);
            assert(all.take(i + 1).drop_last() =~= all.take(i as int));
            assert(all.take(i + 1).last() == mods@[i as int].deep_view());
        }
        if still_in_force(&mods[i], now) {
            kept.push(mods[i].clone());
            proof {
                assert(kept.deep_view() =~= before.push(mods@[i as int].deep_view()));
            }
        }
        i += 1;
    }
    proof {
        assert(all.take(i as int) =~= all);
    }
    kept
}

/// A participant as a line: the name, a colon and a blank, the hit points.
pub open spec fn described(p: ParticipantModel) -> Seq<char> {
    p.name + seq![':', ' '] + decimal_digits(p.hp as nat)
}

impl Participant {
    /// The participant as a line that [`Participant::parse`] reads back.
    pub fn describe(&self) -> (line: String)
        ensures
            line@ == described(self.deep_view()),
    {
        let mut line = self.name.clone();
        push_char(&mut line, ':');
        push_char(&mut line, ' ');
        let hp = decimal_text(self.hp as u64);
        line.append(hp.as_str());
        proof {
            assert(line@ =~= described(self.deep_view()));
        }
        line
    }

    /// Reads a participant from a line `name: hit points`. The name may hold
    /// colons itself: the hit points come after the last one.
    pub fn parse(s: &str) -> (r: Result<Participant, ParseError>)
        ensures
            participant_view(r) == participant_of(split_at_char(s@, ':')),
    {
        let splits = split_text(s, ':');
        Participant::parse_splits(splits)
    }

    /// Reads a participant from the pieces of a line that was split at its
    /// colons.
    pub fn parse_splits(s: Vec<String>) -> (r: Result<Participant, ParseError>)
        ensures
            participant_view(r) == participant_of(lines_of(s@)),
    {
        let splits = s;
        if splits.len() <= 1 {
            return Err(ParseError::MissingColon);
        }
        let last = splits.len() - 1;
        let hp_split = trim_text(splits[last].as_str());
        proof {
            assert(lines_of(splits@).last() == splits@[last as int]@);
            assert(lines_of(splits@).drop_last() =~= lines_of(splits@).take(last as int));
        }
        match parse_unsigned(hp_split.as_str(), 0xffff) {
            Some(hp) => {
                let name = join_texts(&splits, last, ':');
                let p = Participant { hp: hp as u16, name, modifiers: Vec::new() };
                proof {
                    assert(p.modifiers.deep_view() =~= Seq::empty());
                }
                Ok(p)
            },
            None => Err(ParseError::InvalidHitPoints),
        }
    }
}

impl Modifier {
    /// A modifier that came in at `introduced_at`.
    pub fn new(name: String, introduced_at: TimeVec, duration: Option<usize>) -> (m: Modifier)
        ensures
            m.deep_view() == (ModifierModel { name: name@, introduced_at, duration }),
    {
        Modifier { name, introduced_at, duration }
    }

    /// Reads what a modifier is made from, from a line `name` or
    /// `name: duration`. White space around either part does not count.
    pub fn parse_factory(s: &str) -> (r: Result<ModifierFac, ParseError>)
        ensures
            modifier_fac_view(r) == modifier_fac_of(split_at_char(s@, ':')),
    {
        let elems = split_text(s, ':');
        proof {
            assert(lines_of(elems@)[0] == elems@[0]@);
        }
        let name = trim_text(elems[0].as_str());
        if elems.len() == 1 {
            Ok(ModifierFac { name, duration: None })
        } else if elems.len() == 2 {
            proof {
                assert(lines_of(elems@)[1] == elems@[1]@);
            }
            let dur_text = trim_text(elems[1].as_str());
            match parse_unsigned(dur_text.as_str(), usize::MAX as u64) {
                Some(dur) => Ok(ModifierFac { name, duration: Some(dur as usize) }),
                None => Err(ParseError::InvalidDuration),
            }
        } else {
            Err(ParseError::MalformedModifier)
        }
    }

    /// The rounds that the modifier still has at `now`; `None` for one that
    /// lasts for good.
    pub fn remaining_rounds(&self, now: &TimeVec) -> (left: Option<i64>)
        requires
            self.duration is Some ==> self.introduced_at.round + self.duration->0 <= i64::MAX,
            self.duration is Some ==> now.round <= i64::MAX,
            self.duration is Some ==> rounds_left(self.deep_view(), *now)->0 <= i64::MAX,
        ensures
            match left {
                Some(n) => rounds_left(self.deep_view(), *now) == Some(n as int),
                None => rounds_left(self.deep_view(), *now) is None,
            },
    {
        match self.duration {
            Some(dur) => {
                let start = self.introduced_at;
                let offset: i64 = if start.sub_round_time.is_after(&now.sub_round_time) {
                    0
                } else {
                    -1
                };
                let until: i64 = start.round as i64 + dur as i64;
                Some(until - now.round as i64 + offset + 1)
            },
            None => None,
        }
    }
}

impl ParseError {
    /// What to tell the user.
    pub fn message(&self) -> (text: String)
        ensures
            text@ == message_of(*self),
    {
        match self {
            ParseError::MissingColon => String::from_str("Didn't find a :"),
            ParseError::InvalidHitPoints => String::from_str("The hit points are not a number"),
            ParseError::InvalidInitiative => String::from_str("The initiative is not a number"),
            ParseError::InvalidDuration => String::from_str("Parsing Modifier Duration"),
            ParseError::MalformedModifier => String::from_str(
                "Modifiers must have the following format: <Name>[:<Duration>]",
            ),
        }
    }
}

impl ModifierFac {
    /// The modifier, come in at `start`.
    pub fn build(&self, start: TimeVec) -> (m: Modifier)
        ensures
            m.deep_view() == (ModifierModel {
                name: self.name@,
                introduced_at: start,
                duration: self.duration,
            }),
    {
        Modifier::new(self.name.clone(), start, self.duration)
    }
}

} // verus!
