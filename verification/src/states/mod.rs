//! The modes of the tracker and how a key press leads from one to the next.

pub mod adding_modifier;
pub mod editing_modifiers;
pub mod fighting;
pub mod insert;
pub mod managing_modifiers;
pub mod msg;
pub mod normal;

use crate::combat_state::{CombatModel, ParseError};
use crate::states::adding_modifier::AddingModifiers;
use crate::states::fighting::{Fighting, KeyInfo};
use crate::states::insert::Insert;
use crate::states::msg::Msg;
use crate::states::adding_modifier::{adding_accepts, adding_step};
use crate::states::fighting::{fighting_accepts, fighting_step};
use crate::states::insert::insert_step;
use crate::states::normal::{normal_accepts, normal_step, rolled_from, Normal};
use vstd::prelude::*;

verus! {

/// The key that was pressed.
#[derive(Debug, Clone, Copy, PartialEq, Eq, Structural)]
pub enum Key {
    Char(char),
    Backspace,
    Esc,
    Enter,
    Other,
}

/// A key press: the key, and whether the control key was held down.
#[derive(Debug, Clone, Copy, PartialEq, Eq, Structural)]
pub struct KeyPress {
    pub code: Key,
    pub control: bool,
}

/// The mode that the tracker is in.
#[derive(Debug)]
pub enum TrackerState {
    Insert(Insert),
    Normal(Normal),
    Fighting(Fighting),
    AddingModifiers(AddingModifiers),
    Msg(Msg),
}

/// Mathematical value of an [`Insert`].
pub struct InsertModel {
    pub combat: CombatModel,
    pub buffer: Seq<char>,
    pub initiatives: Seq<Option<u8>>,
}

/// Mathematical value of a [`Normal`].
pub struct NormalModel {
    pub combat: CombatModel,
    pub initiatives: Seq<Option<u8>>,
    pub selection: usize,
}

/// Mathematical value of a [`Fighting`].
pub struct FightingModel {
    pub combat: CombatModel,
    pub key_infos: Seq<KeyInfo>,
}

/// Mathematical value of an [`AddingModifiers`].
pub struct AddingModel {
    pub parent: FightingModel,
    pub target: usize,
    pub buffer: Seq<char>,
}

/// Mathematical value of a [`TrackerState`].
pub enum TrackerModel {
    Insert(InsertModel),
    Normal(NormalModel),
    Fighting(FightingModel),
    AddingModifiers(AddingModel),
    Msg(Box<TrackerModel>, Seq<char>),
}

/// The mathematical value of a mode.
pub open spec fn tracker_model(s: TrackerState) -> TrackerModel
    decreases s,
{
    match s {
        TrackerState::Insert(i) => TrackerModel::Insert(i.deep_view()),
        TrackerState::Normal(n) => TrackerModel::Normal(n.deep_view()),
        TrackerState::Fighting(f) => TrackerModel::Fighting(f.deep_view()),
        TrackerState::AddingModifiers(a) => TrackerModel::AddingModifiers(a.deep_view()),
        TrackerState::Msg(m) => TrackerModel::Msg(Box::new(tracker_model(*m.parent)), m.msg@),
    }
}

impl DeepView for TrackerState {
    type V = TrackerModel;

    open spec fn deep_view(&self) -> TrackerModel {
        tracker_model(*self)
    }
}

/// The mathematical value of a step's result.
pub open spec fn step_view<E>(r: Result<TrackerState, E>) -> Result<TrackerModel, E> {
    match r {
        Ok(s) => Ok(s.deep_view()),
        Err(e) => Err(e),
    }
}

/// Why a key press leads to no mode.
#[derive(Debug, Clone, Copy, PartialEq, Eq, Structural)]
pub enum TrackerError {
    /// The line that was typed cannot be read.
    Parse(ParseError),
    /// There is no participant to show.
    NoParticipants,
}

/// The key presses that a mode can take.
pub open spec fn tracker_accepts(s: TrackerModel, key: KeyPress) -> bool {
    match s {
        TrackerModel::Normal(n) => normal_accepts(n, key),
        TrackerModel::Fighting(f) => fighting_accepts(f, key),
        TrackerModel::AddingModifiers(a) => adding_accepts(a, key),
        _ => true,
    }
}

/// The key press rolls initiatives: what it leads to is a matter of chance.
pub open spec fn is_roll(s: TrackerModel, key: KeyPress) -> bool {
    s is Normal && key.code == Key::Char('r')
}

/// Where a key press leads from a mode, for every key press that rolls no
/// dice.
pub open spec fn tracker_step(s: TrackerModel, key: KeyPress) -> Result<TrackerModel, TrackerError> {
    match s {
        TrackerModel::Insert(i) => match insert_step(i, key) {
            Ok(t) => Ok(t),
            Err(e) => Err(TrackerError::Parse(e)),
        },
        TrackerModel::Normal(n) => Ok(normal_step(n, key)),
        TrackerModel::Fighting(f) => match fighting_step(f, key) {
            Ok(t) => Ok(t),
            Err(_) => Err(TrackerError::NoParticipants),
        },
        TrackerModel::AddingModifiers(a) => Ok(adding_step(a, key)),
        TrackerModel::Msg(parent, text) => if key.code == Key::Enter {
            Ok(*parent)
        } else {
            Ok(s)
        },
    }
}

impl TrackerState {
    /// Whether the mode can take the key press.
    pub fn accepts(&self, key: &KeyPress) -> (ok: bool)
        ensures
            ok == tracker_accepts(self.deep_view(), *key),
    {
        match self {
            TrackerState::Normal(n) => n.accepts(key),
            TrackerState::Fighting(f) => f.accepts(key),
            TrackerState::AddingModifiers(a) => a.accepts(key),
            TrackerState::Insert(_) => true,
            TrackerState::Msg(_) => true,
        }
    }

    /// The mode that the key press leads to.
    pub fn process(self, key: KeyPress) -> (r: Result<TrackerState, TrackerError>)
        requires
            tracker_accepts(self.deep_view(), key),
        ensures
            !is_roll(self.deep_view(), key) ==> step_view(r) == tracker_step(self.deep_view(), key),
            is_roll(self.deep_view(), key) ==> (r matches Ok(TrackerState::Normal(n))
                && rolled_from(self->Normal_0.deep_view(), n.deep_view())),
    {
        match self {
            TrackerState::Insert(i) => match i.process(key) {
                Ok(t) => Ok(t),
                Err(e) => Err(TrackerError::Parse(e)),
            },
            TrackerState::Normal(n) => Ok(n.process(key)),
            TrackerState::Fighting(f) => match f.process(key) {
                Ok(t) => Ok(t),
                Err(_) => Err(TrackerError::NoParticipants),
            },
            TrackerState::AddingModifiers(a) => Ok(a.process(key)),
            TrackerState::Msg(m) => Ok(m.process(key)),
        }
    }
}

/// Whether the key press ends the program: control and `c`.
pub fn is_quit(key: &KeyPress) -> (quit: bool)
    ensures
        quit == (key.control && key.code == Key::Char('c')),
{
    match key.code {
        Key::Char(c) => key.control && c == 'c',
        _ => false,
    }
}

} // verus!
