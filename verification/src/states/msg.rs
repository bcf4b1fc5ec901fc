//! A message that waits for Enter before the mode behind it goes on.

use crate::states::{tracker_model, Key, KeyPress, TrackerModel, TrackerState};
use vstd::prelude::*;

verus! {

/// A message, and the mode to return to.
#[derive(Debug)]
pub struct Msg {
    pub parent: Box<TrackerState>,
    pub msg: String,
}

impl Msg {
    /// The message `msg` in front of the mode `parent`.
    pub fn new(parent: Box<TrackerState>, msg: String) -> (m: Msg)
        ensures
            m.parent == parent,
            m.msg == msg,
    {
        Msg { parent, msg }
    }

    /// The mode that the key press leads to: Enter leads to the mode behind
    /// the message, and nothing else leads anywhere.
    pub fn process(self, key: KeyPress) -> (r: TrackerState)
        ensures
            key.code == Key::Enter ==> r == *self.parent,
            key.code != Key::Enter ==> r == TrackerState::Msg(self),
    {
        match key.code {
            Key::Enter => *self.parent,
            _ => TrackerState::Msg(self),
        }
    }
}

} // verus!
