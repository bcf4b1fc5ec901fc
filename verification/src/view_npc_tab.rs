//! The tab that will show finished records. It shows nothing yet.

use vstd::prelude::*;

verus! {

/// The tab.
#[derive(Debug, Clone, Copy, PartialEq, Eq, Structural)]
pub struct ViewNpcTab;

/// What the tab can be told.
#[derive(Debug, Clone, Copy, PartialEq, Eq, Structural)]
pub enum ViewNpcMessage {
    Nothing,
}

impl ViewNpcTab {
    /// The tab.
    pub fn new() -> (tab: ViewNpcTab)
        ensures
            tab == ViewNpcTab,
    {
        ViewNpcTab
    }

    /// Takes a message. No message changes the tab.
    pub fn update(&mut self, message: ViewNpcMessage)
        ensures
            *final(self) == *old(self),
    {
    }
}

} // verus!
