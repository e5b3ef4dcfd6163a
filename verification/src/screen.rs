//! Screens: the views an application can show, one of them active at a time.

use crate::table::ResourceTable;
use vstd::prelude::*;

verus! {

#[derive(Clone, Copy, PartialEq, Eq, Structural, Debug, Hash)]
pub struct ScreenKey {
    pub raw: u64,
}

/// One screen.
#[derive(PartialEq, Eq, Debug)]
pub struct Screen {}

/// The screens of an application and the one that is shown.
pub struct ScreenManager {
    pub screens: ResourceTable<Screen>,
    pub active_screen: Option<ScreenKey>,
}

impl ScreenManager {
    /// No screens, none active.
    pub fn new() -> (manager: Self)
        ensures
            manager.screens.wf(),
            manager.screens@ == Map::<u64, Screen>::empty(),
            manager.active_screen is None,
    {
        ScreenManager { screens: ResourceTable::new(), active_screen: None }
    }
}

} // verus!
