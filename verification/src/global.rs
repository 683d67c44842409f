//! What the whole program shares: the pane that has the focus, the text
//! cursor, and whether to go on.
use crate::keys::{KEY_E, KEY_Q, KEY_TAB};
use vstd::prelude::*;

verus! {

/// The panes that can have the focus.
#[derive(Clone, Copy, Debug, PartialEq, Eq, Structural)]
pub enum Focus {
    Lines,
    Regexs,
    Cmds,
}

impl Focus {
    /// The pane that has the focus after this one.
    pub open spec fn following(self) -> Focus {
        match self {
            Focus::Lines => Focus::Regexs,
            Focus::Regexs => Focus::Cmds,
            Focus::Cmds => Focus::Lines,
        }
    }

    /// The pane that has the focus after this one.
    pub fn next(self) -> (focus: Focus)
        ensures
            focus == self.following(),
    {
        match self {
            Focus::Lines => Focus::Regexs,
            Focus::Regexs => Focus::Cmds,
            Focus::Cmds => Focus::Lines,
        }
    }
}

/// The state that all panes share.
#[derive(Clone, Copy, Debug, PartialEq, Eq, Structural)]
pub struct Global {
    pub profile_pane: bool,
    pub quit: bool,
    pub focus: Focus,
    pub cursor_visible: bool,
    pub cursor_x: i32,
    pub cursor_y: i32,
}

/// The keys that mean the same in every pane.
pub open spec fn is_global_key(key: i32) -> bool {
    key == KEY_E || key == KEY_Q || key == KEY_TAB
}

impl Global {
    /// The state that the program starts in.
    pub open spec fn initial() -> Global {
        Global {
            profile_pane: false,
            quit: false,
            focus: Focus::Regexs,
            cursor_visible: false,
            cursor_x: 0,
            cursor_y: 0,
        }
    }

    /// The state after a key.
    pub open spec fn after_key(self, key: i32) -> Global {
        if key == KEY_E {
            Global { profile_pane: !self.profile_pane, ..self }
        } else if key == KEY_Q {
            Global { quit: true, ..self }
        } else if key == KEY_TAB {
            Global { focus: self.focus.following(), ..self }
        } else {
            self
        }
    }

    /// The state that the program starts in.
    pub fn new() -> (global: Global)
        ensures
            global == Global::initial(),
    {
        Global {
            profile_pane: false,
            quit: false,
            focus: Focus::Regexs,
            cursor_visible: false,
            cursor_x: 0,
            cursor_y: 0,
        }
    }

    /// Takes a key if it means the same in every pane, and says whether it
    /// did.
    pub fn handle_key(&mut self, key: i32) -> (taken: bool)
        ensures
            taken == is_global_key(key),
            *final(self) == old(self).after_key(key),
    {
        if key == KEY_E {
            self.profile_pane = !self.profile_pane;
            true
        } else if key == KEY_Q {
            self.quit = true;
            true
        } else if key == KEY_TAB {
            self.focus = self.focus.next();
            true
        } else {
            false
        }
    }
}

/// The focus comes back to a pane after it has been on the other two.
pub proof fn law_focus_cycle(focus: Focus)
    ensures
        focus.following() != focus,
        focus.following().following() != focus,
        focus.following().following().following() == focus,
{
}

/// The key that opens the profile pane closes it again, and changes nothing
/// else.
pub proof fn law_profile_pane_toggles(global: Global)
    ensures
        global.after_key(KEY_E).profile_pane != global.profile_pane,
        global.after_key(KEY_E).after_key(KEY_E) == global,
{
}

/// Once the program is to end, no key calls that off.
pub proof fn law_quit_stays(global: Global, key: i32)
    requires
        global.quit,
    ensures
        global.after_key(key).quit,
{
}

} // verus!
