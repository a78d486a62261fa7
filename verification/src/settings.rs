//! Process-wide toggles read by the reveal engine.

use vstd::prelude::*;

verus! {

pub struct Settings {
    /// Enable marking cells with a question mark. If disabled, a flagged cell
    /// goes straight back to hidden when marked again.
    pub questions_enabled: bool,
    /// If true, poking an already uncovered numbered cell uncovers all
    /// surrounding cells.
    pub quick_uncover: bool,
    /// If true, quick-uncover only fires when the flags around the poked cell
    /// match its value.
    pub protected_quick_uncover: bool,
}

impl Settings {
    pub fn new() -> (r: Settings)
        ensures
            r.questions_enabled,
            r.quick_uncover,
            r.protected_quick_uncover,
    {
        Settings { questions_enabled: true, quick_uncover: true, protected_quick_uncover: true }
    }

    pub fn is_questions_enabled(&self) -> (r: bool)
        ensures
            r == self.questions_enabled,
    {
        self.questions_enabled
    }

    pub fn is_quick_uncover_enabled(&self) -> (r: bool)
        ensures
            r == self.quick_uncover,
    {
        self.quick_uncover
    }

    pub fn is_protected_uncover_enabled(&self) -> (r: bool)
        ensures
            r == self.protected_quick_uncover,
    {
        self.protected_quick_uncover
    }
}

/// Replaces the process-wide settings wholesale.
pub fn set_game_settings(current: &mut Settings, settings: Settings)
    ensures
        final(current).questions_enabled == settings.questions_enabled,
        final(current).quick_uncover == settings.quick_uncover,
        final(current).protected_quick_uncover == settings.protected_quick_uncover,
{
    *current = settings;
}

} // verus!
