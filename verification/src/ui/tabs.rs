//! The tab bar's events.
use vstd::prelude::*;

verus! {

/// What the tab bar asks for in one frame.
pub struct TabEvents {
    pub close: Option<usize>,
    pub switch: Option<usize>,
    pub new_local: bool,
}

impl Default for TabEvents {
    fn default() -> (r: Self)
        ensures
            r.close is None,
            r.switch is None,
            !r.new_local,
    {
        TabEvents { close: None, switch: None, new_local: false }
    }
}

} // verus!
