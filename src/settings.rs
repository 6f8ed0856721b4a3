//! Settings of the application.
use vstd::prelude::*;

verus! {

/// How often the process snapshot is refreshed.
pub struct Settings {
    pub update_interval_ms: usize,
}

impl Default for Settings {
    fn default() -> (r: Self)
        ensures
            r.update_interval_ms == 1000,
    {
        Settings { update_interval_ms: 1000 }
    }
}

} // verus!
