//! Settings of the input and timer event source.
use vstd::prelude::*;

verus! {

/// How often the event source emits a tick, in milliseconds.
#[derive(Debug, Clone, Copy)]
pub struct Config {
    pub tick_rate_ms: u64,
}

impl Default for Config {
    fn default() -> (r: Self)
        ensures
            r.tick_rate_ms == 250,
    {
        Config { tick_rate_ms: 250 }
    }
}

} // verus!
