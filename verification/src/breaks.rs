//! Break scheduling configuration.

use vstd::prelude::*;

verus! {

/// How often breaks and micro-breaks recur, in seconds.
pub struct AppConfig {
    pub break_interval: u64,
    pub microbreak_interval: u64,
}

/// Schedules breaks from a configuration; the waiting itself is driven by
/// the caller's runtime.
pub struct BreakScheduler {
    pub config: AppConfig,
}

impl BreakScheduler {
    /// A scheduler carrying exactly the given configuration.
    pub fn new(config: AppConfig) -> (r: BreakScheduler)
        ensures
            r.config.break_interval == config.break_interval,
            r.config.microbreak_interval == config.microbreak_interval,
    {
        BreakScheduler { config }
    }
}

} // verus!
