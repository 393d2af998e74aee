//! Configuration of the gossip table and engine, fixed at construction time.

use vstd::prelude::*;

verus! {

/// Configuration of the gossip table and engine.
#[derive(Clone, Copy, PartialEq, Eq, Debug, Structural)]
pub struct Config {
    /// Stop forwarding an item once this many peers are confirmed infected.
    pub infection_target: u32,
    /// Fraction (0 to 100) of known peers after which gossip counts as
    /// saturated. Kept for construction-time validation; the table's
    /// operations decide on `infection_target` alone.
    pub saturation_limit_percent: u8,
    /// Deadline, in seconds, for a peer to answer a gossip announcement.
    pub gossip_request_timeout_secs: u32,
    /// Deadline, in seconds, for a holder to deliver the full item.
    pub get_remainder_timeout_secs: u32,
    /// How long, in seconds, a finished or paused entry is retained so that
    /// late announcements do not restart forwarding.
    pub finished_entry_duration_secs: u32,
    /// Capacity cap on the number of tracked items.
    pub max_items: u32,
}

impl Config {
    /// A configuration the table can run on: a positive infection target,
    /// a percentage in range, and room for at least one entry.
    pub open spec fn valid(self) -> bool {
        &&& self.infection_target >= 1
        &&& self.saturation_limit_percent <= 100
        &&& self.max_items >= 1
    }

    /// Whether this configuration is valid.
    pub fn is_valid(&self) -> (r: bool)
        ensures
            r == self.valid(),
    {
        self.infection_target >= 1 && self.saturation_limit_percent <= 100 && self.max_items >= 1
    }
}

impl Default for Config {
    /// The default configuration: target three infections, treat 80% contact
    /// as saturation.
    fn default() -> (r: Config)
        ensures
            r.infection_target == 3,
            r.saturation_limit_percent == 80,
            r.gossip_request_timeout_secs == 10,
            r.get_remainder_timeout_secs == 5,
            r.finished_entry_duration_secs == 60,
            r.max_items == 5000,
            r.valid(),
    {
        Config {
            infection_target: 3,
            saturation_limit_percent: 80,
            gossip_request_timeout_secs: 10,
            get_remainder_timeout_secs: 5,
            finished_entry_duration_secs: 60,
            max_items: 5000,
        }
    }
}

/// `a + b`, capped at the largest representable value; used to compute
/// deadlines that never wrap around.
pub open spec fn sat_add(a: u64, b: u64) -> u64 {
    if a + b <= u64::MAX {
        (a + b) as u64
    } else {
        u64::MAX
    }
}

/// Saturating addition on timestamps.
pub fn saturating_add(a: u64, b: u64) -> (r: u64)
    ensures
        r == sat_add(a, b),
{
    if a <= u64::MAX - b {
        a + b
    } else {
        u64::MAX
    }
}

} // verus!
