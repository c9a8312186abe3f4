//! How often the costs are polled and how long a published value lives.
use vstd::prelude::*;

verus! {

/// How many times per day the costs are fetched.
pub const DAILY_CHECK_FREQUENCY: u64 = 1;

/// Seconds in one day.
pub const SECS_PER_DAY: u64 = 86400;

/// Extra time, in seconds, that a value survives past one poll interval.
pub const EXPIRY_MARGIN_SECS: u64 = 300;

/// Name of the gauge that carries the cost figures.
pub const GAUGE_NAME: &'static str = "aws_cost_explorer";

/// Help text registered for the gauge.
pub const GAUGE_HELP: &'static str = "The cost of an AWS service month-to-date in dollars.";

/// The cost metric requested from the billing service.
pub const COST_METRIC: &'static str = "NetUnblendedCost";

/// The dimension by which costs are grouped.
pub const GROUP_DIMENSION: &'static str = "SERVICE";

/// Port on which the scrape endpoint listens.
pub const LISTEN_PORT: u16 = 9090;

pub open spec fn spec_sleep_delay_secs() -> int {
    SECS_PER_DAY as int / DAILY_CHECK_FREQUENCY as int
}

pub open spec fn spec_metric_timeout_secs() -> int {
    spec_sleep_delay_secs() + EXPIRY_MARGIN_SECS as int
}

/// Seconds to wait between two polls: the day split evenly by the
/// daily check frequency.
pub fn sleep_delay_secs() -> (r: u64)
    ensures
        r as int == spec_sleep_delay_secs(),
        r > 0,
{
    SECS_PER_DAY / DAILY_CHECK_FREQUENCY
}

/// Seconds after which a value that was not refreshed is dropped from the
/// scrape output: one poll interval plus a five-minute margin, so a value
/// refreshed by every poll never expires.
pub fn metric_timeout_secs() -> (r: u64)
    ensures
        r as int == spec_metric_timeout_secs(),
        r > spec_sleep_delay_secs(),
{
    sleep_delay_secs() + EXPIRY_MARGIN_SECS
}

} // verus!
