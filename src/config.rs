//! Viewer settings.

use vstd::prelude::*;

verus! {

/// The shortest interval, in seconds, between two local refreshes.
pub const MIN_REFRESH_INTERVAL: u64 = 1;

/// The shortest interval, in seconds, between two fetches from remotes.
pub const MIN_FETCH_INTERVAL: u64 = 10;

/// Automatic refresh settings.
#[derive(Debug, Clone, Copy, PartialEq, Eq, Structural)]
pub struct RefreshConfig {
    /// Refresh commits, branches and working tree on a timer.
    pub auto_refresh: bool,
    /// Seconds between local refreshes (at least 1).
    pub refresh_interval: u64,
    /// Fetch from remotes on a timer.
    pub auto_fetch: bool,
    /// Seconds between fetches (at least 10).
    pub fetch_interval: u64,
}

impl Default for RefreshConfig {
    fn default() -> (r: Self)
        ensures
            r == (RefreshConfig { auto_refresh: true, refresh_interval: 10, auto_fetch: true, fetch_interval: 60 }),
    {
        RefreshConfig { auto_refresh: true, refresh_interval: 10, auto_fetch: true, fetch_interval: 60 }
    }
}

/// All settings.
#[derive(Debug, Clone, Copy, PartialEq, Eq, Structural)]
pub struct Config {
    pub refresh: RefreshConfig,
}

impl Default for Config {
    fn default() -> (r: Self)
        ensures
            r.refresh == (RefreshConfig { auto_refresh: true, refresh_interval: 10, auto_fetch: true, fetch_interval: 60 }),
    {
        Config { refresh: RefreshConfig::default() }
    }
}

/// A configured refresh interval, raised to the minimum.
pub fn refresh_interval_from(value: u64) -> (r: u64)
    ensures
        r == if value < MIN_REFRESH_INTERVAL {
            MIN_REFRESH_INTERVAL
        } else {
            value
        },
{
    if value < MIN_REFRESH_INTERVAL {
        MIN_REFRESH_INTERVAL
    } else {
        value
    }
}

/// A configured fetch interval, raised to the minimum.
pub fn fetch_interval_from(value: u64) -> (r: u64)
    ensures
        r == if value < MIN_FETCH_INTERVAL {
            MIN_FETCH_INTERVAL
        } else {
            value
        },
{
    if value < MIN_FETCH_INTERVAL {
        MIN_FETCH_INTERVAL
    } else {
        value
    }
}

} // verus!
