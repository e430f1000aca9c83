//! A live traffic monitor core: decode captured link-layer frames up through
//! the transport layer, accumulate per-flow byte counts over a fixed time
//! window, and hand back a snapshot of the counters at each interval flush.
//!
//! The capture channel, the terminal output and the command-line front end
//! live outside this crate; the decoding, accumulation and flush decisions
//! are verified here.
use vstd::prelude::*;

pub mod accum;
pub mod decode;
pub mod flow;
pub mod monitor;
pub mod render;

verus! {

/// Run-time configuration: the flush interval in seconds and the candidate
/// capture device names, in preference order.
#[derive(Debug)]
pub struct Config {
    pub delay_sec: u64,
    pub devices: Vec<String>,
}

impl Config {
    /// Build a configuration from the parsed command-line values.
    /// An absent delay option falls back to a zero-second interval,
    /// which flushes the table almost continuously.
    pub fn new(delay: Option<u64>, devices: Vec<String>) -> (c: Config)
        ensures
            c.delay_sec == (match delay {
                Some(d) => d,
                None => 0u64,
            }),
            c.devices == devices,
    {
        let delay_sec: u64 = match delay {
            Some(d) => d,
            None => 0,
        };
        Config { delay_sec, devices }
    }
}

} // verus!
