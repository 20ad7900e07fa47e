//! Exact, machine-checked core of a phased-array station model.
//!
//! A station digitises the signal of each antenna, steers the array with
//! per-antenna delays and splits the sum into frequency channels in two
//! cascaded stages.  This crate holds the part of that model that is exact
//! integer arithmetic: the configuration and its validity, the layout of a
//! station (how many antennas, how many channels of each stage, which coarse
//! channels are split further) and the frequency of every channel, held as an
//! exact fraction of the sample rate.

pub mod cfg;
pub mod constants;
pub mod freq;
pub mod station;
pub mod utils;
