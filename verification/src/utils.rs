//! Frequency grids for response sweeps.

use crate::freq::{proper, ratios, Freq};
use crate::station::Station;
use vstd::prelude::*;

verus! {

/// The frequencies at which to probe a station's response: the grid of the
/// fine channels, made `subdiv` times as dense.  Each selected coarse channel
/// gets `subdiv` evenly spaced points per fine channel, centred on the coarse
/// channel; with `subdiv` equal to one these are the fine channels' centres.
pub fn get_freq_to_sample(station: &Station, subdiv: usize) -> (f: Vec<Freq>)
    requires
        station.wf(),
        station@.grid_fits(subdiv as int),
    ensures
        ratios(f@) == station@.grid(station@.nfine_per_coarse * subdiv),
        proper(f@),
{
    station.grid(station.nfine_per_coarse() * subdiv)
}

} // verus!
