//! The rescan command core.
//!
//! Decides where a rescan starts and drives the height loop's state;
//! fetching blocks, re-querying the chain tip and persisting the wallet
//! are the caller's job, performed when the engine asks.

use vstd::prelude::*;
use crate::scan::{Rescanner, start_height_spec};

verus! {

/// Scans the blockchain for new transactions.
pub struct Rescan;

/// Options of the rescan command.
pub struct Options {
    /// The height to start from; the scan never begins further back
    /// than the lookback margin before the checkpoint, which is also
    /// the start when no height is given.
    pub start_from: Option<u64>,
}

impl Rescan {
    /// Starts the height loop of one rescan from the options, the
    /// wallet's persisted checkpoint and the chain tip first observed.
    pub fn begin(options: Options, checkpoint: u64, tip: u64) -> (r: Rescanner)
        ensures
            r.height == start_height_spec(options.start_from, checkpoint),
            r.tip == tip,
    {
        Rescanner::new(options.start_from, checkpoint, tip)
    }
}

} // verus!
