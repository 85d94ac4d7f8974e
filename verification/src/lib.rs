//! Core logic of a proxy-racing magnet-link downloader.
//!
//! The library covers the decision-making parts of the tool: extracting
//! magnet links and proxy addresses from line-oriented text, selecting a
//! working proxy (by a concurrent race or by sequential probing), building
//! the launch configuration for the external probe and download processes,
//! and rendering the surviving proxy list back to text.
//!
//! Process spawning, file reading and stream relaying live outside the
//! library; it only consumes their plain results (lines, exit statuses).

use vstd::prelude::*;

pub mod command;
pub mod lines;
pub mod persist;
pub mod selector;

verus! {

/// A proxy address is live exactly when its probe reported success.
pub fn probe_is_live(exit_success: Option<bool>) -> (r: bool)
    ensures
        r == (exit_success == Some(true)),
{
    match exit_success {
        Some(s) => s,
        None => false,
    }
}

} // verus!
