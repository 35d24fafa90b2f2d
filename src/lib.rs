//! A per-port bandwidth shaper: the datapath that classifies frames by
//! transport destination port and charges token buckets held in a shared
//! map, and the control-plane logic that validates a configuration and
//! installs it in that map.
use vstd::prelude::*;

pub mod accounting;
pub mod bucket;
pub mod config;
pub mod control;
pub mod map;
pub mod packet;
pub mod shaper;

verus! {

/// Verdict of the datapath on one frame.
#[derive(Clone, Copy, Debug, PartialEq, Eq, Structural)]
pub enum Verdict {
    Accept,
    Drop,
}

} // verus!
