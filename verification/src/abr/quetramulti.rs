//! Settings of the Quetra rate adaptation for the multiplane decoder.
//!
//! See [Quetra: A Queueing Theory Approach to DASH Rate Adaptation](https://www.comp.nus.edu.sg/~ooiwt/papers/mm17-quetra.pdf).

use vstd::prelude::*;

verus! {

/// Quetra for the multiplane decoder.
pub struct QuetraMulti {
    /// max buffer capacity measured in seconds of playback
    pub k: u64,
    /// how often the bitrate adaptation is done (1 s)
    pub segment_frequency: u32,
    /// segment size parameter for the granularity of each buffer (1)
    pub segment_size: u32,
}

impl QuetraMulti {
    /// Quetra with a buffer of `buffer_capacity` seconds, adapting every second
    /// with unit segments.
    pub fn new(buffer_capacity: u64) -> (q: Self)
        ensures
            q.k == buffer_capacity,
            q.segment_frequency == 1,
            q.segment_size == 1,
    {
        QuetraMulti { k: buffer_capacity, segment_frequency: 1, segment_size: 1 }
    }
}

} // verus!
