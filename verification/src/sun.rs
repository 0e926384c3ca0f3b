//! The position of the sun along its daily circle.
use vstd::prelude::*;

verus! {

/// The sun, as portions of a 65536-degree circle.
#[derive(Clone, Copy, Debug, PartialEq, Eq, Structural)]
pub struct Sun {
    pub position: u16,
}

impl Sun {
    /// The sun at the start of its circle.
    pub fn new() -> (s: Sun)
        ensures
            s.position == 0,
    {
        Sun { position: 0 }
    }

    /// Moves the sun on by `ticks` portions of its circle, going round as
    /// often as they make it.
    pub fn advance(&mut self, ticks: u64)
        ensures
            final(self).position == (old(self).position + ticks) % 65536,
    {
        let step = (ticks % 65536) as u16;
        let p = self.position as u32 + step as u32;
        self.position = (p % 65536) as u16;
        proof {
            vstd::arithmetic::div_mod::lemma_add_mod_noop(
                old(self).position as int,
                ticks as int,
                65536,
            );
            vstd::arithmetic::div_mod::lemma_small_mod(old(self).position as nat, 65536);
        }
    }
}

} // verus!
