//! Health and power-charge counters carried by actors.

use vstd::prelude::*;

verus! {

/// Hit points; reaching zero means death, observed by a separate watcher.
#[derive(Clone, Copy, Debug, PartialEq, Eq, Structural)]
pub struct Health {
    pub hp: usize,
}

impl Default for Health {
    fn default() -> (r: Self)
        ensures
            r.hp == 1,
    {
        Self { hp: 1 }
    }
}

impl Health {
    /// Reduce hit points by `d`, flooring at zero.
    pub fn decr_by(&mut self, d: usize)
        ensures
            final(self).hp == (if old(self).hp >= d {
                old(self).hp - d
            } else {
                0int
            }),
    {
        if self.hp >= d {
            self.hp = self.hp - d;
        } else {
            self.hp = 0;
        }
    }
}

/// Charges of the player's power; firing spends one.
#[derive(Clone, Copy, Debug, PartialEq, Eq, Structural)]
pub struct PowerCharges {
    pub charges: usize,
}

impl Default for PowerCharges {
    fn default() -> (r: Self)
        ensures
            r.charges == 1,
    {
        Self { charges: 1 }
    }
}

impl PowerCharges {
    pub fn new(charges: usize) -> (r: Self)
        ensures
            r.charges == charges,
    {
        Self { charges }
    }

    /// Spend one charge; reports whether one was available.
    pub fn use_charge(&mut self) -> (r: bool)
        ensures
            r == (old(self).charges > 0),
            final(self).charges == (if old(self).charges > 0 {
                old(self).charges - 1
            } else {
                0int
            }),
    {
        if self.charges > 0 {
            self.charges = self.charges - 1;
            true
        } else {
            false
        }
    }
}

} // verus!
