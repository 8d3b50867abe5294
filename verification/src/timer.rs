//! Countdown timer: an 8-bit value decremented once per external tick,
//! flooring at zero.

use vstd::prelude::*;

verus! {

pub struct Timer {
    pub value: u8,
}

impl Timer {
    pub fn new() -> (t: Timer)
        ensures
            t.value == 0,
    {
        Timer { value: 0 }
    }

    /// One tick: decrement toward zero; a timer already at zero stays at zero.
    pub fn step(&mut self)
        ensures
            final(self).value == if old(self).value > 0 { old(self).value - 1 } else { 0 },
    {
        if self.value > 0 {
            self.value = self.value - 1;
        }
    }

    pub fn read(&self) -> (v: u8)
        ensures
            v == self.value,
    {
        self.value
    }

    pub fn write(&mut self, value: u8)
        ensures
            final(self).value == value,
    {
        self.value = value;
    }
}

} // verus!
