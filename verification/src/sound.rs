//! Sound countdown: an 8-bit value decremented once per external tick; a
//! nonzero value is the "should emit sound" signal. No waveform is modeled.

use vstd::prelude::*;

verus! {

pub struct Sound {
    pub value: u8,
}

impl Sound {
    pub fn new() -> (s: Sound)
        ensures
            s.value == 0,
    {
        Sound { value: 0 }
    }

    pub fn write(&mut self, value: u8)
        ensures
            final(self).value == value,
    {
        self.value = value;
    }

    /// One tick: decrement toward zero; a value already at zero stays at zero.
    pub fn step(&mut self)
        ensures
            final(self).value == if old(self).value > 0 { old(self).value - 1 } else { 0 },
    {
        if self.value > 0 {
            self.value = self.value - 1;
        }
    }
}

} // verus!
