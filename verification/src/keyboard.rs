//! Input latch: 16 boolean key states, plus a one-shot latch of the most
//! recently pressed and still unconsumed key, used by the blocking key-read
//! opcode through a single in-flight polling protocol.

use vstd::prelude::*;

verus! {

pub struct Keyboard {
    pub keys: Vec<bool>,
    pub polling: bool,
    pub last_pressed: i16,
}

impl Keyboard {
    /// The latch is well formed: 16 key slots, and the latched key is either
    /// absent (negative) or a valid key index.
    pub open spec fn wf(self) -> bool {
        &&& self.keys@.len() == 16
        &&& -1 <= self.last_pressed < 16
    }

    pub fn new() -> (k: Keyboard)
        ensures
            k.wf(),
            k.keys@ =~= Seq::new(16, |i: int| false),
            !k.polling,
            k.last_pressed == -1,
    {
        let mut keys: Vec<bool> = Vec::new();
        while keys.len() < 16
            invariant
                keys@.len() <= 16,
                forall|i: int| 0 <= i < keys@.len() ==> !keys@[i],
            decreases 16 - keys@.len(),
        {
            keys.push(false);
        }
        let k = Keyboard { keys, polling: false, last_pressed: -1 };
        assert(k.keys@ =~= Seq::new(16, |i: int| false));
        k
    }

    /// Record a key state change; a press is latched as the most recent key
    /// only when no other press is already latched.
    pub fn set(&mut self, key: u8, value: bool)
        requires
            old(self).wf(),
            key < 16,
        ensures
            final(self).wf(),
            final(self).keys@ == old(self).keys@.update(key as int, value),
            final(self).polling == old(self).polling,
            final(self).last_pressed == if value && old(self).last_pressed < 0 {
                key as i16
            } else {
                old(self).last_pressed
            },
    {
        if value && self.last_pressed < 0 {
            self.last_pressed = key as i16;
        }
        self.keys.set(key as usize, value);
    }

    pub fn is_pressed(&self, key: u8) -> (r: bool)
        requires
            self.wf(),
            key < 16,
        ensures
            r == self.keys@[key as int],
    {
        self.keys[key as usize]
    }

    /// One round of the single in-flight blocking read: the first call opens a
    /// request and reports not-ready; a later call while a key is latched
    /// consumes it, closes the request, and reports ready with that key.
    pub fn poll(&mut self) -> (r: (u8, bool))
        requires
            old(self).wf(),
        ensures
            final(self).wf(),
            final(self).keys@ == old(self).keys@,
            if old(self).polling && old(self).last_pressed >= 0 {
                &&& r.1
                &&& r.0 == old(self).last_pressed
                &&& !final(self).polling
                &&& final(self).last_pressed == -1
            } else {
                &&& !r.1
                &&& r.0 == 0
                &&& final(self).polling
                &&& final(self).last_pressed == old(self).last_pressed
            },
    {
        if self.polling && self.last_pressed >= 0 {
            let key = self.last_pressed as u8;
            self.polling = false;
            self.last_pressed = -1;
            (key, true)
        } else {
            self.polling = true;
            (0, false)
        }
    }
}

} // verus!
