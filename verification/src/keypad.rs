//! The 16-key input state read by the interpreter.
//!
//! Key indices run from 0x0 to 0xF.  An outside event loop reports presses
//! and releases through `press`; the interpreter only ever reads the state.

use vstd::prelude::*;

verus! {

/// The key state with every key up.
pub open spec fn blank_keys() -> Seq<bool> {
    Seq::new(16, |j: int| false)
}

/// The lowest pressed key at or above index `j`, if any.
pub open spec fn first_pressed_from(keys: Seq<bool>, j: int) -> Option<u8>
    decreases 16 - j,
{
    if j < 0 || j >= 16 {
        None
    } else if keys[j] {
        Some(j as u8)
    } else {
        first_pressed_from(keys, j + 1)
    }
}

/// The lowest pressed key, if any key is down at all.
pub open spec fn first_pressed(keys: Seq<bool>) -> Option<u8> {
    first_pressed_from(keys, 0)
}

pub struct Keypad {
    keys: Vec<bool>,
}

impl View for Keypad {
    type V = Seq<bool>;

    closed spec fn view(&self) -> Seq<bool> {
        self.keys@
    }
}

impl Keypad {
    pub open spec fn wf(&self) -> bool {
        self@.len() == 16
    }

    pub fn new() -> (k: Keypad)
        ensures
            k.wf(),
            k@ == blank_keys(),
    {
        let mut keys: Vec<bool> = Vec::new();
        let mut j: usize = 0;
        while j < 16
            invariant
                j <= 16,
                keys@.len() == j,
                forall|m: int| 0 <= m < j ==> !keys@[m],
            decreases 16 - j,
        {
            keys.push(false);
            j = j + 1;
        }
        proof {
            assert(keys@ =~= blank_keys());
        }
        Keypad { keys }
    }

    pub fn is_pressed(&mut self, key: usize) -> (r: bool)
        requires
            old(self).wf(),
            key < 16,
        ensures
            final(self).wf(),
            final(self)@ == old(self)@,
            r == old(self)@[key as int],
    {
        self.keys[key]
    }

    pub fn press(&mut self, key: usize, state: bool)
        requires
            old(self).wf(),
            key < 16,
        ensures
            final(self).wf(),
            final(self)@ == old(self)@.update(key as int, state),
    {
        self.keys.set(key, state);
    }

    /// A non-blocking poll: the lowest key currently down, or `None`.
    /// The interpreter re-executes its wait-for-key instruction until a
    /// key arrives, so the driver is never stalled.
    pub fn wait_for_keypress(&mut self) -> (r: Option<u8>)
        requires
            old(self).wf(),
        ensures
            final(self).wf(),
            final(self)@ == old(self)@,
            r == first_pressed(old(self)@),
    {
        let mut j: usize = 0;
        while j < 16
            invariant
                self.wf(),
                self@ == old(self)@,
                j <= 16,
                first_pressed(self@) == first_pressed_from(self@, j as int),
            decreases 16 - j,
        {
            if self.keys[j] {
                return Some(j as u8);
            }
            j = j + 1;
        }
        None
    }
}

} // verus!
