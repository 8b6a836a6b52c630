//! The 16-key logical keypad.  The host's input layer decides which keys
//! are held; the interpreter only reads the flags.

use vstd::prelude::*;

verus! {

/// Number of logical keys.
pub const NUM_KEYS: usize = 16;

/// Held/released state of the 16 logical keys, indexed 0x0 to 0xF.
pub struct Keypad {
    pub keys: Vec<bool>,
}

impl View for Keypad {
    type V = Seq<bool>;

    open spec fn view(&self) -> Seq<bool> {
        self.keys@
    }
}

impl Keypad {
    /// A well-formed keypad has exactly 16 flags.
    pub open spec fn wf(&self) -> bool {
        self@.len() == NUM_KEYS
    }

    /// A fresh keypad with every key released.
    pub fn new() -> (k: Keypad)
        ensures
            k.wf(),
            forall|i: int| 0 <= i < NUM_KEYS ==> !k@[i],
    {
        let mut keys: Vec<bool> = Vec::new();
        let mut i: usize = 0;
        while i < NUM_KEYS
            invariant
                i <= NUM_KEYS,
                keys@.len() == i,
                forall|q: int| 0 <= q < i ==> !keys@[q],
            decreases NUM_KEYS - i,
        {
            keys.push(false);
            i += 1;
        }
        Keypad { keys }
    }
}

} // verus!
