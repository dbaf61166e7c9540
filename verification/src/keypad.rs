//! The sixteen-key keypad as the machine sees it.

use vstd::prelude::*;

verus! {

/// How many logical keys there are: 0x0 to 0xF.
pub const KEY_COUNT: usize = 16;

/// The lowest key at or above `from` that is held, if any.
pub open spec fn first_held_from(keys: Seq<bool>, from: int) -> Option<u8>
    decreases KEY_COUNT - from,
{
    if from < 0 || from >= KEY_COUNT {
        None
    } else if keys[from] {
        Some(from as u8)
    } else {
        first_held_from(keys, from + 1)
    }
}

/// The lowest key that is held, if any.
pub open spec fn first_held(keys: Seq<bool>) -> Option<u8> {
    first_held_from(keys, 0)
}

/// Whether the key that a register value names is held. Only the low nibble
/// of the value counts.
pub open spec fn key_held(keys: Seq<bool>, value: u8) -> bool {
    keys[(value % 16) as int]
}

/// `first_held` names a held key below which none is held, and names none
/// only if no key is held.
pub proof fn lemma_first_held(keys: Seq<bool>)
    requires
        keys.len() == KEY_COUNT,
    ensures
        match first_held(keys) {
            Some(k) => k < KEY_COUNT && keys[k as int] && forall|j: int| 0 <= j < k ==> !keys[j],
            None => forall|j: int| 0 <= j < KEY_COUNT ==> !keys[j],
        },
{
    lemma_first_held_from(keys, 0);
}

proof fn lemma_first_held_from(keys: Seq<bool>, from: int)
    requires
        keys.len() == KEY_COUNT,
        0 <= from <= KEY_COUNT,
    ensures
        match first_held_from(keys, from) {
            Some(k) => from <= k < KEY_COUNT && keys[k as int] && forall|j: int|
                from <= j < k ==> !keys[j],
            None => forall|j: int| from <= j < KEY_COUNT ==> !keys[j],
        },
    decreases KEY_COUNT - from,
{
    if from < KEY_COUNT && !keys[from] {
        lemma_first_held_from(keys, from + 1);
    }
}

/// Which of the sixteen logical keys are held down.
#[derive(Debug)]
pub struct Keypad {
    held: [bool; 16],
}

impl Keypad {
    /// For each key, in order, whether it is held.
    pub closed spec fn view(&self) -> Seq<bool> {
        self.held@
    }

    /// The view always has one entry per key.
    pub proof fn lemma_view_len(&self)
        ensures
            self@.len() == KEY_COUNT,
    {
    }

    /// A keypad with no key held.
    pub fn new() -> (pad: Keypad)
        ensures
            pad@ == Seq::new(KEY_COUNT as nat, |k: int| false),
    {
        let pad = Keypad { held: [false; 16] };
        assert(pad@ =~= Seq::new(KEY_COUNT as nat, |k: int| false));
        pad
    }

    /// Records that `key` went down or up. A value above 0xF names no key and
    /// changes nothing.
    pub fn set(&mut self, key: u8, down: bool)
        ensures
            key < KEY_COUNT ==> final(self)@ == old(self)@.update(key as int, down),
            key >= KEY_COUNT ==> final(self)@ == old(self)@,
    {
        if (key as usize) < KEY_COUNT {
            self.held[key as usize] = down;
        }
    }

    /// Whether the key that `value` names is held. Only the low nibble of
    /// `value` counts.
    pub fn is_held(&self, value: u8) -> (held: bool)
        ensures
            held == key_held(self@, value),
    {
        self.held[(value % 16) as usize]
    }

    /// The lowest key that is held, if any.
    pub fn first_held(&self) -> (key: Option<u8>)
        ensures
            key == first_held(self@),
    {
        let mut k: u8 = 0;
        while k < 16
            invariant
                k <= 16,
                first_held(self@) == first_held_from(self@, k as int),
            decreases 16 - k,
        {
            if self.held[k as usize] {
                return Some(k);
            }
            k = k + 1;
        }
        None
    }
}

} // verus!
