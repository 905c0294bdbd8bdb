//! Keyboard input: the modifier state a key press is matched with, and
//! matching key presses against the configured bindings.

pub mod bindings;

use vstd::prelude::*;

verus! {

/// Whether bit `index` of `word` is set.
pub open spec fn bit_set(word: u32, index: u32) -> bool {
    (word >> index) & 1 == 1
}

/// The modifiers held while a key is pressed.
#[derive(Clone, Copy, Debug, PartialEq, Eq, Hash, Structural)]
pub struct Mods {
    pub alt: bool,
    pub ctrl: bool,
    pub shift: bool,
    pub mod4: bool,
}

/// Whether `word` has the bit of modifier `index` set.
fn mod_held(word: u32, index: u32) -> (r: bool)
    requires
        index < 32,
    ensures
        r == bit_set(word, index),
{
    let r = (word & (1u32 << index)) != 0;
    assert(((word & (1u32 << index)) != 0) == ((word >> index) & 1 == 1)) by (bit_vector)
        requires
            index < 32,
    ;
    r
}

impl Mods {
    /// The modifiers of the depressed-modifier mask `depressed`, given the
    /// keymap's indices of the Control, Shift, Alt and Logo modifiers.
    pub fn new(depressed: u32, ctrl_index: u32, shift_index: u32, alt_index: u32, super_index: u32) -> (r: Self)
        requires
            ctrl_index < 32,
            shift_index < 32,
            alt_index < 32,
            super_index < 32,
        ensures
            r.ctrl == bit_set(depressed, ctrl_index),
            r.shift == bit_set(depressed, shift_index),
            r.alt == bit_set(depressed, alt_index),
            r.mod4 == bit_set(depressed, super_index),
    {
        let ctrl = mod_held(depressed, ctrl_index);
        let shift = mod_held(depressed, shift_index);
        let alt = mod_held(depressed, alt_index);
        let mod4 = mod_held(depressed, super_index);
        Mods { alt, ctrl, shift, mod4 }
    }
}

impl Default for Mods {
    /// No modifier held.
    fn default() -> (r: Self)
        ensures
            r == (Mods { alt: false, ctrl: false, shift: false, mod4: false }),
    {
        Mods { alt: false, ctrl: false, shift: false, mod4: false }
    }
}

/// A modifier is held exactly when its bit of the depressed mask is set:
/// setting bit `i` holds it, clearing bit `i` releases it, and other bits do
/// not matter.
pub proof fn law_mask_bits(word: u32, other: u32, i: u32)
    requires
        i < 32,
    ensures
        bit_set(word, i) <==> word & (1u32 << i) != 0,
        bit_set(word | (1u32 << i), i),
        !bit_set(word & !(1u32 << i), i),
        bit_set(word, i) == bit_set((word & (1u32 << i)) | (other & !(1u32 << i)), i),
{
    assert(((word >> i) & 1 == 1) <==> word & (1u32 << i) != 0) by (bit_vector)
        requires
            i < 32,
    ;
    assert(((word | (1u32 << i)) >> i) & 1 == 1) by (bit_vector)
        requires
            i < 32,
    ;
    assert(((word & !(1u32 << i)) >> i) & 1 != 1) by (bit_vector)
        requires
            i < 32,
    ;
    assert((((word >> i) & 1) == 1) == (((((word & (1u32 << i)) | (other & !(1u32 << i))) >> i) & 1) == 1)) by (bit_vector)
        requires
            i < 32,
    ;
}

} // verus!
