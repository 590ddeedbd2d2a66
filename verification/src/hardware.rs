//! The host-visible hardware the machine draws on and reads keys from: a
//! monochrome 64x32 pixel buffer and the pressed/released state of the key
//! pad.

use vstd::prelude::*;

verus! {

/// Width of the screen in pixels.
pub const SCREEN_WIDTH: usize = 64;

/// Height of the screen in pixels.
pub const SCREEN_HEIGHT: usize = 32;

/// Number of pixels; the buffer is stored row-major, pixel `(x, y)` at index
/// `y * SCREEN_WIDTH + x`.
pub const SCREEN_PIXELS: usize = 2048;

/// Number of key slots: sixteen logical keys plus one slot that absorbs any
/// other key the host reports.
pub const KEY_COUNT: usize = 17;

/// The mathematical state of the hardware.
pub ghost struct HardwareState {
    pub gfx: Seq<u8>,
    pub keys: Seq<bool>,
}

impl HardwareState {
    /// Structural well-formedness: buffer and key pad have their fixed sizes.
    pub open spec fn wf(self) -> bool {
        &&& self.gfx.len() == SCREEN_PIXELS
        &&& self.keys.len() == KEY_COUNT
    }
}

/// The pixel buffer (row-major, one byte per pixel, zero dark and one lit)
/// and the key pad state.
pub struct Hardware {
    pub gfx: Vec<u8>,
    pub keys: Vec<bool>,
}

impl View for Hardware {
    type V = HardwareState;

    open spec fn view(&self) -> HardwareState {
        HardwareState { gfx: self.gfx@, keys: self.keys@ }
    }
}

impl Hardware {
    /// Dark screen, no key pressed.
    pub fn new() -> (r: Hardware)
        ensures
            r@.gfx == Seq::new(SCREEN_PIXELS as nat, |j: int| 0u8),
            r@.keys == Seq::new(KEY_COUNT as nat, |j: int| false),
            r@.wf(),
    {
        let mut gfx: Vec<u8> = Vec::new();
        let mut k: usize = 0;
        while k < SCREEN_PIXELS
            invariant
                k <= SCREEN_PIXELS,
                gfx@ == Seq::new(k as nat, |j: int| 0u8),
            decreases SCREEN_PIXELS - k,
        {
            gfx.push(0u8);
            k = k + 1;
            proof {
                assert(gfx@ =~= Seq::new(k as nat, |j: int| 0u8));
            }
        }
        let mut keys: Vec<bool> = Vec::new();
        let mut k: usize = 0;
        while k < KEY_COUNT
            invariant
                k <= KEY_COUNT,
                keys@ == Seq::new(k as nat, |j: int| false),
            decreases KEY_COUNT - k,
        {
            keys.push(false);
            k = k + 1;
            proof {
                assert(keys@ =~= Seq::new(k as nat, |j: int| false));
            }
        }
        Hardware { gfx, keys }
    }

    /// Record that the key in the given slot went down.
    pub fn press(&mut self, key: usize)
        requires
            old(self)@.wf(),
            key < KEY_COUNT,
        ensures
            final(self)@ == (HardwareState {
                keys: old(self)@.keys.update(key as int, true),
                ..old(self)@
            }),
    {
        self.keys[key] = true;
    }

    /// Record that the key in the given slot came back up.
    pub fn release(&mut self, key: usize)
        requires
            old(self)@.wf(),
            key < KEY_COUNT,
        ensures
            final(self)@ == (HardwareState {
                keys: old(self)@.keys.update(key as int, false),
                ..old(self)@
            }),
    {
        self.keys[key] = false;
    }

    /// Darken every pixel; the key pad is untouched.
    pub fn clear(&mut self)
        requires
            old(self)@.wf(),
        ensures
            final(self)@ == (HardwareState {
                gfx: Seq::new(SCREEN_PIXELS as nat, |j: int| 0u8),
                ..old(self)@
            }),
    {
        let mut k: usize = 0;
        while k < SCREEN_PIXELS
            invariant
                old(self)@.wf(),
                k <= SCREEN_PIXELS,
                self@.keys == old(self)@.keys,
                self@.gfx.len() == SCREEN_PIXELS,
                forall|j: int| 0 <= j < k ==> self@.gfx[j] == 0u8,
                forall|j: int| k <= j < SCREEN_PIXELS ==> self@.gfx[j] == old(self)@.gfx[j],
            decreases SCREEN_PIXELS - k,
        {
            self.gfx[k] = 0;
            k = k + 1;
        }
        proof {
            assert(self@.gfx =~= Seq::new(SCREEN_PIXELS as nat, |j: int| 0u8));
        }
    }
}

} // verus!
