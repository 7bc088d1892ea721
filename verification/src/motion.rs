//! How long things take to appear.
//!
//! Deliberately small: a fade and a few pixels of travel, over a fraction of a
//! second, and only when something *appears* or *happens*. All times are in
//! milliseconds.
use vstd::prelude::*;

verus! {

/// Menus are the smallest surface and the most frequent: they should read as
/// "there" rather than "arriving".
pub const MENU: u64 = 120;

/// Dialogs and the palette get a touch longer, because they carry more weight.
pub const DIALOG: u64 = 170;

/// How long a wait has to last before the busy bar admits to it.
pub const BUSY_GRACE: u64 = 150;

/// How long the tab indicator takes to reach a newly chosen tab.
pub const SLIDE: u64 = 280;

/// How long a copied cell or row stays lit.
pub const COPY_FLASH: u64 = 650;

/// How long a just-staged cell stays lit.
pub const EDIT_FLASH: u64 = 700;

/// How long committed rows glow. Longest, because the reload that brings them
/// back eats into it.
pub const COMMIT_FLASH: u64 = 1200;

pub open spec fn delay_of(index: nat) -> nat {
    1 + 14 * (if index < 10 {
        index
    } else {
        10
    })
}

/// How long one of a run of rows waits before it arrives.
///
/// Each waits a beat longer than the one above it, so the run reads as pouring
/// down rather than blinking on.
pub fn cascade(index: usize) -> (delay: u64)
    ensures
        delay == delay_of(index as nat),
{
    let beats: u64 = if index < 10 {
        index as u64
    } else {
        10
    };
    1 + 14 * beats
}

/// No row arrives before the one above it, none arrives at once, and the wait
/// stops growing: a schema of four hundred tables does not take seconds.
pub proof fn a_cascade_pours_down(above: nat, below: nat)
    requires
        above <= below,
    ensures
        0 < delay_of(above) <= delay_of(below) <= 141,
{
}

/// Whether a reload icon turns. Nothing before the first press: a spin on
/// launch would announce a reload nobody asked for.
pub fn spin(presses: usize, reduce_motion: bool) -> (spins: bool)
    ensures
        spins == (presses > 0 && !reduce_motion),
{
    presses > 0 && !reduce_motion
}

/// Each row of a cascade starts a step after the one above it, up to the tenth;
/// those below start with it.
pub proof fn a_cascade_goes_step_by_step(index: nat)
    ensures
        delay_of(0) == 1,
        index < 10 ==> delay_of(index + 1) == delay_of(index) + 14,
        index >= 10 ==> delay_of(index) == 141,
{
}

} // verus!
