//! A key press, as the surfaces that take the keyboard read it.
use vstd::prelude::*;

verus! {

/// One press: the key's name, and the modifiers that decide what it means.
#[derive(Debug, Clone)]
pub struct Keystroke {
    pub key: String,
    /// The command key.
    pub platform: bool,
    pub shift: bool,
    pub control: bool,
    pub alt: bool,
}

impl Keystroke {
    /// A key without modifiers.
    pub fn plain(key: String) -> (keystroke: Self)
        ensures
            keystroke.key@ == key@,
            !keystroke.platform && !keystroke.shift && !keystroke.control && !keystroke.alt,
    {
        Keystroke { key, platform: false, shift: false, control: false, alt: false }
    }
}

/// Where Tab goes among `count` fields, around the ends.
pub open spec fn tabbed(at: int, count: int, back: bool) -> int {
    if count <= 0 {
        at
    } else if back {
        (at + count - 1) % count
    } else {
        (at + 1) % count
    }
}

/// Tab and ⇧Tab undo each other.
pub proof fn tab_and_shift_tab_undo_each_other(at: int, count: int)
    requires
        0 <= at < count,
    ensures
        tabbed(tabbed(at, count, false), count, true) == at,
        tabbed(tabbed(at, count, true), count, false) == at,
        0 <= tabbed(at, count, false) < count,
        0 <= tabbed(at, count, true) < count,
{
    let next = (at + 1) % count;
    let last = (at + count - 1) % count;
    if at + 1 < count {
        vstd::arithmetic::div_mod::lemma_small_mod((at + 1) as nat, count as nat);
        vstd::arithmetic::div_mod::lemma_mod_add_multiples_vanish(at, count);
        vstd::arithmetic::div_mod::lemma_small_mod(at as nat, count as nat);
    } else {
        vstd::arithmetic::div_mod::lemma_mod_self_0(count);
        vstd::arithmetic::div_mod::lemma_small_mod((count - 1) as nat, count as nat);
    }
    if at == 0 {
        vstd::arithmetic::div_mod::lemma_small_mod((count - 1) as nat, count as nat);
        vstd::arithmetic::div_mod::lemma_mod_self_0(count);
    } else {
        vstd::arithmetic::div_mod::lemma_mod_add_multiples_vanish(at - 1, count);
        vstd::arithmetic::div_mod::lemma_small_mod((at - 1) as nat, count as nat);
        vstd::arithmetic::div_mod::lemma_small_mod(at as nat, count as nat);
    }
}

/// Tab goes on to the next, and ⇧Tab back to the one before; past an end is the
/// other end.
pub proof fn tab_goes_to_the_next(at: int, count: int)
    requires
        0 <= at < count,
    ensures
        at + 1 < count ==> tabbed(at, count, false) == at + 1,
        at + 1 == count ==> tabbed(at, count, false) == 0,
        at > 0 ==> tabbed(at, count, true) == at - 1,
        at == 0 ==> tabbed(at, count, true) == count - 1,
{
    if at + 1 < count {
        vstd::arithmetic::div_mod::lemma_small_mod((at + 1) as nat, count as nat);
    } else {
        vstd::arithmetic::div_mod::lemma_mod_self_0(count);
    }
    if at > 0 {
        vstd::arithmetic::div_mod::lemma_mod_add_multiples_vanish(at - 1, count);
        vstd::arithmetic::div_mod::lemma_small_mod((at - 1) as nat, count as nat);
        assert(count + (at - 1) == at + count - 1);
    } else {
        vstd::arithmetic::div_mod::lemma_small_mod((count - 1) as nat, count as nat);
    }
}

} // verus!
