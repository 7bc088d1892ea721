//! The controls every surface is built of: which colour each state of a button
//! takes.
use crate::domain::Tone;
use vstd::prelude::*;

verus! {

/// How a button is coloured.
#[derive(Debug, Clone, Copy, PartialEq, Eq, Structural)]
pub struct ButtonLook {
    /// Filled with the accent: the one action a surface exists to perform.
    pub filled: bool,
    pub text: Tone,
    pub ring: Tone,
}

/// A button that Tab reaches.
#[derive(Debug)]
pub struct FormButton {
    pub label: String,
    /// It has the keyboard.
    pub focused: bool,
}

pub open spec fn form_button_is(button: FormButton, label: Seq<char>, focused: bool) -> bool {
    button.label@ == label && button.focused == focused
}

/// A box that is ticked or not, and its label.
#[derive(Debug)]
pub struct CheckBox {
    pub label: String,
    pub on: bool,
}

pub open spec fn check_box_is(check: CheckBox, label: Seq<char>, on: bool) -> bool {
    check.label@ == label && check.on == on
}

/// An arrow to another page.
#[derive(Debug)]
pub struct PageArrow {
    pub glyph: String,
    /// It leads nowhere.
    pub disabled: bool,
}

pub open spec fn arrow_is(arrow: PageArrow, glyph: Seq<char>, disabled: bool) -> bool {
    arrow.glyph@ == glyph && arrow.disabled == disabled
}

/// A button, with a visible focus ring for keyboard Tab cycles. The ring of a
/// filled button cannot be the accent it is filled with.
pub fn button_with_focus(primary: bool, focused: bool) -> (look: ButtonLook)
    ensures
        look.filled == primary,
        look.text == (if primary {
            Tone::OnAccent
        } else {
            Tone::Text
        }),
        look.ring == (if primary && focused {
            Tone::OnAccent
        } else if primary || focused {
            Tone::Accent
        } else {
            Tone::Border
        }),
{
    if primary {
        let ring = if focused {
            Tone::OnAccent
        } else {
            Tone::Accent
        };
        ButtonLook { filled: true, text: Tone::OnAccent, ring }
    } else {
        let ring = if focused {
            Tone::Accent
        } else {
            Tone::Border
        };
        ButtonLook { filled: false, text: Tone::Text, ring }
    }
}

/// A button without the keyboard.
pub fn button(primary: bool) -> (look: ButtonLook)
    ensures
        look.filled == primary,
        look.text == (if primary {
            Tone::OnAccent
        } else {
            Tone::Text
        }),
        look.ring == (if primary {
            Tone::Accent
        } else {
            Tone::Border
        }),
{
    button_with_focus(primary, false)
}

/// A toolbar control: filled with the accent while it is the mode you are in.
pub fn toolbar_button(active: bool) -> (look: ButtonLook)
    ensures
        look.filled == active,
        look.text == (if active {
            Tone::OnAccent
        } else {
            Tone::Muted
        }),
        look.ring == (if active {
            Tone::Accent
        } else {
            Tone::Border
        }),
{
    if active {
        ButtonLook { filled: true, text: Tone::OnAccent, ring: Tone::Accent }
    } else {
        ButtonLook { filled: false, text: Tone::Muted, ring: Tone::Border }
    }
}

/// The colour an icon inside a toolbar control is drawn in: an icon left the
/// wrong colour on a filled button is invisible rather than merely wrong.
pub fn toolbar_icon_color(active: bool) -> (tone: Tone)
    ensures
        tone == (if active {
            Tone::OnAccent
        } else {
            Tone::Muted
        }),
{
    if active {
        Tone::OnAccent
    } else {
        Tone::Muted
    }
}

/// The glyph of a square ghost button: lit while it is latched, quiet
/// otherwise, and faint where pressing it would do nothing.
pub fn icon_button(active: bool, disabled: bool) -> (tone: Tone)
    ensures
        tone == (if disabled {
            Tone::Faint
        } else if active {
            Tone::Text
        } else {
            Tone::Muted
        }),
{
    if disabled {
        Tone::Faint
    } else if active {
        Tone::Text
    } else {
        Tone::Muted
    }
}

/// A control is drawn with the label it was given, in the state it is in.
pub proof fn a_control_is_drawn_as_it_is(
    button: FormButton,
    check: CheckBox,
    arrow: PageArrow,
    label: Seq<char>,
    state: bool,
)
    ensures
        form_button_is(button, label, state) <==> button.label@ == label && button.focused == state,
        check_box_is(check, label, state) <==> check.label@ == label && check.on == state,
        arrow_is(arrow, label, state) <==> arrow.glyph@ == label && arrow.disabled == state,
{
}

} // verus!
