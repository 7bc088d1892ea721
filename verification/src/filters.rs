//! Filter strip: one freeform WHERE input for table tabs.
use crate::controls::{form_button_is, FormButton};
use crate::text_field::{Focus, FocusState};
use vstd::prelude::*;

verus! {

#[derive(Debug, Clone, Copy, PartialEq, Eq, Structural)]
pub enum FilterFocus {
    Where,
    Apply,
    Clear,
}

/// What the strip reads of the front tab, where that is a table.
#[derive(Debug)]
pub struct FilterTab {
    pub filters_open: bool,
    pub where_draft: String,
}

#[derive(Debug)]
pub struct FilterStrip {
    pub caption: String,
    pub where_text: String,
    /// What the field says while it is empty.
    pub where_placeholder: String,
    pub where_focused: bool,
    pub apply: FormButton,
    pub clear: FormButton,
}

/// A click on Apply or Clear: the button has the keyboard.
pub fn filter_button_pressed(focus: &mut FocusState, button: FilterFocus)
    ensures
        *final(focus) == (FocusState {
            focus: Focus::Filter,
            filter_focus: Some(button),
            ..*old(focus)
        }),
{
    focus.filter_focus = Some(button);
    focus.focus = Focus::Filter;
}

/// The strip, on a table tab that has it open. A part of it has the keyboard
/// only while the strip as a whole does.
pub fn render_filter_strip(
    tab: &Option<FilterTab>,
    keyboard_here: bool,
    focus: Option<FilterFocus>,
) -> (strip: Option<FilterStrip>)
    ensures
        match strip {
            Some(strip) => {
                &&& *tab is Some
                &&& tab.unwrap().filters_open
                &&& strip.caption@ == "WHERE"@
                &&& strip.where_text@ == tab.unwrap().where_draft@
                &&& strip.where_placeholder@ == "id = 1 AND …"@
                &&& strip.where_focused == (keyboard_here && focus == Some(FilterFocus::Where))
                &&& form_button_is(
                    strip.apply,
                    "Apply"@,
                    keyboard_here && focus == Some(FilterFocus::Apply),
                )
                &&& form_button_is(
                    strip.clear,
                    "Clear"@,
                    keyboard_here && focus == Some(FilterFocus::Clear),
                )
            },
            None => *tab is None || !tab.unwrap().filters_open,
        },
{
    match tab {
        Some(tab) => {
            if !tab.filters_open {
                return None;
            }
            let mut where_focused = false;
            let mut apply_focused = false;
            let mut clear_focused = false;
            if keyboard_here {
                match focus {
                    Some(FilterFocus::Where) => where_focused = true,
                    Some(FilterFocus::Apply) => apply_focused = true,
                    Some(FilterFocus::Clear) => clear_focused = true,
                    None => {},
                }
            }
            Some(
                FilterStrip {
                    caption: "WHERE".to_string(),
                    where_text: tab.where_draft.as_str().to_string(),
                    where_placeholder: "id = 1 AND …".to_string(),
                    where_focused,
                    apply: FormButton { label: "Apply".to_string(), focused: apply_focused },
                    clear: FormButton { label: "Clear".to_string(), focused: clear_focused },
                },
            )
        },
        None => None,
    }
}

} // verus!
