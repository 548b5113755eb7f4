//! Searching the accessibility tree.

use super::{
    Role, State, StateSet, BUTTON, CHECK_BOX, CHECK_MENU_ITEM, COMBO_BOX, DOCUMENT_FRAME,
    DOCUMENT_WEB, ENTRY, LINK, MENU, MENU_ITEM, PAGE_TAB, PASSWORD_TEXT, PUSH_BUTTON_MENU,
    RADIO_BUTTON, RADIO_MENU_ITEM, SLIDER, SPIN_BUTTON, TOGGLE_BUTTON,
};
use vstd::prelude::*;

verus! {

/// Roles of web documents.
pub open spec fn web_document_role(code: u32) -> bool {
    code == DOCUMENT_WEB || code == DOCUMENT_FRAME
}

/// Roles that can be acted on.
pub open spec fn actionable_role(code: u32) -> bool {
    ||| code == BUTTON
    ||| code == TOGGLE_BUTTON
    ||| code == PUSH_BUTTON_MENU
    ||| code == CHECK_BOX
    ||| code == RADIO_BUTTON
    ||| code == CHECK_MENU_ITEM
    ||| code == RADIO_MENU_ITEM
    ||| code == MENU_ITEM
    ||| code == MENU
    ||| code == LINK
    ||| code == PAGE_TAB
    ||| code == COMBO_BOX
    ||| code == SLIDER
    ||| code == SPIN_BUTTON
    ||| code == ENTRY
    ||| code == PASSWORD_TEXT
}

/// On-screen and enabled. Some toolkits expose `Enabled`, others `Sensitive`;
/// either is accepted.
pub open spec fn interactable(states: StateSet) -> bool {
    &&& states.has(State::Showing)
    &&& states.has(State::Visible)
    &&& states.has(State::Enabled) || states.has(State::Sensitive)
}

/// Whether the role is that of a web document.
pub fn is_web_document(role: Role) -> (r: bool)
    ensures
        r == web_document_role(role.number()),
{
    let code = role.code();
    code == DOCUMENT_WEB || code == DOCUMENT_FRAME
}

/// Whether the role can be acted on.
pub fn is_actionable_role(role: Role) -> (r: bool)
    ensures
        r == actionable_role(role.number()),
{
    let code = role.code();
    code == BUTTON || code == TOGGLE_BUTTON || code == PUSH_BUTTON_MENU || code == CHECK_BOX || code
        == RADIO_BUTTON || code == CHECK_MENU_ITEM || code == RADIO_MENU_ITEM || code == MENU_ITEM
        || code == MENU || code == LINK || code == PAGE_TAB || code == COMBO_BOX || code == SLIDER
        || code == SPIN_BUTTON || code == ENTRY || code == PASSWORD_TEXT
}

/// True if the element is currently interactable: on-screen and enabled.
pub fn is_interactable(states: &StateSet) -> (r: bool)
    ensures
        r == interactable(*states),
{
    states.contains(State::Showing) && states.contains(State::Visible) && (states.contains(
        State::Enabled,
    ) || states.contains(State::Sensitive))
}

/// True if an element with this role and state set is a hint target: an
/// actionable role that is currently interactable.
pub fn is_actionable(role: Role, states: &StateSet) -> (r: bool)
    ensures
        r == (actionable_role(role.number()) && interactable(*states)),
{
    is_actionable_role(role) && is_interactable(states)
}

} // verus!
