//! Accessible elements: what is known of each, which of them are targets, and
//! how the tree that holds them is searched.

pub mod action;
pub mod frame;
pub mod laws;
pub mod tree;
pub mod walk;

use vstd::prelude::*;

verus! {

/// The largest number that stands for a role.
pub const MAX_ROLE: u32 = 129;

/// Numbers of the roles that decisions depend on.
pub const INVALID: u32 = 0;
pub const CHECK_BOX: u32 = 7;
pub const CHECK_MENU_ITEM: u32 = 8;
pub const COMBO_BOX: u32 = 11;
pub const MENU: u32 = 33;
pub const MENU_ITEM: u32 = 35;
pub const PAGE_TAB: u32 = 37;
pub const PASSWORD_TEXT: u32 = 40;
pub const BUTTON: u32 = 43;
pub const RADIO_BUTTON: u32 = 44;
pub const RADIO_MENU_ITEM: u32 = 45;
pub const SLIDER: u32 = 51;
pub const SPIN_BUTTON: u32 = 52;
pub const TOGGLE_BUTTON: u32 = 62;
pub const ENTRY: u32 = 79;
pub const DOCUMENT_FRAME: u32 = 82;
pub const LINK: u32 = 88;
pub const DOCUMENT_WEB: u32 = 95;
pub const PUSH_BUTTON_MENU: u32 = 129;

/// An accessible role, by its AT-SPI number.
#[derive(Debug, Clone, Copy, PartialEq, Eq, Structural)]
pub struct Role {
    code: u32,
}

/// The name of the role with number `code`, such as `Button`: the `Debug`
/// format of `atspi::Role`.
pub uninterp spec fn role_name(code: u32) -> Seq<char>;

/// The `Debug` format of the `atspi::Role` that `atspi::Role::try_from` gives
/// for a number. That conversion knows the numbers up to [`MAX_ROLE`] and
/// returns an error for the others. Of the text no more is said than that the
/// number determines it.
#[verifier::external_body]
fn debug_role(code: u32) -> (r: String)
    requires
        code <= MAX_ROLE,
    ensures
        r@ == role_name(code),
{
    format!("{:?}", ::atspi::Role::try_from(code).expect("a role number"))
}

impl Role {
    #[verifier::type_invariant]
    spec fn known(self) -> bool {
        self.code <= MAX_ROLE
    }

    /// The role's number.
    pub closed spec fn number(self) -> u32 {
        self.code
    }

    /// The role with the given number, if there is one.
    pub fn from_code(code: u32) -> (r: Option<Role>)
        ensures
            r is Some <==> code <= MAX_ROLE,
            r matches Some(role) ==> role.number() == code,
    {
        if code <= MAX_ROLE {
            Some(Role { code })
        } else {
            None
        }
    }

    /// The role of an object that does not report one.
    pub closed spec fn none() -> Role {
        Role { code: INVALID }
    }

    /// The role of an object that does not report one.
    pub fn invalid() -> (r: Role)
        ensures
            r == Role::none(),
            r.number() == INVALID,
    {
        Role { code: INVALID }
    }

    /// The role's number.
    pub fn code(self) -> (r: u32)
        ensures
            r == self.number(),
            r <= MAX_ROLE,
    {
        proof {
            use_type_invariant(&self);
        }
        self.code
    }

    /// The role's name.
    pub fn name(self) -> (r: String)
        ensures
            r@ == role_name(self.number()),
    {
        proof {
            use_type_invariant(&self);
        }
        debug_role(self.code)
    }
}

/// The states that decisions depend on.
#[derive(Debug, Clone, Copy, PartialEq, Eq, Structural)]
pub enum State {
    Active,
    Enabled,
    Sensitive,
    Showing,
    Visible,
}

impl State {
    /// The bit that stands for the state in a set.
    pub open spec fn mask(self) -> u64 {
        match self {
            State::Active => 0x2,
            State::Enabled => 0x100,
            State::Sensitive => 0x100_0000,
            State::Showing => 0x200_0000,
            State::Visible => 0x4000_0000,
        }
    }

    /// The bit that stands for the state in a set.
    pub fn bit(self) -> (r: u64)
        ensures
            r == self.mask(),
    {
        match self {
            State::Active => 0x2,
            State::Enabled => 0x100,
            State::Sensitive => 0x100_0000,
            State::Showing => 0x200_0000,
            State::Visible => 0x4000_0000,
        }
    }
}

/// A set of states, one bit each.
#[derive(Debug, Clone, Copy, PartialEq, Eq, Structural)]
pub struct StateSet {
    pub bits: u64,
}

impl StateSet {
    /// The state is in the set.
    pub open spec fn has(self, state: State) -> bool {
        self.bits & state.mask() != 0
    }

    /// Whether the state is in the set.
    pub fn contains(&self, state: State) -> (r: bool)
        ensures
            r == self.has(state),
    {
        self.bits & state.bit() != 0
    }
}

/// A reference to an accessible object: the bus name of its application, if
/// it has one, and its path there.
#[derive(Debug, PartialEq, Eq)]
pub struct ObjectRef {
    pub name: Option<String>,
    pub path: String,
}

impl Clone for ObjectRef {
    fn clone(&self) -> (r: ObjectRef)
        ensures
            r == *self,
    {
        let name = match &self.name {
            Some(name) => Some(name.clone()),
            None => None,
        };
        ObjectRef { name, path: self.path.clone() }
    }
}

/// One UI element discovered in the active application's subtree.
#[derive(Debug, PartialEq, Eq)]
pub struct Element {
    /// AT-SPI object reference (bus name + object path).
    pub object: ObjectRef,
    /// Accessible role (button, link, menu item, ...).
    pub role: Role,
    /// Accessible name (label text).
    pub name: String,
    /// Accessible state set (showing, visible, enabled, ...).
    pub states: StateSet,
}

/// What an element holds, with its name as a text.
pub struct ElementView {
    pub object: ObjectRef,
    pub role: Role,
    pub name: Seq<char>,
    pub states: StateSet,
}

impl View for Element {
    type V = ElementView;

    open spec fn view(&self) -> ElementView {
        ElementView {
            object: self.object,
            role: self.role,
            name: self.name@,
            states: self.states,
        }
    }
}

impl Clone for Element {
    fn clone(&self) -> (r: Element)
        ensures
            r == *self,
    {
        Element {
            object: self.object.clone(),
            role: self.role,
            name: self.name.clone(),
            states: self.states,
        }
    }
}

/// An object that reports no role has the first number.
pub proof fn lemma_no_role()
    ensures
        Role::none().number() == 0,
{
}

} // verus!
