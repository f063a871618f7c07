//! The semantics store's data: accessibility-relevant metadata for scene
//! nodes — what each interactive node is (role) and communicates (label,
//! state, enabled, selected).

use std::collections::HashSet;

use vstd::prelude::*;

use crate::style::opt_str_view;
use crate::text::str_eq;

verus! {

/// The accessibility role of a scene node, following the WAI-ARIA role
/// vocabulary: each variant's [`as_str`](SemanticsRole::as_str) name is the
/// ARIA role string for it.
#[derive(Debug, Clone, Copy, PartialEq, Eq, Structural, Hash)]
pub enum SemanticsRole {
    /// An interactive push button.
    Button,
    /// A checkable toggle with a two-state value.
    Checkbox,
    /// A single selectable member of a radio group.
    Radio,
    /// A set of radio members of which exactly one is checked.
    RadioGroup,
    /// An on/off toggle.
    Switch,
    /// A set of menu item choices.
    Menu,
    /// A single choice inside a menu.
    MenuItem,
    /// A list of selectable options.
    Listbox,
    /// A single- or multi-line text entry field.
    Textbox,
    /// A navigation link to another location.
    Link,
    /// A generic container grouping related controls.
    Group,
}

/// The ARIA role name of a role.
pub open spec fn role_name(role: SemanticsRole) -> Seq<char> {
    match role {
        SemanticsRole::Button => "button"@,
        SemanticsRole::Checkbox => "checkbox"@,
        SemanticsRole::Radio => "radio"@,
        SemanticsRole::RadioGroup => "radiogroup"@,
        SemanticsRole::Switch => "switch"@,
        SemanticsRole::Menu => "menu"@,
        SemanticsRole::MenuItem => "menuitem"@,
        SemanticsRole::Listbox => "listbox"@,
        SemanticsRole::Textbox => "textbox"@,
        SemanticsRole::Link => "link"@,
        SemanticsRole::Group => "group"@,
    }
}

/// The role whose ARIA name is `s`, if any.
pub open spec fn role_named(s: Seq<char>) -> Option<SemanticsRole> {
    if s == "button"@ {
        Some(SemanticsRole::Button)
    } else if s == "checkbox"@ {
        Some(SemanticsRole::Checkbox)
    } else if s == "radio"@ {
        Some(SemanticsRole::Radio)
    } else if s == "radiogroup"@ {
        Some(SemanticsRole::RadioGroup)
    } else if s == "switch"@ {
        Some(SemanticsRole::Switch)
    } else if s == "menu"@ {
        Some(SemanticsRole::Menu)
    } else if s == "menuitem"@ {
        Some(SemanticsRole::MenuItem)
    } else if s == "listbox"@ {
        Some(SemanticsRole::Listbox)
    } else if s == "textbox"@ {
        Some(SemanticsRole::Textbox)
    } else if s == "link"@ {
        Some(SemanticsRole::Link)
    } else if s == "group"@ {
        Some(SemanticsRole::Group)
    } else {
        None
    }
}

impl SemanticsRole {
    /// The ARIA role name of this role (e.g. `"radiogroup"`, `"menuitem"`).
    pub fn as_str(&self) -> (s: &'static str)
        ensures
            s@ == role_name(*self),
    {
        match self {
            SemanticsRole::Button => "button",
            SemanticsRole::Checkbox => "checkbox",
            SemanticsRole::Radio => "radio",
            SemanticsRole::RadioGroup => "radiogroup",
            SemanticsRole::Switch => "switch",
            SemanticsRole::Menu => "menu",
            SemanticsRole::MenuItem => "menuitem",
            SemanticsRole::Listbox => "listbox",
            SemanticsRole::Textbox => "textbox",
            SemanticsRole::Link => "link",
            SemanticsRole::Group => "group",
        }
    }

    /// Parse an ARIA role name (as produced by [`SemanticsRole::as_str`]).
    /// Unknown or differently-cased names yield `Err(())`.
    pub fn parse(s: &str) -> (r: Result<SemanticsRole, ()>)
        ensures
            r == (match role_named(s@) {
                Some(role) => Ok(role),
                None => Err(()),
            }),
    {
        if str_eq(s, "button") {
            Ok(SemanticsRole::Button)
        } else if str_eq(s, "checkbox") {
            Ok(SemanticsRole::Checkbox)
        } else if str_eq(s, "radio") {
            Ok(SemanticsRole::Radio)
        } else if str_eq(s, "radiogroup") {
            Ok(SemanticsRole::RadioGroup)
        } else if str_eq(s, "switch") {
            Ok(SemanticsRole::Switch)
        } else if str_eq(s, "menu") {
            Ok(SemanticsRole::Menu)
        } else if str_eq(s, "menuitem") {
            Ok(SemanticsRole::MenuItem)
        } else if str_eq(s, "listbox") {
            Ok(SemanticsRole::Listbox)
        } else if str_eq(s, "textbox") {
            Ok(SemanticsRole::Textbox)
        } else if str_eq(s, "link") {
            Ok(SemanticsRole::Link)
        } else if str_eq(s, "group") {
            Ok(SemanticsRole::Group)
        } else {
            Err(())
        }
    }
}

impl std::str::FromStr for SemanticsRole {
    type Err = ();

    /// Parse an ARIA role name; see [`SemanticsRole::parse`].
    fn from_str(s: &str) -> (r: Result<Self, Self::Err>)
        ensures
            r == (match role_named(s@) {
                Some(role) => Ok(role),
                None => Err(()),
            }),
    {
        SemanticsRole::parse(s)
    }
}

/// A single semantics state flag carried by a node.
#[derive(Debug, Clone, Copy, PartialEq, Eq, Structural, Hash)]
pub enum SemanticsState {
    /// The node is checked (checkbox / radio / switch).
    Checked,
    /// The node currently has keyboard focus.
    Focused,
    /// The node's disclosure is open.
    Expanded,
    /// The node's disclosure is closed.
    Collapsed,
}

/// The accessibility semantics of a scene node: what it is (`role`) and
/// what it communicates (`label`, `state`, `enabled`, `selected`).
#[derive(Debug, PartialEq, Eq)]
pub struct SemanticsNode {
    /// What kind of control this node is.
    pub role: SemanticsRole,
    /// The node's accessible name, or `None` when it carries no label.
    pub label: Option<String>,
    /// The boolean semantics states currently active on the node.
    pub state: HashSet<SemanticsState>,
    /// Whether the control is interactive.
    pub enabled: bool,
    /// Whether the node is currently selected.
    pub selected: bool,
}

/// `HashSet::clone`: a set holding the same states.
#[verifier::external_body]
fn clone_states(s: &HashSet<SemanticsState>) -> (r: HashSet<SemanticsState>)
    ensures
        r@ == s@,
{
    s.clone()
}

impl Clone for SemanticsNode {
    fn clone(&self) -> (n: Self)
        ensures
            n.role == self.role,
            opt_str_view(n.label) == opt_str_view(self.label),
            n.state@ == self.state@,
            n.enabled == self.enabled,
            n.selected == self.selected,
    {
        SemanticsNode {
            role: self.role,
            label: crate::style::clone_opt_string(&self.label),
            state: clone_states(&self.state),
            enabled: self.enabled,
            selected: self.selected,
        }
    }
}

/// The value of a [`SemanticsNode`]: role, label, states, enabled, selected.
pub type SemanticsView = (SemanticsRole, Option<Seq<char>>, Set<SemanticsState>, bool, bool);

/// The value of a semantics node.
pub open spec fn semantics_view(n: SemanticsNode) -> SemanticsView {
    (n.role, opt_str_view(n.label), n.state@, n.enabled, n.selected)
}

/// `HashSet` equality: two state sets are equal when they hold the same
/// states.
#[verifier::external_body]
fn same_states(a: &HashSet<SemanticsState>, b: &HashSet<SemanticsState>) -> (r: bool)
    ensures
        r == (a@ == b@),
{
    a == b
}

/// Whether two semantics nodes carry the same role, label, states and
/// flags.
pub fn same_semantics(a: &SemanticsNode, b: &SemanticsNode) -> (r: bool)
    ensures
        r == (semantics_view(*a) == semantics_view(*b)),
{
    a.role == b.role && crate::style::opt_string_eq(&a.label, &b.label) && same_states(&a.state, &b.state)
        && a.enabled == b.enabled && a.selected == b.selected
}

impl SemanticsNode {
    /// A default-enabled, unselected, unlabelled node with the given role.
    pub fn new(role: SemanticsRole) -> (n: Self)
        ensures
            n.role == role,
            opt_str_view(n.label) is None,
            n.state@ == Set::<SemanticsState>::empty(),
            n.enabled,
            !n.selected,
    {
        SemanticsNode { role, label: None, state: HashSet::new(), enabled: true, selected: false }
    }
}

/// Every role's name parses back to that role: `as_str` and `parse` are
/// inverse on the role vocabulary.
pub proof fn role_names_round_trip(role: SemanticsRole)
    ensures
        role_named(role_name(role)) == Some(role),
{
    reveal_strlit("button");
    reveal_strlit("checkbox");
    reveal_strlit("radio");
    reveal_strlit("radiogroup");
    reveal_strlit("switch");
    reveal_strlit("menu");
    reveal_strlit("menuitem");
    reveal_strlit("listbox");
    reveal_strlit("textbox");
    reveal_strlit("link");
    reveal_strlit("group");
    match role {
        SemanticsRole::Button => {
        },
        SemanticsRole::Checkbox => {
            assert("checkbox"@.len() != "button"@.len());
            assert("checkbox"@ != "button"@);
        },
        SemanticsRole::Radio => {
            assert("radio"@.len() != "button"@.len());
            assert("radio"@ != "button"@);
            assert("radio"@.len() != "checkbox"@.len());
            assert("radio"@ != "checkbox"@);
        },
        SemanticsRole::RadioGroup => {
            assert("radiogroup"@.len() != "button"@.len());
            assert("radiogroup"@ != "button"@);
            assert("radiogroup"@.len() != "checkbox"@.len());
            assert("radiogroup"@ != "checkbox"@);
            assert("radiogroup"@.len() != "radio"@.len());
            assert("radiogroup"@ != "radio"@);
        },
        SemanticsRole::Switch => {
            assert("switch"@[0] != "button"@[0]);
            assert("switch"@ != "button"@);
            assert("switch"@.len() != "checkbox"@.len());
            assert("switch"@ != "checkbox"@);
            assert("switch"@.len() != "radio"@.len());
            assert("switch"@ != "radio"@);
            assert("switch"@.len() != "radiogroup"@.len());
            assert("switch"@ != "radiogroup"@);
        },
        SemanticsRole::Menu => {
            assert("menu"@.len() != "button"@.len());
            assert("menu"@ != "button"@);
            assert("menu"@.len() != "checkbox"@.len());
            assert("menu"@ != "checkbox"@);
            assert("menu"@.len() != "radio"@.len());
            assert("menu"@ != "radio"@);
            assert("menu"@.len() != "radiogroup"@.len());
            assert("menu"@ != "radiogroup"@);
            assert("menu"@.len() != "switch"@.len());
            assert("menu"@ != "switch"@);
        },
        SemanticsRole::MenuItem => {
            assert("menuitem"@.len() != "button"@.len());
            assert("menuitem"@ != "button"@);
            assert("menuitem"@[0] != "checkbox"@[0]);
            assert("menuitem"@ != "checkbox"@);
            assert("menuitem"@.len() != "radio"@.len());
            assert("menuitem"@ != "radio"@);
            assert("menuitem"@.len() != "radiogroup"@.len());
            assert("menuitem"@ != "radiogroup"@);
            assert("menuitem"@.len() != "switch"@.len());
            assert("menuitem"@ != "switch"@);
            assert("menuitem"@.len() != "menu"@.len());
            assert("menuitem"@ != "menu"@);
        },
        SemanticsRole::Listbox => {
            assert("listbox"@.len() != "button"@.len());
            assert("listbox"@ != "button"@);
            assert("listbox"@.len() != "checkbox"@.len());
            assert("listbox"@ != "checkbox"@);
            assert("listbox"@.len() != "radio"@.len());
            assert("listbox"@ != "radio"@);
            assert("listbox"@.len() != "radiogroup"@.len());
            assert("listbox"@ != "radiogroup"@);
            assert("listbox"@.len() != "switch"@.len());
            assert("listbox"@ != "switch"@);
            assert("listbox"@.len() != "menu"@.len());
            assert("listbox"@ != "menu"@);
            assert("listbox"@.len() != "menuitem"@.len());
            assert("listbox"@ != "menuitem"@);
        },
        SemanticsRole::Textbox => {
            assert("textbox"@.len() != "button"@.len());
            assert("textbox"@ != "button"@);
            assert("textbox"@.len() != "checkbox"@.len());
            assert("textbox"@ != "checkbox"@);
            assert("textbox"@.len() != "radio"@.len());
            assert("textbox"@ != "radio"@);
            assert("textbox"@.len() != "radiogroup"@.len());
            assert("textbox"@ != "radiogroup"@);
            assert("textbox"@.len() != "switch"@.len());
            assert("textbox"@ != "switch"@);
            assert("textbox"@.len() != "menu"@.len());
            assert("textbox"@ != "menu"@);
            assert("textbox"@.len() != "menuitem"@.len());
            assert("textbox"@ != "menuitem"@);
            assert("textbox"@[0] != "listbox"@[0]);
            assert("textbox"@ != "listbox"@);
        },
        SemanticsRole::Link => {
            assert("link"@.len() != "button"@.len());
            assert("link"@ != "button"@);
            assert("link"@.len() != "checkbox"@.len());
            assert("link"@ != "checkbox"@);
            assert("link"@.len() != "radio"@.len());
            assert("link"@ != "radio"@);
            assert("link"@.len() != "radiogroup"@.len());
            assert("link"@ != "radiogroup"@);
            assert("link"@.len() != "switch"@.len());
            assert("link"@ != "switch"@);
            assert("link"@[0] != "menu"@[0]);
            assert("link"@ != "menu"@);
            assert("link"@.len() != "menuitem"@.len());
            assert("link"@ != "menuitem"@);
            assert("link"@.len() != "listbox"@.len());
            assert("link"@ != "listbox"@);
            assert("link"@.len() != "textbox"@.len());
            assert("link"@ != "textbox"@);
        },
        SemanticsRole::Group => {
            assert("group"@.len() != "button"@.len());
            assert("group"@ != "button"@);
            assert("group"@.len() != "checkbox"@.len());
            assert("group"@ != "checkbox"@);
            assert("group"@[0] != "radio"@[0]);
            assert("group"@ != "radio"@);
            assert("group"@.len() != "radiogroup"@.len());
            assert("group"@ != "radiogroup"@);
            assert("group"@.len() != "switch"@.len());
            assert("group"@ != "switch"@);
            assert("group"@.len() != "menu"@.len());
            assert("group"@ != "menu"@);
            assert("group"@.len() != "menuitem"@.len());
            assert("group"@ != "menuitem"@);
            assert("group"@.len() != "listbox"@.len());
            assert("group"@ != "listbox"@);
            assert("group"@.len() != "textbox"@.len());
            assert("group"@ != "textbox"@);
            assert("group"@.len() != "link"@.len());
            assert("group"@ != "link"@);
        },
    }
}

} // verus!
