use tern::semantics::{SemanticsNode, SemanticsRole, SemanticsState};

#[test]
fn role_names_roundtrip_through_as_str_and_from_str() {
    let roles = [
        SemanticsRole::Button,
        SemanticsRole::Checkbox,
        SemanticsRole::Radio,
        SemanticsRole::RadioGroup,
        SemanticsRole::Switch,
        SemanticsRole::Menu,
        SemanticsRole::MenuItem,
        SemanticsRole::Listbox,
        SemanticsRole::Textbox,
        SemanticsRole::Link,
        SemanticsRole::Group,
    ];
    for role in roles {
        let name = role.as_str();
        assert_eq!(name.parse::<SemanticsRole>(), Ok(role), "{name:?}");
    }
}

#[test]
fn role_names_match_aria_strings() {
    assert_eq!(SemanticsRole::Button.as_str(), "button");
    assert_eq!(SemanticsRole::Checkbox.as_str(), "checkbox");
    assert_eq!(SemanticsRole::Radio.as_str(), "radio");
    assert_eq!(SemanticsRole::RadioGroup.as_str(), "radiogroup");
    assert_eq!(SemanticsRole::Switch.as_str(), "switch");
    assert_eq!(SemanticsRole::Menu.as_str(), "menu");
    assert_eq!(SemanticsRole::MenuItem.as_str(), "menuitem");
    assert_eq!(SemanticsRole::Listbox.as_str(), "listbox");
    assert_eq!(SemanticsRole::Textbox.as_str(), "textbox");
    assert_eq!(SemanticsRole::Link.as_str(), "link");
    assert_eq!(SemanticsRole::Group.as_str(), "group");
}

#[test]
fn unknown_and_miscased_role_names_fail_to_parse() {
    for bad in ["Button", "BUTTON", "radiogroup ", " radiogroup", "toggle", "", "menu-item"] {
        assert_eq!(bad.parse::<SemanticsRole>(), Err(()), "{bad:?} must not parse");
    }
}

#[test]
fn new_node_defaults_to_enabled_unselected_unlabelled() {
    let n = SemanticsNode::new(SemanticsRole::Checkbox);
    assert_eq!(n.role, SemanticsRole::Checkbox);
    assert_eq!(n.label, None);
    assert!(n.state.is_empty());
    assert!(n.enabled);
    assert!(!n.selected);
}

#[test]
fn node_carries_state_flags_and_label() {
    let mut n = SemanticsNode::new(SemanticsRole::Checkbox);
    n.label = Some("mute".to_string());
    n.state.insert(SemanticsState::Checked);
    n.state.insert(SemanticsState::Focused);
    n.selected = true;

    assert_eq!(n.label.as_deref(), Some("mute"));
    assert!(n.state.contains(&SemanticsState::Checked));
    assert!(n.state.contains(&SemanticsState::Focused));
    assert!(n.selected);

    assert!(n.enabled);
    n.enabled = false;
    assert!(!n.enabled);
}

#[test]
fn parse_function_agrees_with_from_str() {
    assert_eq!(SemanticsRole::parse("menuitem"), Ok(SemanticsRole::MenuItem));
    assert_eq!(SemanticsRole::parse("MenuItem"), Err(()));
}
