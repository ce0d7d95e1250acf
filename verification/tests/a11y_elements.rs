use vaak_core::a11y::element::{
    element_from_ax, element_from_uia, finish_element, may_descend, may_read_sibling, ExpandState, ToggleState,
};
use vaak_core::a11y::{ElementState, NormalizedElement, NormalizedRole, Rect};

#[test]
fn ax_name_falls_back_to_description() {
    let e = element_from_ax(3, 1, "", "Close", "AXButton", "", None, None, None, None, None, None, "", "");
    assert_eq!(e.id, 3);
    assert_eq!(e.depth, 1);
    assert_eq!(e.name, "Close");
    assert_eq!(e.role, NormalizedRole::Button);
    let t = element_from_ax(4, 0, "Save", "ignored", "AXButton", "", None, None, None, None, None, None, "", "");
    assert_eq!(t.name, "Save");
}

#[test]
fn ax_subrole_first_then_role() {
    let e = element_from_ax(1, 0, "", "", "AXButton", "AXCloseButton", None, None, None, None, None, None, "", "");
    assert_eq!(e.role, NormalizedRole::Button);
    let e = element_from_ax(1, 0, "", "", "AXTextField", "AXSecureTextField", None, None, None, None, None, None, "", "");
    assert_eq!(e.role, NormalizedRole::TextInput);
    let e = element_from_ax(1, 0, "", "", "AXCheckBox", "AXSwitch", None, None, None, None, None, None, "", "");
    assert_eq!(e.role, NormalizedRole::Checkbox);
    let e = element_from_ax(1, 0, "", "", "AXWhatever", "AXOther", None, None, None, None, None, None, "", "");
    assert_eq!(e.role, NormalizedRole::Unknown("AXWhatever".to_string()));
}

#[test]
fn ax_states_in_order() {
    let e = element_from_ax(1, 0, "x", "", "AXRow", "", None, None, Some(false), Some(true), Some(true), Some(false), "", "");
    assert_eq!(
        e.states,
        vec![ElementState::Disabled, ElementState::Focused, ElementState::Selected, ElementState::Collapsed]
    );
    let e = element_from_ax(1, 0, "x", "", "AXRow", "", None, None, Some(true), Some(false), None, Some(true), "", "");
    assert_eq!(e.states, vec![ElementState::Expanded]);
}

#[test]
fn ax_shortcut_text() {
    let e = element_from_ax(1, 0, "Open", "", "AXMenuItem", "", None, None, None, None, None, None, "O", "Shift");
    assert_eq!(e.shortcut.as_deref(), Some("Shift+O"));
    let e = element_from_ax(1, 0, "Open", "", "AXMenuItem", "", None, None, None, None, None, None, "O", "");
    assert_eq!(e.shortcut.as_deref(), Some("Cmd+O"));
    let e = element_from_ax(1, 0, "Open", "", "AXMenuItem", "", None, None, None, None, None, None, "", "Shift");
    assert_eq!(e.shortcut, None);
}

#[test]
fn ax_value_and_bounds_kept() {
    let r = Rect { x: 5, y: 6, width: 7, height: 8 };
    let e = element_from_ax(1, 0, "f", "", "AXTextField", "", Some("abc".to_string()), Some(r), None, None, None, None, "", "");
    assert_eq!(e.value.as_deref(), Some("abc"));
    let b = e.bounds.unwrap();
    assert_eq!((b.x, b.y, b.width, b.height), (5, 6, 7, 8));
    assert_eq!(e.children_count, 0);
    assert!(e.children.is_empty());
}

#[test]
fn uia_bounds_need_positive_size() {
    let e = element_from_uia(1, 0, "b", 50000, None, Some((10, 20, 110, 70)), None, None, None, None, None, None, "", "");
    let b = e.bounds.unwrap();
    assert_eq!((b.x, b.y, b.width, b.height), (10, 20, 100, 50));
    let e = element_from_uia(1, 0, "b", 50000, None, Some((10, 20, 10, 70)), None, None, None, None, None, None, "", "");
    assert!(e.bounds.is_none());
    let e = element_from_uia(1, 0, "b", 50000, None, None, None, None, None, None, None, None, "", "");
    assert!(e.bounds.is_none());
    assert_eq!(e.role, NormalizedRole::Button);
}

#[test]
fn uia_states_and_shortcut() {
    let e = element_from_uia(
        2,
        3,
        "n",
        50002,
        None,
        None,
        Some(false),
        Some(true),
        Some(ExpandState::Expanded),
        Some(ToggleState::Indeterminate),
        Some(true),
        Some(true),
        "",
        "Alt+N",
    );
    assert_eq!(
        e.states,
        vec![
            ElementState::Disabled,
            ElementState::Offscreen,
            ElementState::Expanded,
            ElementState::Indeterminate,
            ElementState::Selected,
            ElementState::ReadOnly
        ]
    );
    assert_eq!(e.shortcut.as_deref(), Some("Alt+N"));
    assert_eq!(e.role, NormalizedRole::Checkbox);
    let e = element_from_uia(1, 0, "n", 1, None, None, None, None, Some(ExpandState::Other), Some(ToggleState::Off), None, None, "Ctrl+S", "S");
    assert_eq!(e.states, vec![ElementState::Unchecked]);
    assert_eq!(e.shortcut.as_deref(), Some("Ctrl+S"));
    assert_eq!(e.role, NormalizedRole::Unknown("UIA_1".to_string()));
}

#[test]
fn walk_limits() {
    assert!(may_descend(0, 0));
    assert!(may_descend(7, 499));
    assert!(!may_descend(8, 0));
    assert!(!may_descend(0, 500));
    assert!(may_read_sibling(499));
    assert!(!may_read_sibling(500));
}

fn bare(id: u64) -> NormalizedElement {
    element_from_ax(id, 0, "", "", "AXGroup", "", None, None, None, None, None, None, "", "")
}

#[test]
fn bare_leaves_are_pruned() {
    let mut count = 0usize;
    let mut level = Vec::new();
    finish_element(bare(1), Vec::new(), &mut count, &mut level);
    assert_eq!(count, 0);
    assert!(level.is_empty());
    let child = element_from_ax(3, 1, "OK", "", "AXButton", "", None, None, None, None, None, None, "", "");
    finish_element(bare(2), vec![child], &mut count, &mut level);
    assert_eq!(count, 1);
    assert_eq!(level.len(), 1);
    assert_eq!(level[0].id, 2);
    assert_eq!(level[0].children_count, 1);
    assert_eq!(level[0].children[0].name, "OK");
    let named = element_from_ax(4, 0, "Title", "", "AXStaticText", "", None, None, None, None, None, None, "", "");
    finish_element(named, Vec::new(), &mut count, &mut level);
    assert_eq!(count, 2);
    assert_eq!(level.len(), 2);
}
