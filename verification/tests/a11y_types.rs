use vaak_core::a11y::{
    ax_role_to_normalized, format_tree_for_prompt, uia_control_type_to_role, ElementState,
    NormalizedElement, NormalizedRole, NormalizedTree, Rect,
};

#[test]
fn test_uia_mapping_coverage_all_41_types() {
    // All documented UIA control type IDs (50000–50040 inclusive)
    for id in 50000..=50040 {
        let role = uia_control_type_to_role(id);
        assert!(
            !matches!(role, NormalizedRole::Unknown(_)),
            "UIA control type {} should have an explicit mapping, got Unknown",
            id
        );
    }
}

#[test]
fn test_uia_unknown_for_invalid_ids() {
    let role = uia_control_type_to_role(99999);
    assert!(matches!(role, NormalizedRole::Unknown(_)));
    if let NormalizedRole::Unknown(s) = role {
        assert_eq!(s, "UIA_99999");
    }
}

#[test]
fn test_ax_mapping_core_roles() {
    // Verify the most common macOS AX roles map correctly
    let mappings = vec![
        ("AXWindow", NormalizedRole::Window),
        ("AXButton", NormalizedRole::Button),
        ("AXTextField", NormalizedRole::TextInput),
        ("AXTextArea", NormalizedRole::TextArea),
        ("AXCheckBox", NormalizedRole::Checkbox),
        ("AXRadioButton", NormalizedRole::RadioButton),
        ("AXPopUpButton", NormalizedRole::ComboBox),
        ("AXComboBox", NormalizedRole::ComboBox),
        ("AXSlider", NormalizedRole::Slider),
        ("AXList", NormalizedRole::List),
        ("AXOutline", NormalizedRole::TreeView),
        ("AXTable", NormalizedRole::Table),
        ("AXTabGroup", NormalizedRole::Tab),
        ("AXMenu", NormalizedRole::Menu),
        ("AXMenuItem", NormalizedRole::MenuItem),
        ("AXLink", NormalizedRole::Link),
        ("AXStaticText", NormalizedRole::Text),
        ("AXHeading", NormalizedRole::Heading),
        ("AXImage", NormalizedRole::Image),
        ("AXWebArea", NormalizedRole::Document),
        ("AXProgressIndicator", NormalizedRole::ProgressBar),
        ("AXScrollBar", NormalizedRole::ScrollBar),
        ("AXToolbar", NormalizedRole::Toolbar),
        ("AXStatusBar", NormalizedRole::StatusBar),
        ("AXMenuBar", NormalizedRole::MenuBar),
        ("AXSheet", NormalizedRole::Dialog),
        ("AXDialog", NormalizedRole::Dialog),
        ("AXGroup", NormalizedRole::Group),
        ("AXDisclosureTriangle", NormalizedRole::Button),
        ("AXSearchField", NormalizedRole::TextInput),
        ("AXSecureTextField", NormalizedRole::TextInput),
        ("AXIncrementor", NormalizedRole::Spinner),
    ];

    for (ax_role, expected) in mappings {
        let result = ax_role_to_normalized(ax_role);
        assert_eq!(
            result, expected,
            "AX role '{}' should map to {:?}, got {:?}",
            ax_role, expected, result
        );
    }
}

#[test]
fn test_ax_unknown_for_unmapped_roles() {
    let role = ax_role_to_normalized("AXCustomWidget");
    assert!(matches!(role, NormalizedRole::Unknown(_)));
    if let NormalizedRole::Unknown(s) = role {
        assert_eq!(s, "AXCustomWidget");
    }
}

#[test]
fn test_interactive_roles() {
    assert!(NormalizedRole::Button.is_interactive());
    assert!(NormalizedRole::TextInput.is_interactive());
    assert!(NormalizedRole::Checkbox.is_interactive());
    assert!(NormalizedRole::Link.is_interactive());
    assert!(NormalizedRole::ListItem.is_interactive());

    assert!(!NormalizedRole::Window.is_interactive());
    assert!(!NormalizedRole::Group.is_interactive());
    assert!(!NormalizedRole::Text.is_interactive());
    assert!(!NormalizedRole::Image.is_interactive());
    assert!(!NormalizedRole::Separator.is_interactive());
}

#[test]
fn test_rect_invariants() {
    let rect = Rect { x: 100, y: 200, width: 50, height: 30 };
    assert!(rect.x >= 0, "x should be non-negative for normal screen coordinates");
    assert!(rect.y >= 0, "y should be non-negative for top-left origin");
    assert!(rect.width > 0);
    assert!(rect.height > 0);
}

#[test]
fn test_format_tree_for_prompt() {
    let tree = NormalizedTree {
        window_title: "Settings".to_string(),
        process_name: "app.exe".to_string(),
        platform: "windows".to_string(),
        element_count: 2,
        elements: vec![
            NormalizedElement {
                id: 1,
                name: "Username".to_string(),
                role: NormalizedRole::TextInput,
                value: Some("john".to_string()),
                bounds: Some(Rect { x: 100, y: 50, width: 200, height: 24 }),
                states: vec![ElementState::Focused],
                shortcut: None,
                depth: 0,
                children_count: 0,
                children: Vec::new(),
            },
            NormalizedElement {
                id: 2,
                name: "Save".to_string(),
                role: NormalizedRole::Button,
                value: None,
                bounds: Some(Rect { x: 100, y: 80, width: 80, height: 30 }),
                states: vec![ElementState::Enabled],
                shortcut: Some("Ctrl+S".to_string()),
                depth: 0,
                children_count: 0,
                children: Vec::new(),
            },
        ],
    };

    let prompt = format_tree_for_prompt(&tree);
    assert!(prompt.contains("=== Accessibility Tree ==="));
    assert!(prompt.contains("Settings (app.exe) [windows]"));
    assert!(prompt.contains("TextInput 'Username' = \"john\""));
    assert!(prompt.contains("Button 'Save'"));
    assert!(prompt.contains("@(140,95)")); // center of (100,80,80,30)
    assert!(prompt.contains("[Shortcut: Ctrl+S]"));
}

#[test]
fn test_coordinate_flip_helper() {
    // Verify the formula: y_normalized = screen_height - ax_y - element_height
    // macOS AX: element at bottom-left-origin y=100, height=30, screen_height=900
    let screen_height: i32 = 900;
    let ax_y: i32 = 100;  // bottom-left origin (100px from bottom)
    let element_height: u32 = 30;

    let y_normalized = screen_height - ax_y - element_height as i32;
    // Expected: 900 - 100 - 30 = 770 (770px from top)
    assert_eq!(y_normalized, 770);
    assert!(y_normalized >= 0, "Normalized y must be non-negative");
}

#[test]
fn test_ax_mapping_exhaustive_all_documented_roles() {
    // Every AX role from the doc table MUST map to a known NormalizedRole
    // (not Unknown), ensuring macOS produces meaningful data for the prompt.
    let all_documented = vec![
        "AXWindow", "AXSheet", "AXDialog", "AXDrawer", "AXGroup",
        "AXGrowArea", "AXToolbar", "AXStatusBar", "AXMenuBar",
        "AXMenuBarItem", "AXMenu", "AXMenuItem", "AXSplitGroup",
        "AXSplitter", "AXTabGroup", "AXTab", "AXButton",
        "AXRadioButton", "AXRadioGroup", "AXCheckBox", "AXPopUpButton",
        "AXMenuButton", "AXDisclosureTriangle", "AXTextField",
        "AXTextArea", "AXSearchField", "AXSecureTextField",
        "AXStaticText", "AXHeading", "AXLink", "AXImage", "AXSlider",
        "AXIncrementor", "AXProgressIndicator", "AXBusyIndicator",
        "AXRelevanceIndicator", "AXScrollArea", "AXScrollBar",
        "AXList", "AXOutline", "AXOutlineRow", "AXBrowser", "AXTable",
        "AXRow", "AXColumn", "AXCell", "AXGrid", "AXComboBox",
        "AXColorWell", "AXDateField", "AXHelpTag", "AXLevelIndicator",
        "AXMatte", "AXRuler", "AXRulerMarker", "AXValueIndicator",
        "AXToolbarItem", "AXLayoutArea", "AXLayoutItem", "AXHandle",
        "AXSortButton", "AXSaveRecentDocument", "AXWebArea",
        // Subroles that also have explicit mappings
        "AXCloseButton", "AXMinimizeButton", "AXZoomButton",
        "AXFullScreenButton", "AXFloatingWindow", "AXStandardWindow",
        "AXSystemDialog", "AXTitleBar", "AXCalendar",
    ];

    for role in &all_documented {
        let result = ax_role_to_normalized(role);
        assert!(
            !matches!(result, NormalizedRole::Unknown(_)),
            "AX role '{}' should have an explicit mapping, got {:?}",
            role, result
        );
    }
}

#[test]
fn test_coordinate_flip_edge_cases() {
    // Element at the very top of screen (AX y = screen_height - height)
    let screen_h: i32 = 1080;
    let ax_y_top = screen_h - 30;  // AX bottom-left y for element at top
    let y_top = screen_h - ax_y_top - 30;
    assert_eq!(y_top, 0, "Element at screen top should normalize to y=0");

    // Element at the very bottom of screen (AX y = 0)
    let ax_y_bottom: i32 = 0;
    let y_bottom = screen_h - ax_y_bottom - 30;
    assert_eq!(y_bottom, 1050, "Element at screen bottom should normalize to screen_h - height");

    // Retina display (2x resolution)
    let retina_h: i32 = 2160;
    let ax_y_mid: i32 = 1080;
    let y_mid = retina_h - ax_y_mid - 100;
    assert_eq!(y_mid, 980);
    assert!(y_mid >= 0 && y_mid < retina_h);

    // 4K display
    let ultra_h: i32 = 2160;
    let ax_y_4k: i32 = 500;
    let y_4k = ultra_h - ax_y_4k - 50;
    assert_eq!(y_4k, 1610);
    assert!(y_4k >= 0);
}

#[test]
fn test_format_prompt_nested_indentation() {
    let tree = NormalizedTree {
        window_title: "Test".to_string(),
        process_name: "test".to_string(),
        platform: "macos".to_string(),
        element_count: 3,
        elements: vec![NormalizedElement {
            id: 1,
            name: "Form".to_string(),
            role: NormalizedRole::Group,
            value: None,
            bounds: None,
            states: vec![],
            shortcut: None,
            depth: 0,
            children_count: 1,
            children: vec![NormalizedElement {
                id: 2,
                name: "Submit".to_string(),
                role: NormalizedRole::Button,
                value: None,
                bounds: Some(Rect { x: 50, y: 100, width: 100, height: 30 }),
                states: vec![],
                shortcut: None,
                depth: 1,
                children_count: 0,
                children: Vec::new(),
            }],
        }],
    };

    let prompt = format_tree_for_prompt(&tree);
    // Parent at indent 0, child at indent 1 (2 spaces)
    assert!(prompt.contains("Group 'Form'"), "Parent should be at top level");
    assert!(prompt.contains("  Button 'Submit'"), "Child should be indented with 2 spaces");
    assert!(prompt.contains("@(100,115)"), "Interactive child should show click target");
}

#[test]
fn test_format_prompt_non_interactive_no_coords() {
    let tree = NormalizedTree {
        window_title: "T".to_string(),
        process_name: "t".to_string(),
        platform: "windows".to_string(),
        element_count: 1,
        elements: vec![NormalizedElement {
            id: 1,
            name: "Label".to_string(),
            role: NormalizedRole::Text,
            value: Some("Hello world".to_string()),
            bounds: Some(Rect { x: 50, y: 50, width: 200, height: 20 }),
            states: vec![],
            shortcut: None,
            depth: 0,
            children_count: 0,
            children: Vec::new(),
        }],
    };

    let prompt = format_tree_for_prompt(&tree);
    // Text is NOT interactive — should NOT have @(x,y) coordinates
    assert!(!prompt.contains("@("), "Non-interactive elements should not show click coordinates");
    assert!(prompt.contains("Text 'Label' = \"Hello world\""));
}

#[test]
fn test_uia_and_ax_produce_same_role_for_equivalent_elements() {
    // Verify that equivalent UI concepts map to the same NormalizedRole
    // on both platforms — this is the core parity guarantee.
    let parity_pairs: Vec<(i32, &str, NormalizedRole)> = vec![
        (50000, "AXButton", NormalizedRole::Button),
        (50002, "AXCheckBox", NormalizedRole::Checkbox),
        (50003, "AXComboBox", NormalizedRole::ComboBox),
        (50004, "AXTextField", NormalizedRole::TextInput),
        (50005, "AXLink", NormalizedRole::Link),
        (50006, "AXImage", NormalizedRole::Image),
        // Note: UIA 50007 = ListItem, but macOS has no direct AXListItem role.
        // AXOutlineRow maps to TreeItem. These roles diverge by design.
        (50008, "AXList", NormalizedRole::List),
        (50009, "AXMenu", NormalizedRole::Menu),
        (50010, "AXMenuBar", NormalizedRole::MenuBar),
        (50011, "AXMenuItem", NormalizedRole::MenuItem),
        (50012, "AXProgressIndicator", NormalizedRole::ProgressBar),
        (50013, "AXRadioButton", NormalizedRole::RadioButton),
        (50014, "AXScrollBar", NormalizedRole::ScrollBar),
        (50015, "AXSlider", NormalizedRole::Slider),
        (50017, "AXStatusBar", NormalizedRole::StatusBar),
        (50018, "AXTabGroup", NormalizedRole::Tab),
        (50019, "AXTab", NormalizedRole::TabItem),
        (50020, "AXStaticText", NormalizedRole::Text),
        (50021, "AXToolbar", NormalizedRole::Toolbar),
        (50022, "AXHelpTag", NormalizedRole::Tooltip),
        (50023, "AXOutline", NormalizedRole::TreeView),
        (50024, "AXOutlineRow", NormalizedRole::TreeItem),
        (50026, "AXGroup", NormalizedRole::Group),
        (50036, "AXTable", NormalizedRole::Table),
        (50032, "AXWindow", NormalizedRole::Window),
    ];

    for (uia_id, ax_role, expected) in parity_pairs {
        let uia_result = uia_control_type_to_role(uia_id);
        let ax_result = ax_role_to_normalized(ax_role);

        assert_eq!(
            uia_result, expected,
            "UIA {} should map to {:?}", uia_id, expected
        );
        assert_eq!(
            ax_result, expected,
            "AX '{}' should map to {:?}", ax_role, expected
        );
    }
}
