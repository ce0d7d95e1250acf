//! The platform-neutral accessibility schema: element roles and states, the
//! Windows UIA and macOS AX role tables, and the compact text rendering of a
//! captured tree.
use vstd::prelude::*;

pub mod capture_linux;
pub mod capture_macos;
pub mod focus_linux;
pub mod announce;
pub mod element;

use crate::text::{chars_of, chars_eq, push_str, push_chars, i64_dec, u64_dec, string_from_chars, debug_quote, debug_quoted, dec, dec_int};

verus! {

// ---------------------------------------------------------------------------
// Roles
// ---------------------------------------------------------------------------

/// Role of an element, shared by every platform. Roles without a mapping keep
/// the platform's own name in `Unknown`.
#[derive(Debug, Clone, PartialEq, Eq)]
pub enum NormalizedRole {
    Window,
    Dialog,
    Pane,
    Group,
    Toolbar,
    StatusBar,
    MenuBar,
    TitleBar,
    Tab,
    TabItem,
    Menu,
    MenuItem,
    Link,
    Button,
    SplitButton,
    TextInput,
    TextArea,
    Checkbox,
    RadioButton,
    ComboBox,
    Slider,
    Spinner,
    ScrollBar,
    List,
    ListItem,
    TreeView,
    TreeItem,
    Table,
    TableRow,
    TableCell,
    DataGrid,
    DataItem,
    Header,
    HeaderItem,
    Text,
    Heading,
    Label,
    Image,
    Document,
    ProgressBar,
    Tooltip,
    Separator,
    Calendar,
    Thumb,
    SemanticZoom,
    AppBar,
    Custom,
    /// Preserves the original platform-specific role string when no mapping exists.
    Unknown(String),
}

/// The text of a role: the variant's name, or the preserved string of `Unknown`.
pub open spec fn role_name(r: NormalizedRole) -> Seq<char> {
    match r {
        NormalizedRole::Window => "Window"@,
        NormalizedRole::Dialog => "Dialog"@,
        NormalizedRole::Pane => "Pane"@,
        NormalizedRole::Group => "Group"@,
        NormalizedRole::Toolbar => "Toolbar"@,
        NormalizedRole::StatusBar => "StatusBar"@,
        NormalizedRole::MenuBar => "MenuBar"@,
        NormalizedRole::TitleBar => "TitleBar"@,
        NormalizedRole::Tab => "Tab"@,
        NormalizedRole::TabItem => "TabItem"@,
        NormalizedRole::Menu => "Menu"@,
        NormalizedRole::MenuItem => "MenuItem"@,
        NormalizedRole::Link => "Link"@,
        NormalizedRole::Button => "Button"@,
        NormalizedRole::SplitButton => "SplitButton"@,
        NormalizedRole::TextInput => "TextInput"@,
        NormalizedRole::TextArea => "TextArea"@,
        NormalizedRole::Checkbox => "Checkbox"@,
        NormalizedRole::RadioButton => "RadioButton"@,
        NormalizedRole::ComboBox => "ComboBox"@,
        NormalizedRole::Slider => "Slider"@,
        NormalizedRole::Spinner => "Spinner"@,
        NormalizedRole::ScrollBar => "ScrollBar"@,
        NormalizedRole::List => "List"@,
        NormalizedRole::ListItem => "ListItem"@,
        NormalizedRole::TreeView => "TreeView"@,
        NormalizedRole::TreeItem => "TreeItem"@,
        NormalizedRole::Table => "Table"@,
        NormalizedRole::TableRow => "TableRow"@,
        NormalizedRole::TableCell => "TableCell"@,
        NormalizedRole::DataGrid => "DataGrid"@,
        NormalizedRole::DataItem => "DataItem"@,
        NormalizedRole::Header => "Header"@,
        NormalizedRole::HeaderItem => "HeaderItem"@,
        NormalizedRole::Text => "Text"@,
        NormalizedRole::Heading => "Heading"@,
        NormalizedRole::Label => "Label"@,
        NormalizedRole::Image => "Image"@,
        NormalizedRole::Document => "Document"@,
        NormalizedRole::ProgressBar => "ProgressBar"@,
        NormalizedRole::Tooltip => "Tooltip"@,
        NormalizedRole::Separator => "Separator"@,
        NormalizedRole::Calendar => "Calendar"@,
        NormalizedRole::Thumb => "Thumb"@,
        NormalizedRole::SemanticZoom => "SemanticZoom"@,
        NormalizedRole::AppBar => "AppBar"@,
        NormalizedRole::Custom => "Custom"@,
        NormalizedRole::Unknown(s) => s@,
    }
}

/// A role is seen as whether it is `Unknown`, and its text.
impl View for NormalizedRole {
    type V = (bool, Seq<char>);

    open spec fn view(&self) -> (bool, Seq<char>) {
        (self is Unknown, role_name(*self))
    }
}

/// Is `s` the name of one of the mapped (non-`Unknown`) roles?
pub open spec fn is_role_name(s: Seq<char>) -> bool {
    ||| s == "Window"@
    ||| s == "Dialog"@
    ||| s == "Pane"@
    ||| s == "Group"@
    ||| s == "Toolbar"@
    ||| s == "StatusBar"@
    ||| s == "MenuBar"@
    ||| s == "TitleBar"@
    ||| s == "Tab"@
    ||| s == "TabItem"@
    ||| s == "Menu"@
    ||| s == "MenuItem"@
    ||| s == "Link"@
    ||| s == "Button"@
    ||| s == "SplitButton"@
    ||| s == "TextInput"@
    ||| s == "TextArea"@
    ||| s == "Checkbox"@
    ||| s == "RadioButton"@
    ||| s == "ComboBox"@
    ||| s == "Slider"@
    ||| s == "Spinner"@
    ||| s == "ScrollBar"@
    ||| s == "List"@
    ||| s == "ListItem"@
    ||| s == "TreeView"@
    ||| s == "TreeItem"@
    ||| s == "Table"@
    ||| s == "TableRow"@
    ||| s == "TableCell"@
    ||| s == "DataGrid"@
    ||| s == "DataItem"@
    ||| s == "Header"@
    ||| s == "HeaderItem"@
    ||| s == "Text"@
    ||| s == "Heading"@
    ||| s == "Label"@
    ||| s == "Image"@
    ||| s == "Document"@
    ||| s == "ProgressBar"@
    ||| s == "Tooltip"@
    ||| s == "Separator"@
    ||| s == "Calendar"@
    ||| s == "Thumb"@
    ||| s == "SemanticZoom"@
    ||| s == "AppBar"@
    ||| s == "Custom"@
}

/// The role that a string denotes: the mapped role of that name, or `Unknown`.
pub open spec fn role_of_name(s: Seq<char>) -> (bool, Seq<char>) {
    (!is_role_name(s), s)
}

/// Lift a role name from a literal.
pub open spec fn known(name: &str) -> (bool, Seq<char>) {
    (false, name@)
}

fn eq_lit(cs: &Vec<char>, lit: &str) -> (res: bool)
    ensures
        res == (cs@ == lit@),
{
    let l = chars_of(lit);
    chars_eq(cs, &l)
}

pub(crate) fn owned(s: &str) -> (res: String)
    ensures
        res@ == s@,
{
    s.to_owned()
}

/// Parse a role name, matching the mapped variants exactly; any other string
/// becomes `Unknown` holding it.
pub fn normalized_role_from_str(s: &str) -> (r: NormalizedRole)
    ensures
        r@ == role_of_name(s@),
{
    let cs = chars_of(s);
    if eq_lit(&cs, "Window") { NormalizedRole::Window }
    else if eq_lit(&cs, "Dialog") { NormalizedRole::Dialog }
    else if eq_lit(&cs, "Pane") { NormalizedRole::Pane }
    else if eq_lit(&cs, "Group") { NormalizedRole::Group }
    else if eq_lit(&cs, "Toolbar") { NormalizedRole::Toolbar }
    else if eq_lit(&cs, "StatusBar") { NormalizedRole::StatusBar }
    else if eq_lit(&cs, "MenuBar") { NormalizedRole::MenuBar }
    else if eq_lit(&cs, "TitleBar") { NormalizedRole::TitleBar }
    else if eq_lit(&cs, "Tab") { NormalizedRole::Tab }
    else if eq_lit(&cs, "TabItem") { NormalizedRole::TabItem }
    else if eq_lit(&cs, "Menu") { NormalizedRole::Menu }
    else if eq_lit(&cs, "MenuItem") { NormalizedRole::MenuItem }
    else if eq_lit(&cs, "Link") { NormalizedRole::Link }
    else if eq_lit(&cs, "Button") { NormalizedRole::Button }
    else if eq_lit(&cs, "SplitButton") { NormalizedRole::SplitButton }
    else if eq_lit(&cs, "TextInput") { NormalizedRole::TextInput }
    else if eq_lit(&cs, "TextArea") { NormalizedRole::TextArea }
    else if eq_lit(&cs, "Checkbox") { NormalizedRole::Checkbox }
    else if eq_lit(&cs, "RadioButton") { NormalizedRole::RadioButton }
    else if eq_lit(&cs, "ComboBox") { NormalizedRole::ComboBox }
    else if eq_lit(&cs, "Slider") { NormalizedRole::Slider }
    else if eq_lit(&cs, "Spinner") { NormalizedRole::Spinner }
    else if eq_lit(&cs, "ScrollBar") { NormalizedRole::ScrollBar }
    else if eq_lit(&cs, "List") { NormalizedRole::List }
    else if eq_lit(&cs, "ListItem") { NormalizedRole::ListItem }
    else if eq_lit(&cs, "TreeView") { NormalizedRole::TreeView }
    else if eq_lit(&cs, "TreeItem") { NormalizedRole::TreeItem }
    else if eq_lit(&cs, "Table") { NormalizedRole::Table }
    else if eq_lit(&cs, "TableRow") { NormalizedRole::TableRow }
    else if eq_lit(&cs, "TableCell") { NormalizedRole::TableCell }
    else if eq_lit(&cs, "DataGrid") { NormalizedRole::DataGrid }
    else if eq_lit(&cs, "DataItem") { NormalizedRole::DataItem }
    else if eq_lit(&cs, "Header") { NormalizedRole::Header }
    else if eq_lit(&cs, "HeaderItem") { NormalizedRole::HeaderItem }
    else if eq_lit(&cs, "Text") { NormalizedRole::Text }
    else if eq_lit(&cs, "Heading") { NormalizedRole::Heading }
    else if eq_lit(&cs, "Label") { NormalizedRole::Label }
    else if eq_lit(&cs, "Image") { NormalizedRole::Image }
    else if eq_lit(&cs, "Document") { NormalizedRole::Document }
    else if eq_lit(&cs, "ProgressBar") { NormalizedRole::ProgressBar }
    else if eq_lit(&cs, "Tooltip") { NormalizedRole::Tooltip }
    else if eq_lit(&cs, "Separator") { NormalizedRole::Separator }
    else if eq_lit(&cs, "Calendar") { NormalizedRole::Calendar }
    else if eq_lit(&cs, "Thumb") { NormalizedRole::Thumb }
    else if eq_lit(&cs, "SemanticZoom") { NormalizedRole::SemanticZoom }
    else if eq_lit(&cs, "AppBar") { NormalizedRole::AppBar }
    else if eq_lit(&cs, "Custom") { NormalizedRole::Custom }
    else { NormalizedRole::Unknown(owned(s)) }
}

impl NormalizedRole {
    /// The string representation of this role.
    pub fn as_str(&self) -> (s: &str)
        ensures
            s@ == role_name(*self),
    {
        match self {
            NormalizedRole::Window => "Window",
            NormalizedRole::Dialog => "Dialog",
            NormalizedRole::Pane => "Pane",
            NormalizedRole::Group => "Group",
            NormalizedRole::Toolbar => "Toolbar",
            NormalizedRole::StatusBar => "StatusBar",
            NormalizedRole::MenuBar => "MenuBar",
            NormalizedRole::TitleBar => "TitleBar",
            NormalizedRole::Tab => "Tab",
            NormalizedRole::TabItem => "TabItem",
            NormalizedRole::Menu => "Menu",
            NormalizedRole::MenuItem => "MenuItem",
            NormalizedRole::Link => "Link",
            NormalizedRole::Button => "Button",
            NormalizedRole::SplitButton => "SplitButton",
            NormalizedRole::TextInput => "TextInput",
            NormalizedRole::TextArea => "TextArea",
            NormalizedRole::Checkbox => "Checkbox",
            NormalizedRole::RadioButton => "RadioButton",
            NormalizedRole::ComboBox => "ComboBox",
            NormalizedRole::Slider => "Slider",
            NormalizedRole::Spinner => "Spinner",
            NormalizedRole::ScrollBar => "ScrollBar",
            NormalizedRole::List => "List",
            NormalizedRole::ListItem => "ListItem",
            NormalizedRole::TreeView => "TreeView",
            NormalizedRole::TreeItem => "TreeItem",
            NormalizedRole::Table => "Table",
            NormalizedRole::TableRow => "TableRow",
            NormalizedRole::TableCell => "TableCell",
            NormalizedRole::DataGrid => "DataGrid",
            NormalizedRole::DataItem => "DataItem",
            NormalizedRole::Header => "Header",
            NormalizedRole::HeaderItem => "HeaderItem",
            NormalizedRole::Text => "Text",
            NormalizedRole::Heading => "Heading",
            NormalizedRole::Label => "Label",
            NormalizedRole::Image => "Image",
            NormalizedRole::Document => "Document",
            NormalizedRole::ProgressBar => "ProgressBar",
            NormalizedRole::Tooltip => "Tooltip",
            NormalizedRole::Separator => "Separator",
            NormalizedRole::Calendar => "Calendar",
            NormalizedRole::Thumb => "Thumb",
            NormalizedRole::SemanticZoom => "SemanticZoom",
            NormalizedRole::AppBar => "AppBar",
            NormalizedRole::Custom => "Custom",
            NormalizedRole::Unknown(s) => s.as_str(),
        }
    }

    /// True for roles that are typically interactive (clickable, editable, selectable).
    pub fn is_interactive(&self) -> (b: bool)
        ensures
            b == role_is_interactive(*self),
    {
        match self {
            NormalizedRole::Button => true,
            NormalizedRole::SplitButton => true,
            NormalizedRole::TextInput => true,
            NormalizedRole::TextArea => true,
            NormalizedRole::Checkbox => true,
            NormalizedRole::RadioButton => true,
            NormalizedRole::ComboBox => true,
            NormalizedRole::Slider => true,
            NormalizedRole::Spinner => true,
            NormalizedRole::ScrollBar => true,
            NormalizedRole::TabItem => true,
            NormalizedRole::MenuItem => true,
            NormalizedRole::Link => true,
            NormalizedRole::ListItem => true,
            NormalizedRole::TreeItem => true,
            NormalizedRole::DataItem => true,
            _ => false,
        }
    }
}

/// The interactive roles.
pub open spec fn role_is_interactive(r: NormalizedRole) -> bool {
    match r {
        NormalizedRole::Button => true,
        NormalizedRole::SplitButton => true,
        NormalizedRole::TextInput => true,
        NormalizedRole::TextArea => true,
        NormalizedRole::Checkbox => true,
        NormalizedRole::RadioButton => true,
        NormalizedRole::ComboBox => true,
        NormalizedRole::Slider => true,
        NormalizedRole::Spinner => true,
        NormalizedRole::ScrollBar => true,
        NormalizedRole::TabItem => true,
        NormalizedRole::MenuItem => true,
        NormalizedRole::Link => true,
        NormalizedRole::ListItem => true,
        NormalizedRole::TreeItem => true,
        NormalizedRole::DataItem => true,
        _ => false,
    }
}

// ---------------------------------------------------------------------------
// Windows UIA control types
// ---------------------------------------------------------------------------

/// The role of UIA control type `id`: 50000..=50040 map to their documented
/// roles, any other id to `Unknown("UIA_<id>")`.
pub open spec fn uia_role(id: int) -> (bool, Seq<char>) {
    if id == 50000 { known("Button") }
    else if id == 50001 { known("Calendar") }
    else if id == 50002 { known("Checkbox") }
    else if id == 50003 { known("ComboBox") }
    else if id == 50004 { known("TextInput") }
    else if id == 50005 { known("Link") }
    else if id == 50006 { known("Image") }
    else if id == 50007 { known("ListItem") }
    else if id == 50008 { known("List") }
    else if id == 50009 { known("Menu") }
    else if id == 50010 { known("MenuBar") }
    else if id == 50011 { known("MenuItem") }
    else if id == 50012 { known("ProgressBar") }
    else if id == 50013 { known("RadioButton") }
    else if id == 50014 { known("ScrollBar") }
    else if id == 50015 { known("Slider") }
    else if id == 50016 { known("Spinner") }
    else if id == 50017 { known("StatusBar") }
    else if id == 50018 { known("Tab") }
    else if id == 50019 { known("TabItem") }
    else if id == 50020 { known("Text") }
    else if id == 50021 { known("Toolbar") }
    else if id == 50022 { known("Tooltip") }
    else if id == 50023 { known("TreeView") }
    else if id == 50024 { known("TreeItem") }
    else if id == 50025 { known("Custom") }
    else if id == 50026 { known("Group") }
    else if id == 50027 { known("Thumb") }
    else if id == 50028 { known("DataGrid") }
    else if id == 50029 { known("DataItem") }
    else if id == 50030 { known("Document") }
    else if id == 50031 { known("SplitButton") }
    else if id == 50032 { known("Window") }
    else if id == 50033 { known("Pane") }
    else if id == 50034 { known("Header") }
    else if id == 50035 { known("HeaderItem") }
    else if id == 50036 { known("Table") }
    else if id == 50037 { known("TitleBar") }
    else if id == 50038 { known("Separator") }
    else if id == 50039 { known("SemanticZoom") }
    else if id == 50040 { known("AppBar") }
    else { (true, "UIA_"@ + dec_int(id)) }
}

/// Maps a Windows UIA control type ID (50000–50040) to a [`NormalizedRole`].
pub fn uia_control_type_to_role(control_type_id: i32) -> (r: NormalizedRole)
    ensures
        r@ == uia_role(control_type_id as int),
{
    match control_type_id {
        50000 => NormalizedRole::Button,
        50001 => NormalizedRole::Calendar,
        50002 => NormalizedRole::Checkbox,
        50003 => NormalizedRole::ComboBox,
        50004 => NormalizedRole::TextInput,
        50005 => NormalizedRole::Link,
        50006 => NormalizedRole::Image,
        50007 => NormalizedRole::ListItem,
        50008 => NormalizedRole::List,
        50009 => NormalizedRole::Menu,
        50010 => NormalizedRole::MenuBar,
        50011 => NormalizedRole::MenuItem,
        50012 => NormalizedRole::ProgressBar,
        50013 => NormalizedRole::RadioButton,
        50014 => NormalizedRole::ScrollBar,
        50015 => NormalizedRole::Slider,
        50016 => NormalizedRole::Spinner,
        50017 => NormalizedRole::StatusBar,
        50018 => NormalizedRole::Tab,
        50019 => NormalizedRole::TabItem,
        50020 => NormalizedRole::Text,
        50021 => NormalizedRole::Toolbar,
        50022 => NormalizedRole::Tooltip,
        50023 => NormalizedRole::TreeView,
        50024 => NormalizedRole::TreeItem,
        50025 => NormalizedRole::Custom,
        50026 => NormalizedRole::Group,
        50027 => NormalizedRole::Thumb,
        50028 => NormalizedRole::DataGrid,
        50029 => NormalizedRole::DataItem,
        50030 => NormalizedRole::Document,
        50031 => NormalizedRole::SplitButton,
        50032 => NormalizedRole::Window,
        50033 => NormalizedRole::Pane,
        50034 => NormalizedRole::Header,
        50035 => NormalizedRole::HeaderItem,
        50036 => NormalizedRole::Table,
        50037 => NormalizedRole::TitleBar,
        50038 => NormalizedRole::Separator,
        50039 => NormalizedRole::SemanticZoom,
        50040 => NormalizedRole::AppBar,
        other => {
            let mut v = chars_of("UIA_");
            let d = i64_dec(other as i64);
            push_chars(&mut v, &d);
            NormalizedRole::Unknown(string_from_chars(&v))
        },
    }
}

// ---------------------------------------------------------------------------
// macOS AX roles
// ---------------------------------------------------------------------------

/// The role of an AX role (or subrole) string, per the documented table;
/// unmapped strings become `Unknown` holding them.
pub open spec fn ax_role(s: Seq<char>) -> (bool, Seq<char>) {
    if s == "AXWindow"@ || s == "AXFloatingWindow"@ || s == "AXStandardWindow"@ { known("Window") }
    else if s == "AXSheet"@ || s == "AXDialog"@ || s == "AXSystemDialog"@ { known("Dialog") }
    else if s == "AXDrawer"@ || s == "AXScrollArea"@ { known("Pane") }
    else if s == "AXGroup"@ || s == "AXSplitGroup"@ || s == "AXRadioGroup"@ || s == "AXMatte"@ || s == "AXRuler"@ || s == "AXLayoutArea"@ || s == "AXLayoutItem"@ || s == "AXGrowArea"@ { known("Group") }
    else if s == "AXToolbar"@ { known("Toolbar") }
    else if s == "AXStatusBar"@ { known("StatusBar") }
    else if s == "AXMenuBar"@ { known("MenuBar") }
    else if s == "AXTitleBar"@ { known("TitleBar") }
    else if s == "AXTabGroup"@ { known("Tab") }
    else if s == "AXTab"@ { known("TabItem") }
    else if s == "AXMenu"@ { known("Menu") }
    else if s == "AXMenuItem"@ || s == "AXMenuBarItem"@ { known("MenuItem") }
    else if s == "AXLink"@ { known("Link") }
    else if s == "AXButton"@ || s == "AXDisclosureTriangle"@ || s == "AXMenuButton"@ || s == "AXColorWell"@ || s == "AXToolbarItem"@ || s == "AXSortButton"@ || s == "AXSaveRecentDocument"@ || s == "AXCloseButton"@ || s == "AXMinimizeButton"@ || s == "AXZoomButton"@ || s == "AXFullScreenButton"@ { known("Button") }
    else if s == "AXTextField"@ || s == "AXSearchField"@ || s == "AXSecureTextField"@ || s == "AXDateField"@ { known("TextInput") }
    else if s == "AXTextArea"@ { known("TextArea") }
    else if s == "AXCheckBox"@ { known("Checkbox") }
    else if s == "AXRadioButton"@ { known("RadioButton") }
    else if s == "AXPopUpButton"@ || s == "AXComboBox"@ { known("ComboBox") }
    else if s == "AXSlider"@ { known("Slider") }
    else if s == "AXIncrementor"@ { known("Spinner") }
    else if s == "AXScrollBar"@ { known("ScrollBar") }
    else if s == "AXList"@ { known("List") }
    else if s == "AXOutline"@ || s == "AXBrowser"@ { known("TreeView") }
    else if s == "AXOutlineRow"@ { known("TreeItem") }
    else if s == "AXTable"@ { known("Table") }
    else if s == "AXRow"@ { known("TableRow") }
    else if s == "AXColumn"@ || s == "AXCell"@ { known("TableCell") }
    else if s == "AXGrid"@ { known("DataGrid") }
    else if s == "AXHeader"@ { known("Header") }
    else if s == "AXHeaderItem"@ { known("HeaderItem") }
    else if s == "AXStaticText"@ { known("Text") }
    else if s == "AXHeading"@ { known("Heading") }
    else if s == "AXImage"@ { known("Image") }
    else if s == "AXWebArea"@ { known("Document") }
    else if s == "AXProgressIndicator"@ || s == "AXBusyIndicator"@ || s == "AXRelevanceIndicator"@ || s == "AXLevelIndicator"@ { known("ProgressBar") }
    else if s == "AXHelpTag"@ { known("Tooltip") }
    else if s == "AXSplitter"@ { known("Separator") }
    else if s == "AXRulerMarker"@ || s == "AXValueIndicator"@ || s == "AXHandle"@ { known("Thumb") }
    else if s == "AXCalendar"@ { known("Calendar") }
    else { (true, s) }
}

/// Maps a macOS Accessibility API role string to a [`NormalizedRole`].
pub fn ax_role_to_normalized(role: &str) -> (r: NormalizedRole)
    ensures
        r@ == ax_role(role@),
{
    let cs = chars_of(role);
    if eq_lit(&cs, "AXWindow") || eq_lit(&cs, "AXFloatingWindow") || eq_lit(&cs, "AXStandardWindow") { NormalizedRole::Window }
    else if eq_lit(&cs, "AXSheet") || eq_lit(&cs, "AXDialog") || eq_lit(&cs, "AXSystemDialog") { NormalizedRole::Dialog }
    else if eq_lit(&cs, "AXDrawer") || eq_lit(&cs, "AXScrollArea") { NormalizedRole::Pane }
    else if eq_lit(&cs, "AXGroup") || eq_lit(&cs, "AXSplitGroup") || eq_lit(&cs, "AXRadioGroup") || eq_lit(&cs, "AXMatte") || eq_lit(&cs, "AXRuler") || eq_lit(&cs, "AXLayoutArea") || eq_lit(&cs, "AXLayoutItem") || eq_lit(&cs, "AXGrowArea") { NormalizedRole::Group }
    else if eq_lit(&cs, "AXToolbar") { NormalizedRole::Toolbar }
    else if eq_lit(&cs, "AXStatusBar") { NormalizedRole::StatusBar }
    else if eq_lit(&cs, "AXMenuBar") { NormalizedRole::MenuBar }
    else if eq_lit(&cs, "AXTitleBar") { NormalizedRole::TitleBar }
    else if eq_lit(&cs, "AXTabGroup") { NormalizedRole::Tab }
    else if eq_lit(&cs, "AXTab") { NormalizedRole::TabItem }
    else if eq_lit(&cs, "AXMenu") { NormalizedRole::Menu }
    else if eq_lit(&cs, "AXMenuItem") || eq_lit(&cs, "AXMenuBarItem") { NormalizedRole::MenuItem }
    else if eq_lit(&cs, "AXLink") { NormalizedRole::Link }
    else if eq_lit(&cs, "AXButton") || eq_lit(&cs, "AXDisclosureTriangle") || eq_lit(&cs, "AXMenuButton") || eq_lit(&cs, "AXColorWell") || eq_lit(&cs, "AXToolbarItem") || eq_lit(&cs, "AXSortButton") || eq_lit(&cs, "AXSaveRecentDocument") || eq_lit(&cs, "AXCloseButton") || eq_lit(&cs, "AXMinimizeButton") || eq_lit(&cs, "AXZoomButton") || eq_lit(&cs, "AXFullScreenButton") { NormalizedRole::Button }
    else if eq_lit(&cs, "AXTextField") || eq_lit(&cs, "AXSearchField") || eq_lit(&cs, "AXSecureTextField") || eq_lit(&cs, "AXDateField") { NormalizedRole::TextInput }
    else if eq_lit(&cs, "AXTextArea") { NormalizedRole::TextArea }
    else if eq_lit(&cs, "AXCheckBox") { NormalizedRole::Checkbox }
    else if eq_lit(&cs, "AXRadioButton") { NormalizedRole::RadioButton }
    else if eq_lit(&cs, "AXPopUpButton") || eq_lit(&cs, "AXComboBox") { NormalizedRole::ComboBox }
    else if eq_lit(&cs, "AXSlider") { NormalizedRole::Slider }
    else if eq_lit(&cs, "AXIncrementor") { NormalizedRole::Spinner }
    else if eq_lit(&cs, "AXScrollBar") { NormalizedRole::ScrollBar }
    else if eq_lit(&cs, "AXList") { NormalizedRole::List }
    else if eq_lit(&cs, "AXOutline") || eq_lit(&cs, "AXBrowser") { NormalizedRole::TreeView }
    else if eq_lit(&cs, "AXOutlineRow") { NormalizedRole::TreeItem }
    else if eq_lit(&cs, "AXTable") { NormalizedRole::Table }
    else if eq_lit(&cs, "AXRow") { NormalizedRole::TableRow }
    else if eq_lit(&cs, "AXColumn") || eq_lit(&cs, "AXCell") { NormalizedRole::TableCell }
    else if eq_lit(&cs, "AXGrid") { NormalizedRole::DataGrid }
    else if eq_lit(&cs, "AXHeader") { NormalizedRole::Header }
    else if eq_lit(&cs, "AXHeaderItem") { NormalizedRole::HeaderItem }
    else if eq_lit(&cs, "AXStaticText") { NormalizedRole::Text }
    else if eq_lit(&cs, "AXHeading") { NormalizedRole::Heading }
    else if eq_lit(&cs, "AXImage") { NormalizedRole::Image }
    else if eq_lit(&cs, "AXWebArea") { NormalizedRole::Document }
    else if eq_lit(&cs, "AXProgressIndicator") || eq_lit(&cs, "AXBusyIndicator") || eq_lit(&cs, "AXRelevanceIndicator") || eq_lit(&cs, "AXLevelIndicator") { NormalizedRole::ProgressBar }
    else if eq_lit(&cs, "AXHelpTag") { NormalizedRole::Tooltip }
    else if eq_lit(&cs, "AXSplitter") { NormalizedRole::Separator }
    else if eq_lit(&cs, "AXRulerMarker") || eq_lit(&cs, "AXValueIndicator") || eq_lit(&cs, "AXHandle") { NormalizedRole::Thumb }
    else if eq_lit(&cs, "AXCalendar") { NormalizedRole::Calendar }
    else { NormalizedRole::Unknown(owned(role)) }
}

// ---------------------------------------------------------------------------
// Element states
// ---------------------------------------------------------------------------

/// Typed element states. Platform implementations map their native states to these.
#[derive(Debug, Clone, Copy, PartialEq, Eq)]
pub enum ElementState {
    Enabled,
    Disabled,
    Focused,
    Selected,
    Expanded,
    Collapsed,
    Checked,
    Unchecked,
    Indeterminate,
    ReadOnly,
    Offscreen,
    Pressed,
    Required,
    Invalid,
}

/// The lowercase name of a state, as it is written in prompts and in JSON.
pub open spec fn state_name(s: ElementState) -> Seq<char> {
    match s {
        ElementState::Enabled => "enabled"@,
        ElementState::Disabled => "disabled"@,
        ElementState::Focused => "focused"@,
        ElementState::Selected => "selected"@,
        ElementState::Expanded => "expanded"@,
        ElementState::Collapsed => "collapsed"@,
        ElementState::Checked => "checked"@,
        ElementState::Unchecked => "unchecked"@,
        ElementState::Indeterminate => "indeterminate"@,
        ElementState::ReadOnly => "readonly"@,
        ElementState::Offscreen => "offscreen"@,
        ElementState::Pressed => "pressed"@,
        ElementState::Required => "required"@,
        ElementState::Invalid => "invalid"@,
    }
}

impl ElementState {
    /// The lowercase name of this state.
    pub fn lower_name(&self) -> (s: &'static str)
        ensures
            s@ == state_name(*self),
    {
        match self {
            ElementState::Enabled => "enabled",
            ElementState::Disabled => "disabled",
            ElementState::Focused => "focused",
            ElementState::Selected => "selected",
            ElementState::Expanded => "expanded",
            ElementState::Collapsed => "collapsed",
            ElementState::Checked => "checked",
            ElementState::Unchecked => "unchecked",
            ElementState::Indeterminate => "indeterminate",
            ElementState::ReadOnly => "readonly",
            ElementState::Offscreen => "offscreen",
            ElementState::Pressed => "pressed",
            ElementState::Required => "required",
            ElementState::Invalid => "invalid",
        }
    }
}

// ---------------------------------------------------------------------------
// Tree types
// ---------------------------------------------------------------------------

/// Screen-coordinate rectangle. Origin is always top-left of the screen.
#[derive(Debug, Clone, Copy)]
pub struct Rect {
    pub x: i32,
    pub y: i32,
    pub width: u32,
    pub height: u32,
}

/// A single UI element in the accessibility tree.
#[derive(Debug)]
pub struct NormalizedElement {
    /// Monotonically increasing ID within this tree capture (starts at 1).
    pub id: u64,
    /// Display name / label of the element.
    pub name: String,
    /// Platform-agnostic role classification.
    pub role: NormalizedRole,
    /// Current value (text content, toggle state, selected item).
    pub value: Option<String>,
    /// Bounding rectangle in screen coordinates (top-left origin).
    pub bounds: Option<Rect>,
    /// Active states on this element.
    pub states: Vec<ElementState>,
    /// Keyboard accelerator (e.g. "Ctrl+S").
    pub shortcut: Option<String>,
    /// Depth in the element tree (0 = direct child of window root).
    pub depth: u32,
    /// Number of direct children.
    pub children_count: u32,
    /// Child elements.
    pub children: Vec<NormalizedElement>,
}

/// The complete accessibility tree captured from the foreground window.
#[derive(Debug)]
pub struct NormalizedTree {
    /// Title of the foreground window.
    pub window_title: String,
    /// Executable name of the owning process.
    pub process_name: String,
    /// Platform that produced this tree: "windows", "macos", or "linux".
    pub platform: String,
    /// Total number of elements captured.
    pub element_count: usize,
    /// Top-level elements (children of the root window element).
    pub elements: Vec<NormalizedElement>,
}

// ---------------------------------------------------------------------------
// Prompt rendering, specified
// ---------------------------------------------------------------------------

/// How `{:?}` writes a role: the variant name, or `Unknown("...")`.
pub open spec fn role_debug(r: NormalizedRole) -> Seq<char> {
    match r {
        NormalizedRole::Unknown(s) => "Unknown("@ + debug_quoted(s@) + ")"@,
        _ => role_name(r),
    }
}

/// The state names joined with ", ".
pub open spec fn states_join(s: Seq<ElementState>) -> Seq<char>
    decreases s.len(),
{
    if s.len() == 0 {
        Seq::empty()
    } else if s.len() == 1 {
        state_name(s[0])
    } else {
        states_join(s.drop_last()) + ", "@ + state_name(s.last())
    }
}

/// `(w as i32) / 2` with Rust's truncating division.
pub open spec fn half_width(w: u32) -> int {
    let v = w as i32;
    if v >= 0 {
        v / 2
    } else {
        -((-v) / 2)
    }
}

/// Center of a rectangle, as the renderer computes it.
pub open spec fn center_x(b: Rect) -> int {
    b.x + half_width(b.width)
}

pub open spec fn center_y(b: Rect) -> int {
    b.y + half_width(b.height)
}

/// Does the renderer print a click target for this element?
pub open spec fn shows_click(el: NormalizedElement) -> bool {
    &&& role_is_interactive(el.role)
    &&& el.bounds is Some
    &&& el.bounds->0.width > 0
    &&& el.bounds->0.height > 0
}

/// The click target stays inside the `i32` range (else the sum overflows).
pub open spec fn click_fits(el: NormalizedElement) -> bool {
    shows_click(el) ==> {
        &&& i32::MIN <= center_x(el.bounds->0) <= i32::MAX
        &&& i32::MIN <= center_y(el.bounds->0) <= i32::MAX
    }
}

/// Every element of the subtree has a click target that fits in `i32`.
pub open spec fn element_fits(el: NormalizedElement) -> bool
    decreases el,
{
    click_fits(el) && elements_fit(el.children@)
}

pub open spec fn elements_fit(s: Seq<NormalizedElement>) -> bool
    decreases s,
{
    if s.len() == 0 {
        true
    } else {
        elements_fit(s.drop_last()) && element_fits(s.last())
    }
}

/// Two spaces per level.
pub open spec fn indent_pad(indent: nat) -> Seq<char> {
    Seq::new(2 * indent, |_i: int| ' ')
}

pub open spec fn name_part(el: NormalizedElement) -> Seq<char> {
    if el.name@.len() > 0 { " '"@ + el.name@ + "'"@ } else { Seq::empty() }
}

pub open spec fn value_part(el: NormalizedElement) -> Seq<char> {
    match el.value {
        Some(v) => " = \""@ + v@ + "\""@,
        None => Seq::empty(),
    }
}

pub open spec fn states_part(el: NormalizedElement) -> Seq<char> {
    if el.states@.len() > 0 {
        " ["@ + states_join(el.states@) + "]"@
    } else {
        Seq::empty()
    }
}

pub open spec fn click_part(el: NormalizedElement) -> Seq<char> {
    if shows_click(el) {
        " @("@ + dec_int(center_x(el.bounds->0)) + ","@ + dec_int(center_y(el.bounds->0)) + ")"@
    } else {
        Seq::empty()
    }
}

pub open spec fn shortcut_part(el: NormalizedElement) -> Seq<char> {
    match el.shortcut {
        Some(s) => " [Shortcut: "@ + s@ + "]"@,
        None => Seq::empty(),
    }
}

/// The line written for one element (without its children).
pub open spec fn element_line(el: NormalizedElement, indent: nat) -> Seq<char> {
    indent_pad(indent) + role_debug(el.role) + name_part(el) + value_part(el) + states_part(el)
        + click_part(el) + shortcut_part(el) + seq!['\n']
}

/// An element's line followed by its children, one level deeper.
pub open spec fn element_text(el: NormalizedElement, indent: nat) -> Seq<char>
    decreases el,
{
    element_line(el, indent) + elements_text(el.children@, indent + 1)
}

pub open spec fn elements_text(s: Seq<NormalizedElement>, indent: nat) -> Seq<char>
    decreases s,
{
    if s.len() == 0 {
        Seq::empty()
    } else {
        elements_text(s.drop_last(), indent) + element_text(s.last(), indent)
    }
}

/// The whole prompt: a header, then every top-level element at indent 0.
pub open spec fn tree_text(t: NormalizedTree) -> Seq<char> {
    "=== Accessibility Tree ===\nWindow: "@ + t.window_title@ + " ("@ + t.process_name@ + ") ["@
        + t.platform@ + "]\nElements: "@ + dec(t.element_count as nat) + "\n\n"@ + elements_text(
        t.elements@,
        0,
    )
}

// ---------------------------------------------------------------------------
// Prompt rendering, computed
// ---------------------------------------------------------------------------

fn push_role_debug(out: &mut Vec<char>, r: &NormalizedRole)
    ensures
        final(out)@ == old(out)@ + role_debug(*r),
{
    match r {
        NormalizedRole::Unknown(s) => {
            push_str(out, "Unknown(");
            let q = debug_quote(s.as_str());
            push_str(out, q.as_str());
            push_str(out, ")");
            assert(final(out)@ =~= old(out)@ + role_debug(*r));
        },
        _ => {
            push_str(out, r.as_str());
        },
    }
}

fn push_states(out: &mut Vec<char>, states: &Vec<ElementState>)
    ensures
        final(out)@ == old(out)@ + states_join(states@),
{
    let mut i: usize = 0;
    assert(states@.take(0) =~= Seq::<ElementState>::empty());
    while i < states.len()
        invariant
            i <= states.len(),
            out@ == old(out)@ + states_join(states@.take(i as int)),
        decreases states.len() - i,
    {
        let ghost before = out@;
        if i > 0 {
            push_str(out, ", ");
        }
        push_str(out, states[i].lower_name());
        proof {
            let t = states@.take(i + 1);
            assert(t.drop_last() =~= states@.take(i as int));
            if i == 0 {
                assert(out@ =~= before + state_name(states@[0]));
            } else {
                assert(out@ =~= before + (", "@ + state_name(t.last())));
            }
        }
        i = i + 1;
    }
    assert(states@.take(states.len() as int) =~= states@);
}

/// `(w as i32) / 2`, truncating.
fn half_of(w: u32) -> (h: i64)
    ensures
        h == half_width(w),
{
    let v = w as i32;
    if v >= 0 {
        (v / 2) as i64
    } else {
        let m = -(v as i64);
        -(m / 2)
    }
}

fn push_name_part(out: &mut Vec<char>, el: &NormalizedElement)
    ensures
        final(out)@ == old(out)@ + name_part(*el),
{
    if !el.name.as_str().is_empty() {
        push_str(out, " '");
        push_str(out, el.name.as_str());
        push_str(out, "'");
        assert(final(out)@ =~= old(out)@ + name_part(*el));
    } else {
        assert(final(out)@ =~= old(out)@ + name_part(*el));
    }
}

fn push_value_part(out: &mut Vec<char>, el: &NormalizedElement)
    ensures
        final(out)@ == old(out)@ + value_part(*el),
{
    match &el.value {
        Some(v) => {
            push_str(out, " = \"");
            push_str(out, v.as_str());
            push_str(out, "\"");
            assert(final(out)@ =~= old(out)@ + value_part(*el));
        },
        None => {
            assert(final(out)@ =~= old(out)@ + value_part(*el));
        },
    }
}

fn push_states_part(out: &mut Vec<char>, el: &NormalizedElement)
    ensures
        final(out)@ == old(out)@ + states_part(*el),
{
    if el.states.len() > 0 {
        push_str(out, " [");
        push_states(out, &el.states);
        push_str(out, "]");
        assert(final(out)@ =~= old(out)@ + states_part(*el));
    } else {
        assert(final(out)@ =~= old(out)@ + states_part(*el));
    }
}

fn push_click_part(out: &mut Vec<char>, el: &NormalizedElement)
    requires
        click_fits(*el),
    ensures
        final(out)@ == old(out)@ + click_part(*el),
{
    if el.role.is_interactive() {
        match &el.bounds {
            Some(b) => {
                if b.width > 0 && b.height > 0 {
                    let cx = (b.x as i64 + half_of(b.width)) as i32;
                    let cy = (b.y as i64 + half_of(b.height)) as i32;
                    push_str(out, " @(");
                    let dx = i64_dec(cx as i64);
                    push_chars(out, &dx);
                    push_str(out, ",");
                    let dy = i64_dec(cy as i64);
                    push_chars(out, &dy);
                    push_str(out, ")");
                    assert(final(out)@ =~= old(out)@ + click_part(*el));
                    return;
                }
            },
            None => {},
        }
    }
    assert(final(out)@ =~= old(out)@ + click_part(*el));
}

fn push_shortcut_part(out: &mut Vec<char>, el: &NormalizedElement)
    ensures
        final(out)@ == old(out)@ + shortcut_part(*el),
{
    match &el.shortcut {
        Some(s) => {
            push_str(out, " [Shortcut: ");
            push_str(out, s.as_str());
            push_str(out, "]");
            assert(final(out)@ =~= old(out)@ + shortcut_part(*el));
        },
        None => {
            assert(final(out)@ =~= old(out)@ + shortcut_part(*el));
        },
    }
}

fn push_element_line(out: &mut Vec<char>, el: &NormalizedElement, pad: &Vec<char>, Ghost(indent): Ghost<nat>)
    requires
        click_fits(*el),
        pad@ == indent_pad(indent),
    ensures
        final(out)@ == old(out)@ + element_line(*el, indent),
{
    push_chars(out, pad);
    push_role_debug(out, &el.role);
    push_name_part(out, el);
    push_value_part(out, el);
    push_states_part(out, el);
    push_click_part(out, el);
    push_shortcut_part(out, el);
    out.push('\n');
    assert(final(out)@ =~= old(out)@ + element_line(*el, indent));
}

/// Append one element and its subtree; `pad` is two spaces per level.
fn format_element(out: &mut Vec<char>, el: &NormalizedElement, pad: &Vec<char>, Ghost(indent): Ghost<nat>)
    requires
        element_fits(*el),
        pad@ == indent_pad(indent),
    ensures
        final(out)@ == old(out)@ + element_text(*el, indent),
    decreases el,
{
    push_element_line(out, el, pad, Ghost(indent));
    let mut child_pad: Vec<char> = Vec::new();
    push_chars(&mut child_pad, pad);
    child_pad.push(' ');
    child_pad.push(' ');
    assert(child_pad@ =~= indent_pad(indent + 1));
    let ghost line_end = out@;
    let mut i: usize = 0;
    assert(el.children@.take(0) =~= Seq::<NormalizedElement>::empty());
    while i < el.children.len()
        invariant
            i <= el.children.len(),
            elements_fit(el.children@),
            child_pad@ == indent_pad(indent + 1),
            out@ == line_end + elements_text(el.children@.take(i as int), indent + 1),
            line_end == old(out)@ + element_line(*el, indent),
        decreases el.children.len() - i,
    {
        proof {
            lemma_elements_fit_index(el.children@, i as int);
            assert(decreases_to!(el => el.children));
        }
        format_element(out, &el.children[i], &child_pad, Ghost(indent + 1));
        proof {
            let t = el.children@.take(i + 1);
            assert(t.drop_last() =~= el.children@.take(i as int));
        }
        i = i + 1;
    }
    assert(el.children@.take(el.children.len() as int) =~= el.children@);
}

proof fn lemma_elements_fit_index(s: Seq<NormalizedElement>, i: int)
    requires
        elements_fit(s),
        0 <= i < s.len(),
    ensures
        element_fits(s[i]),
    decreases s.len(),
{
    if i < s.len() - 1 {
        lemma_elements_fit_index(s.drop_last(), i);
    }
}

/// Format a tree as compact text for LLM prompts: a header with the window,
/// process, platform and element count, then one line per element, children
/// indented two spaces per level, interactive elements with a click target.
pub fn format_tree_for_prompt(tree: &NormalizedTree) -> (out: String)
    requires
        elements_fit(tree.elements@),
    ensures
        out@ == tree_text(*tree),
{
    let mut out: Vec<char> = Vec::new();
    push_str(&mut out, "=== Accessibility Tree ===\nWindow: ");
    push_str(&mut out, tree.window_title.as_str());
    push_str(&mut out, " (");
    push_str(&mut out, tree.process_name.as_str());
    push_str(&mut out, ") [");
    push_str(&mut out, tree.platform.as_str());
    push_str(&mut out, "]\nElements: ");
    let n = u64_dec(tree.element_count as u64);
    push_chars(&mut out, &n);
    push_str(&mut out, "\n\n");
    let ghost head = out@;
    let pad: Vec<char> = Vec::new();
    assert(pad@ =~= indent_pad(0));
    let mut i: usize = 0;
    assert(tree.elements@.take(0) =~= Seq::<NormalizedElement>::empty());
    while i < tree.elements.len()
        invariant
            i <= tree.elements.len(),
            elements_fit(tree.elements@),
            pad@ == indent_pad(0),
            out@ == head + elements_text(tree.elements@.take(i as int), 0),
        decreases tree.elements.len() - i,
    {
        proof {
            lemma_elements_fit_index(tree.elements@, i as int);
        }
        format_element(&mut out, &tree.elements[i], &pad, Ghost(0));
        proof {
            let t = tree.elements@.take(i + 1);
            assert(t.drop_last() =~= tree.elements@.take(i as int));
        }
        i = i + 1;
    }
    assert(tree.elements@.take(tree.elements.len() as int) =~= tree.elements@);
    assert(out@ =~= tree_text(*tree));
    string_from_chars(&out)
}

// ---------------------------------------------------------------------------
// Laws
// ---------------------------------------------------------------------------

/// Printing a role and parsing the text back gives the same role, for every
/// role except an `Unknown` whose preserved text is itself a mapped role name
/// (that text parses to the mapped role). Parsing then printing is always the
/// identity on text.
pub proof fn law_role_text_round_trip(r: NormalizedRole, s: Seq<char>)
    ensures
        !(r is Unknown && is_role_name(role_name(r))) ==> role_of_name(role_name(r)) == r@,
        role_of_name(s).1 == s,
{
}

/// Every documented UIA control type 50000..=50040 has a mapped role; every
/// other id becomes `Unknown("UIA_<id>")`.
pub proof fn law_uia_table_total(id: int)
    ensures
        50000 <= id <= 50040 ==> !uia_role(id).0,
        (id < 50000 || id > 50040) ==> uia_role(id) == (true, "UIA_"@ + dec_int(id)),
{
}

/// An AX role without a mapping keeps its own text in `Unknown`.
pub proof fn law_ax_unmapped_preserved(s: Seq<char>)
    ensures
        ax_role(s).0 ==> ax_role(s).1 == s,
{
}

/// Non-interactive elements never carry a click target in the prompt.
pub proof fn law_click_target_only_interactive(el: NormalizedElement)
    ensures
        !role_is_interactive(el.role) ==> click_part(el) == Seq::<char>::empty(),
{
}

} // verus!
