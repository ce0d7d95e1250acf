//! Building one element of a captured tree from the attributes a platform's
//! accessibility API reports for it, and the decisions of the tree walk:
//! how deep and how far it reads, and which elements it keeps.
//!
//! The platform calls themselves (reading an attribute, listing children)
//! are made by the caller, which hands the results in here as plain values.
use vstd::prelude::*;

use crate::a11y::{
    ax_role, ax_role_to_normalized, owned, role_is_interactive, uia_control_type_to_role, uia_role, ElementState,
    NormalizedElement, NormalizedRole, Rect,
};
use crate::currency::opt_text;
use crate::text::{push_str, string_from_chars};

verus! {

/// How deep the walk reads below the window: depths 0 to 7.
pub const MAX_TREE_DEPTH: u32 = 8;

/// How many elements the walk keeps at most.
pub const MAX_TREE_ELEMENTS: usize = 500;

// ---------------------------------------------------------------------------
// macOS AX attributes
// ---------------------------------------------------------------------------

/// The role of an AX element: its subrole's role when it has a subrole with
/// a mapping, else its role's.
pub open spec fn ax_element_role(role: Seq<char>, subrole: Seq<char>) -> (bool, Seq<char>) {
    if subrole.len() > 0 && !ax_role(subrole).0 {
        ax_role(subrole)
    } else {
        ax_role(role)
    }
}

/// The states an AX element reports: disabled when not enabled, focused,
/// selected, and expanded or collapsed, in that order.
pub open spec fn ax_states(
    enabled: Option<bool>,
    focused: Option<bool>,
    selected: Option<bool>,
    expanded: Option<bool>,
) -> Seq<ElementState> {
    let s1 = if enabled == Some(false) { seq![ElementState::Disabled] } else { Seq::empty() };
    let s2 = if focused == Some(true) { s1.push(ElementState::Focused) } else { s1 };
    let s3 = if selected == Some(true) { s2.push(ElementState::Selected) } else { s2 };
    match expanded {
        Some(true) => s3.push(ElementState::Expanded),
        Some(false) => s3.push(ElementState::Collapsed),
        None => s3,
    }
}

/// The shortcut of an AX menu item: `modifiers+char`, or `Cmd+char` when it
/// reports no modifiers; none without a command character.
pub open spec fn ax_shortcut(cmd_char: Seq<char>, cmd_modifiers: Seq<char>) -> Option<Seq<char>> {
    if cmd_char.len() == 0 {
        None
    } else if cmd_modifiers.len() > 0 {
        Some(cmd_modifiers + "+"@ + cmd_char)
    } else {
        Some("Cmd+"@ + cmd_char)
    }
}

fn push_state(v: &mut Vec<ElementState>, s: ElementState)
    ensures
        final(v)@ == old(v)@.push(s),
{
    v.push(s);
}

/// An element from the attributes an AX element reports: the name is the
/// title, or the description when the title is empty; the role comes from
/// the subrole when it maps to one, else from the role; the value and the
/// bounds are kept as given (the caller keeps bounds only with a positive
/// width and height); no children yet.
pub fn element_from_ax(
    id: u64,
    depth: u32,
    title: &str,
    description: &str,
    role: &str,
    subrole: &str,
    value: Option<String>,
    bounds: Option<Rect>,
    enabled: Option<bool>,
    focused: Option<bool>,
    selected: Option<bool>,
    expanded: Option<bool>,
    cmd_char: &str,
    cmd_modifiers: &str,
) -> (e: NormalizedElement)
    ensures
        e.id == id,
        e.depth == depth,
        e.name@ == (if title@.len() > 0 { title@ } else { description@ }),
        e.role@ == ax_element_role(role@, subrole@),
        e.value == value,
        e.bounds == bounds,
        e.states@ == ax_states(enabled, focused, selected, expanded),
        opt_text(e.shortcut) == ax_shortcut(cmd_char@, cmd_modifiers@),
        e.children_count == 0,
        e.children@.len() == 0,
{
    let name = if !title.is_empty() {
        owned(title)
    } else {
        owned(description)
    };
    let r = if !subrole.is_empty() {
        let sr = ax_role_to_normalized(subrole);
        match sr {
            NormalizedRole::Unknown(_) => ax_role_to_normalized(role),
            _ => sr,
        }
    } else {
        ax_role_to_normalized(role)
    };
    let mut states: Vec<ElementState> = Vec::new();
    if enabled == Some(false) {
        push_state(&mut states, ElementState::Disabled);
    }
    if focused == Some(true) {
        push_state(&mut states, ElementState::Focused);
    }
    if selected == Some(true) {
        push_state(&mut states, ElementState::Selected);
    }
    match expanded {
        Some(true) => push_state(&mut states, ElementState::Expanded),
        Some(false) => push_state(&mut states, ElementState::Collapsed),
        None => {},
    }
    let shortcut = if !cmd_char.is_empty() {
        let mut s: Vec<char> = Vec::new();
        if !cmd_modifiers.is_empty() {
            push_str(&mut s, cmd_modifiers);
            push_str(&mut s, "+");
        } else {
            push_str(&mut s, "Cmd+");
        }
        push_str(&mut s, cmd_char);
        Some(string_from_chars(&s))
    } else {
        None
    };
    NormalizedElement {
        id,
        name,
        role: r,
        value,
        bounds,
        states,
        shortcut,
        depth,
        children_count: 0,
        children: Vec::new(),
    }
}

// ---------------------------------------------------------------------------
// Windows UIA attributes
// ---------------------------------------------------------------------------

/// What the expand/collapse pattern reports.
#[derive(Debug, Clone, Copy, PartialEq, Eq)]
pub enum ExpandState {
    Expanded,
    Collapsed,
    /// Partly expanded, or a leaf.
    Other,
}

/// What the toggle pattern reports.
#[derive(Debug, Clone, Copy, PartialEq, Eq)]
pub enum ToggleState {
    On,
    Off,
    Indeterminate,
}

/// The bounds of a UIA bounding rectangle (left, top, right, bottom): kept
/// only with a positive width and height.
pub open spec fn uia_bounds_of(r: (i32, i32, i32, i32)) -> Option<Rect> {
    let w = r.2 - r.0;
    let h = r.3 - r.1;
    if w > 0 && h > 0 {
        Some(Rect { x: r.0, y: r.1, width: w as u32, height: h as u32 })
    } else {
        None
    }
}

/// The width and height of a rectangle fit in `i32`.
pub open spec fn uia_rect_fits(r: (i32, i32, i32, i32)) -> bool {
    i32::MIN <= r.2 - r.0 <= i32::MAX && i32::MIN <= r.3 - r.1 <= i32::MAX
}

/// The states a UIA element reports: disabled when not enabled, offscreen,
/// expanded or collapsed, checked, unchecked or indeterminate, selected and
/// read-only, in that order.
pub open spec fn uia_states(
    enabled: Option<bool>,
    offscreen: Option<bool>,
    expand: Option<ExpandState>,
    toggle: Option<ToggleState>,
    selected: Option<bool>,
    read_only: Option<bool>,
) -> Seq<ElementState> {
    let s1 = if enabled == Some(false) { seq![ElementState::Disabled] } else { Seq::empty() };
    let s2 = if offscreen == Some(true) { s1.push(ElementState::Offscreen) } else { s1 };
    let s3 = match expand {
        Some(ExpandState::Expanded) => s2.push(ElementState::Expanded),
        Some(ExpandState::Collapsed) => s2.push(ElementState::Collapsed),
        _ => s2,
    };
    let s4 = match toggle {
        Some(ToggleState::On) => s3.push(ElementState::Checked),
        Some(ToggleState::Off) => s3.push(ElementState::Unchecked),
        Some(ToggleState::Indeterminate) => s3.push(ElementState::Indeterminate),
        None => s3,
    };
    let s5 = if selected == Some(true) { s4.push(ElementState::Selected) } else { s4 };
    if read_only == Some(true) { s5.push(ElementState::ReadOnly) } else { s5 }
}

/// The shortcut of a UIA element: its accelerator key, else its access key,
/// else none.
pub open spec fn uia_shortcut(accelerator_key: Seq<char>, access_key: Seq<char>) -> Option<Seq<char>> {
    if accelerator_key.len() > 0 {
        Some(accelerator_key)
    } else if access_key.len() > 0 {
        Some(access_key)
    } else {
        None
    }
}

/// An element from the attributes a UIA element reports: the role from the
/// control type id, the bounds from the bounding rectangle when it has a
/// positive width and height, the value as given; no children yet.
pub fn element_from_uia(
    id: u64,
    depth: u32,
    name: &str,
    control_type_id: i32,
    value: Option<String>,
    rect: Option<(i32, i32, i32, i32)>,
    enabled: Option<bool>,
    offscreen: Option<bool>,
    expand: Option<ExpandState>,
    toggle: Option<ToggleState>,
    selected: Option<bool>,
    read_only: Option<bool>,
    accelerator_key: &str,
    access_key: &str,
) -> (e: NormalizedElement)
    requires
        rect matches Some(r) ==> uia_rect_fits(r),
    ensures
        e.id == id,
        e.depth == depth,
        e.name@ == name@,
        e.role@ == uia_role(control_type_id as int),
        e.value == value,
        e.bounds == (match rect {
            Some(r) => uia_bounds_of(r),
            None => None,
        }),
        e.states@ == uia_states(enabled, offscreen, expand, toggle, selected, read_only),
        opt_text(e.shortcut) == uia_shortcut(accelerator_key@, access_key@),
        e.children_count == 0,
        e.children@.len() == 0,
{
    let bounds = match rect {
        Some((left, top, right, bottom)) => {
            let w = right - left;
            let h = bottom - top;
            if w > 0 && h > 0 {
                Some(Rect { x: left, y: top, width: w as u32, height: h as u32 })
            } else {
                None
            }
        },
        None => None,
    };
    let mut states: Vec<ElementState> = Vec::new();
    if enabled == Some(false) {
        push_state(&mut states, ElementState::Disabled);
    }
    if offscreen == Some(true) {
        push_state(&mut states, ElementState::Offscreen);
    }
    match expand {
        Some(ExpandState::Expanded) => push_state(&mut states, ElementState::Expanded),
        Some(ExpandState::Collapsed) => push_state(&mut states, ElementState::Collapsed),
        _ => {},
    }
    match toggle {
        Some(ToggleState::On) => push_state(&mut states, ElementState::Checked),
        Some(ToggleState::Off) => push_state(&mut states, ElementState::Unchecked),
        Some(ToggleState::Indeterminate) => push_state(&mut states, ElementState::Indeterminate),
        None => {},
    }
    if selected == Some(true) {
        push_state(&mut states, ElementState::Selected);
    }
    if read_only == Some(true) {
        push_state(&mut states, ElementState::ReadOnly);
    }
    let shortcut = if !accelerator_key.is_empty() {
        Some(owned(accelerator_key))
    } else if !access_key.is_empty() {
        Some(owned(access_key))
    } else {
        None
    };
    NormalizedElement {
        id,
        name: owned(name),
        role: uia_control_type_to_role(control_type_id),
        value,
        bounds,
        states,
        shortcut,
        depth,
        children_count: 0,
        children: Vec::new(),
    }
}

// ---------------------------------------------------------------------------
// The walk
// ---------------------------------------------------------------------------

/// An element with no name, no value and a role that is not interactive
/// carries nothing by itself.
pub open spec fn is_bare(e: NormalizedElement) -> bool {
    e.name@.len() == 0 && e.value is None && !role_is_interactive(e.role)
}

/// Should the walk read the children of a parent whose children sit at
/// `depth`, with `count` elements kept so far?
pub fn may_descend(depth: u32, count: usize) -> (b: bool)
    ensures
        b == (depth < MAX_TREE_DEPTH && count < MAX_TREE_ELEMENTS),
{
    depth < MAX_TREE_DEPTH && count < MAX_TREE_ELEMENTS
}

/// Should the walk read another sibling, with `count` elements kept so far?
pub fn may_read_sibling(count: usize) -> (b: bool)
    ensures
        b == (count < MAX_TREE_ELEMENTS),
{
    count < MAX_TREE_ELEMENTS
}

/// Finish an element once its children are walked: it takes them and their
/// number; it is kept, appended to `level` and counted, unless it is bare
/// and has no children.
pub fn finish_element(
    el: NormalizedElement,
    children: Vec<NormalizedElement>,
    count: &mut usize,
    level: &mut Vec<NormalizedElement>,
)
    requires
        *old(count) < usize::MAX,
    ensures
        ({
            let kept = !is_bare(el) || children@.len() > 0;
            &&& kept ==> *final(count) == *old(count) + 1 && final(level)@.len() == old(level)@.len() + 1
                && final(level)@.drop_last() == old(level)@ && ({
                    let f = final(level)@.last();
                    &&& f.children@ == children@
                    &&& f.children_count == children@.len() as u32
                    &&& f.id == el.id && f.name == el.name && f.role == el.role && f.value == el.value
                    &&& f.bounds == el.bounds && f.states == el.states && f.shortcut == el.shortcut
                    &&& f.depth == el.depth
                })
            &&& !kept ==> *final(count) == *old(count) && final(level)@ == old(level)@
        }),
{
    let bare = el.name.as_str().is_empty() && el.value.is_none() && !el.role.is_interactive();
    let n = children.len();
    if !bare || n > 0 {
        let mut e = el;
        e.children_count = n as u32;
        e.children = children;
        *count = *count + 1;
        let ghost before = level@;
        level.push(e);
        assert(level@.drop_last() =~= before);
    }
}

} // verus!
