//! The spoken announcement of a newly focused element: its name, a friendly
//! word for its role, and its value.
use vstd::prelude::*;

use crate::text::{chars_of, push_chars, push_str, str_eq, string_from_chars};

verus! {

/// The spoken word for a normalized role name (empty for roles not spoken).
pub open spec fn friendly_role(role: Seq<char>) -> Seq<char> {
    if role == "TextInput"@ {
        "edit field"@
    } else if role == "TextArea"@ {
        "text area"@
    } else if role == "Button"@ {
        "button"@
    } else if role == "Checkbox"@ {
        "checkbox"@
    } else if role == "RadioButton"@ {
        "radio button"@
    } else if role == "ComboBox"@ {
        "combo box"@
    } else if role == "Tab"@ || role == "TabItem"@ {
        "tab"@
    } else if role == "MenuItem"@ {
        "menu item"@
    } else if role == "Link"@ {
        "link"@
    } else if role == "ListItem"@ {
        "list item"@
    } else if role == "TreeItem"@ {
        "tree item"@
    } else if role == "Slider"@ {
        "slider"@
    } else if role == "Spinner"@ {
        "spin button"@
    } else {
        ""@
    }
}

/// The value as spoken: cut to 50 characters followed by `...` when longer.
pub open spec fn spoken_value(value: Seq<char>) -> Seq<char> {
    if value.len() > 50 {
        value.take(50) + "..."@
    } else {
        value
    }
}

/// The parts of an announcement: the name when there is one, the role's
/// word when it has one, and the value when there is one (`empty` for an
/// empty edit field).
pub open spec fn announcement_parts(name: Seq<char>, role: Seq<char>, value: Seq<char>) -> Seq<Seq<char>> {
    let p1 = if name.len() > 0 { seq![name] } else { Seq::<Seq<char>>::empty() };
    let f = friendly_role(role);
    let p2 = if f.len() > 0 { p1.push(f) } else { p1 };
    if value.len() > 0 {
        p2.push(spoken_value(value))
    } else if role == "TextInput"@ {
        p2.push("empty"@)
    } else {
        p2
    }
}

/// The parts joined with `sep` between them.
pub open spec fn join_parts(parts: Seq<Seq<char>>, sep: Seq<char>) -> Seq<char>
    decreases parts.len(),
{
    if parts.len() == 0 {
        Seq::empty()
    } else if parts.len() == 1 {
        parts[0]
    } else {
        join_parts(parts.drop_last(), sep) + sep + parts.last()
    }
}

fn friendly_role_exec(role: &str) -> (r: &'static str)
    ensures
        r@ == friendly_role(role@),
{
    proof {
        reveal_strlit("TextInput");
        reveal_strlit("TextArea");
        reveal_strlit("Button");
        reveal_strlit("Checkbox");
        reveal_strlit("RadioButton");
        reveal_strlit("ComboBox");
        reveal_strlit("Tab");
        reveal_strlit("TabItem");
        reveal_strlit("MenuItem");
        reveal_strlit("Link");
        reveal_strlit("ListItem");
        reveal_strlit("TreeItem");
        reveal_strlit("Slider");
        reveal_strlit("Spinner");
    }
    if str_eq(role, "TextInput") {
        "edit field"
    } else if str_eq(role, "TextArea") {
        "text area"
    } else if str_eq(role, "Button") {
        "button"
    } else if str_eq(role, "Checkbox") {
        "checkbox"
    } else if str_eq(role, "RadioButton") {
        "radio button"
    } else if str_eq(role, "ComboBox") {
        "combo box"
    } else if str_eq(role, "Tab") || str_eq(role, "TabItem") {
        "tab"
    } else if str_eq(role, "MenuItem") {
        "menu item"
    } else if str_eq(role, "Link") {
        "link"
    } else if str_eq(role, "ListItem") {
        "list item"
    } else if str_eq(role, "TreeItem") {
        "tree item"
    } else if str_eq(role, "Slider") {
        "slider"
    } else if str_eq(role, "Spinner") {
        "spin button"
    } else {
        ""
    }
}

fn push_part(out: &mut Vec<char>, count: &mut usize, part: &Vec<char>, Ghost(parts): Ghost<Seq<Seq<char>>>)
    requires
        old(out)@ == join_parts(parts, ", "@),
        *old(count) == parts.len(),
        parts.len() < 4,
    ensures
        final(out)@ == join_parts(parts.push(part@), ", "@),
        *final(count) == parts.len() + 1,
{
    proof {
        reveal_strlit(", ");
        assert(parts.push(part@).drop_last() =~= parts);
    }
    if *count > 0 {
        push_str(out, ", ");
    }
    push_chars(out, part);
    *count = *count + 1;
    proof {
        if parts.len() == 0 {
            assert(parts.push(part@)[0] == part@);
            assert(old(out)@ =~= Seq::<char>::empty());
            assert(final(out)@ =~= part@);
        }
    }
}

/// What is spoken when an element gains focus: its name, its role's word
/// and its value, joined by `, `.
pub fn build_announcement(name: &str, role: &str, value: &str) -> (r: String)
    ensures
        r@ == join_parts(announcement_parts(name@, role@, value@), ", "@),
{
    let mut out: Vec<char> = Vec::new();
    let mut count: usize = 0;
    let ghost mut parts: Seq<Seq<char>> = Seq::empty();
    let name_chars = chars_of(name);
    if name_chars.len() > 0 {
        push_part(&mut out, &mut count, &name_chars, Ghost(parts));
        proof {
            parts = parts.push(name@);
        }
    }
    let f = friendly_role_exec(role);
    let fc = chars_of(f);
    if fc.len() > 0 {
        push_part(&mut out, &mut count, &fc, Ghost(parts));
        proof {
            parts = parts.push(fc@);
        }
    }
    let vc = chars_of(value);
    proof {
        reveal_strlit("TextInput");
        reveal_strlit("...");
        reveal_strlit("empty");
    }
    if vc.len() > 0 {
        let mut shown: Vec<char> = Vec::new();
        if vc.len() > 50 {
            let mut k: usize = 0;
            while k < 50
                invariant
                    k <= 50,
                    vc.len() > 50,
                    shown@ == vc@.take(k as int),
                decreases 50 - k,
            {
                shown.push(vc[k]);
                proof {
                    assert(vc@.take(k + 1) =~= vc@.take(k as int).push(vc@[k as int]));
                }
                k = k + 1;
            }
            push_str(&mut shown, "...");
        } else {
            push_chars(&mut shown, &vc);
            proof {
                assert(shown@ =~= vc@);
            }
        }
        push_part(&mut out, &mut count, &shown, Ghost(parts));
        proof {
            parts = parts.push(shown@);
        }
    } else if str_eq(role, "TextInput") {
        let mut e: Vec<char> = Vec::new();
        push_str(&mut e, "empty");
        push_part(&mut out, &mut count, &e, Ghost(parts));
        proof {
            parts = parts.push(e@);
        }
    }
    proof {
        assert(parts =~= announcement_parts(name@, role@, value@));
    }
    string_from_chars(&out)
}


/// The word each role is spoken as, one pair per role that has a word.
pub open spec fn role_words() -> Seq<(Seq<char>, Seq<char>)> {
    seq![
        ("TextInput"@, "edit field"@),
        ("TextArea"@, "text area"@),
        ("Button"@, "button"@),
        ("Checkbox"@, "checkbox"@),
        ("RadioButton"@, "radio button"@),
        ("ComboBox"@, "combo box"@),
        ("Tab"@, "tab"@),
        ("TabItem"@, "tab"@),
        ("MenuItem"@, "menu item"@),
        ("Link"@, "link"@),
        ("ListItem"@, "list item"@),
        ("TreeItem"@, "tree item"@),
        ("Slider"@, "slider"@),
        ("Spinner"@, "spin button"@),
    ]
}

/// Each role of the table is spoken as its word, and a named element of
/// such a role (other than an edit field) with no value is announced as its
/// name, a comma and that word.
pub proof fn law_role_words(name: Seq<char>)
    requires
        name.len() > 0,
    ensures
        forall|i: int| 0 <= i < role_words().len() ==> friendly_role(#[trigger] role_words()[i].0) == role_words()[i].1,
        forall|i: int|
            1 <= i < role_words().len() ==> join_parts(announcement_parts(name, #[trigger] role_words()[i].0, ""@), ", "@)
                == name + ", "@ + role_words()[i].1,
{
    reveal_strlit("TextInput");
    reveal_strlit("TextArea");
    reveal_strlit("Button");
    reveal_strlit("Checkbox");
    reveal_strlit("RadioButton");
    reveal_strlit("ComboBox");
    reveal_strlit("Tab");
    reveal_strlit("TabItem");
    reveal_strlit("MenuItem");
    reveal_strlit("Link");
    reveal_strlit("ListItem");
    reveal_strlit("TreeItem");
    reveal_strlit("Slider");
    reveal_strlit("Spinner");
    reveal_strlit("edit field");
    reveal_strlit("text area");
    reveal_strlit("button");
    reveal_strlit("checkbox");
    reveal_strlit("radio button");
    reveal_strlit("combo box");
    reveal_strlit("tab");
    reveal_strlit("menu item");
    reveal_strlit("link");
    reveal_strlit("list item");
    reveal_strlit("tree item");
    reveal_strlit("slider");
    reveal_strlit("spin button");
    reveal_strlit("");
    assert("Button"@[0] != "Slider"@[0]);
    assert("TabItem"@[0] != "Spinner"@[0]);
    assert("TextArea"@[0] != "Checkbox"@[0]);
    assert("TextArea"@[0] != "ComboBox"@[0]);
    assert("TextArea"@[0] != "MenuItem"@[0]);
    assert("TextArea"@[0] != "ListItem"@[0]);
    assert("TextArea"@[1] != "TreeItem"@[1]);
    assert("Checkbox"@[1] != "ComboBox"@[1]);
    assert("Checkbox"@[0] != "MenuItem"@[0]);
    assert("Checkbox"@[0] != "ListItem"@[0]);
    assert("Checkbox"@[0] != "TreeItem"@[0]);
    assert("ComboBox"@[0] != "MenuItem"@[0]);
    assert("ComboBox"@[0] != "ListItem"@[0]);
    assert("ComboBox"@[0] != "TreeItem"@[0]);
    assert("MenuItem"@[0] != "ListItem"@[0]);
    assert("MenuItem"@[0] != "TreeItem"@[0]);
    assert("ListItem"@[0] != "TreeItem"@[0]);
    assert("TextInput"@.len() == 9);
    assert("TextArea"@.len() == 8);
    assert("Button"@.len() == 6);
    assert("Checkbox"@.len() == 8);
    assert("RadioButton"@.len() == 11);
    assert("ComboBox"@.len() == 8);
    assert("Tab"@.len() == 3);
    assert("TabItem"@.len() == 7);
    assert("MenuItem"@.len() == 8);
    assert("Link"@.len() == 4);
    assert("ListItem"@.len() == 8);
    assert("TreeItem"@.len() == 8);
    assert("Slider"@.len() == 6);
    assert("Spinner"@.len() == 7);
    let w = role_words();
    assert forall|i: int| 0 <= i < w.len() implies friendly_role(#[trigger] w[i].0) == w[i].1 by {
        if i == 0 {
        } else if i == 1 {
        } else if i == 2 {
        } else if i == 3 {
        } else if i == 4 {
        } else if i == 5 {
        } else if i == 6 {
        } else if i == 7 {
        } else if i == 8 {
        } else if i == 9 {
        } else if i == 10 {
        } else if i == 11 {
        } else if i == 12 {
        } else {
        }
    }
    assert forall|i: int| 1 <= i < w.len() implies join_parts(announcement_parts(name, #[trigger] w[i].0, ""@), ", "@)
        == name + ", "@ + w[i].1 by {
        assert(friendly_role(w[i].0) == w[i].1);
        assert(w[i].1.len() > 0);
        assert(w[i].0 != "TextInput"@);
        let p = seq![name].push(w[i].1);
        assert(announcement_parts(name, w[i].0, ""@) == p);
        assert(p.drop_last() == seq![name]);
        assert(join_parts(seq![name], ", "@) == name);
    }
}


/// A role outside the table has no spoken word: a named element of such a
/// role with no value is announced by its name alone.
pub proof fn law_unlisted_roles_silent(name: Seq<char>, role: Seq<char>)
    requires
        name.len() > 0,
        forall|i: int| 0 <= i < role_words().len() ==> #[trigger] role_words()[i].0 != role,
    ensures
        friendly_role(role).len() == 0,
        join_parts(announcement_parts(name, role, ""@), ", "@) == name,
{
    reveal_strlit("");
    let w = role_words();
    assert(w[0].0 != role);
    assert(w[1].0 != role);
    assert(w[2].0 != role);
    assert(w[3].0 != role);
    assert(w[4].0 != role);
    assert(w[5].0 != role);
    assert(w[6].0 != role);
    assert(w[7].0 != role);
    assert(w[8].0 != role);
    assert(w[9].0 != role);
    assert(w[10].0 != role);
    assert(w[11].0 != role);
    assert(w[12].0 != role);
    assert(w[13].0 != role);
    assert(""@.len() == 0);
    assert(announcement_parts(name, role, ""@) == seq![name]);
}

} // verus!
