//! Role groups (team presets) kept in the project file: where a saved group
//! goes and which groups stay when one is deleted.
use vstd::prelude::*;

use crate::project::{slug_error, validate_slug};
use crate::text::{push_str, str_eq, string_from_chars};

verus! {

/// A role in a role group, with how many instances to launch.
#[derive(Debug, Clone)]
pub struct RoleGroupEntry {
    pub slug: String,
    pub instances: u32,
    pub tags: Vec<String>,
}

/// A role group (team preset).
#[derive(Debug, Clone)]
pub struct RoleGroup {
    pub name: String,
    pub slug: String,
    pub icon: String,
    pub description: String,
    pub roles: Vec<RoleGroupEntry>,
    pub parent: Option<String>,
    pub order: Option<u32>,
}

pub open spec fn slug_is(e: Option<String>, slug: Seq<char>) -> bool {
    e is Some && e->0@ == slug
}

/// Position of the first group with slug `slug` (`None` for none), among
/// the groups' slugs (`None` for a group without a text slug).
pub open spec fn group_position(slugs: Seq<Option<String>>, slug: Seq<char>) -> Option<int>
    decreases slugs.len(),
{
    if slugs.len() == 0 {
        None
    } else if slug_is(slugs[0], slug) {
        Some(0)
    } else {
        match group_position(slugs.drop_first(), slug) {
            Some(i) => Some(i + 1),
            None => None,
        }
    }
}

proof fn lemma_group_position(slugs: Seq<Option<String>>, slug: Seq<char>)
    ensures
        match group_position(slugs, slug) {
            Some(i) => 0 <= i < slugs.len() && slug_is(slugs[i], slug) && forall|j: int|
                0 <= j < i ==> !slug_is(#[trigger] slugs[j], slug),
            None => forall|j: int| 0 <= j < slugs.len() ==> !slug_is(#[trigger] slugs[j], slug),
        },
    decreases slugs.len(),
{
    if slugs.len() > 0 && !slug_is(slugs[0], slug) {
        lemma_group_position(slugs.drop_first(), slug);
        assert forall|j: int| 0 < j < slugs.len() implies slugs[j] == slugs.drop_first()[j - 1] by {}
    }
}

/// Where saving `group` puts it among the existing groups (their slugs):
/// in place of the first group with its slug, or appended (`None`); an
/// error when its slug is not a valid slug.
pub fn save_role_group_plan(group: &RoleGroup, existing: &Vec<Option<String>>) -> (r: Result<Option<usize>, String>)
    ensures
        match r {
            Ok(p) => slug_error(group.slug@) is None && match p {
                Some(i) => group_position(existing@, group.slug@) == Some(i as int),
                None => group_position(existing@, group.slug@) is None,
            },
            Err(m) => slug_error(group.slug@) == Some(m@),
        },
{
    validate_slug(group.slug.as_str())?;
    proof {
        lemma_group_position(existing@, group.slug@);
    }
    let mut i: usize = 0;
    while i < existing.len()
        invariant
            i <= existing.len(),
            slug_error(group.slug@) is None,
            forall|j: int| 0 <= j < i ==> !slug_is(#[trigger] existing@[j], group.slug@),
            match group_position(existing@, group.slug@) {
                Some(k) => 0 <= k < existing@.len() && slug_is(existing@[k], group.slug@) && forall|j: int|
                    0 <= j < k ==> !slug_is(#[trigger] existing@[j], group.slug@),
                None => forall|j: int| 0 <= j < existing@.len() ==> !slug_is(#[trigger] existing@[j], group.slug@),
            },
        decreases existing.len() - i,
    {
        let hit = match &existing[i] {
            Some(s) => str_eq(s.as_str(), group.slug.as_str()),
            None => false,
        };
        if hit {
            proof {
                assert(slug_is(existing@[i as int], group.slug@));
                match group_position(existing@, group.slug@) {
                    Some(k) => {
                        if k > i {
                            assert(!slug_is(existing@[i as int], group.slug@));
                        }
                    },
                    None => {
                        assert(!slug_is(existing@[i as int], group.slug@));
                    },
                }
            }
            return Ok(Some(i));
        }
        i = i + 1;
    }
    Ok(None)
}

pub open spec fn group_not_found_msg(slug: Seq<char>) -> Seq<char> {
    "Role group '"@ + slug + "' not found"@
}

/// Which groups stay when group `slug` is deleted from `existing` (the
/// groups' slugs, `None` when the project file has no group list): an error
/// for an invalid slug, a missing list, or no group with that slug.
pub fn role_group_removal(existing: Option<&Vec<Option<String>>>, slug: &str) -> (r: Result<Vec<bool>, String>)
    ensures
        match r {
            Ok(v) => slug_error(slug@) is None && existing is Some && v@.len() == existing->0@.len() && (forall|i: int|
                0 <= i < v@.len() ==> v@[i] == !slug_is(#[trigger] existing->0@[i], slug@)) && exists|i: int|
                0 <= i < v@.len() && !v@[i],
            Err(m) => match slug_error(slug@) {
                Some(e) => m@ == e,
                None => match existing {
                    None => m@ == "No role_groups in project.json"@,
                    Some(gs) => m@ == group_not_found_msg(slug@) && forall|i: int|
                        0 <= i < gs@.len() ==> !slug_is(#[trigger] gs@[i], slug@),
                },
            },
        },
{
    validate_slug(slug)?;
    let gs = match existing {
        Some(gs) => gs,
        None => return Err("No role_groups in project.json".to_string()),
    };
    let mut keep: Vec<bool> = Vec::new();
    let mut any = false;
    let mut i: usize = 0;
    while i < gs.len()
        invariant
            i <= gs.len(),
            keep@.len() == i,
            forall|k: int| 0 <= k < i ==> keep@[k] == !slug_is(#[trigger] gs@[k], slug@),
            any == exists|k: int| 0 <= k < i && !keep@[k],
        decreases gs.len() - i,
    {
        let hit = match &gs[i] {
            Some(s) => str_eq(s.as_str(), slug),
            None => false,
        };
        let ghost before = keep@;
        keep.push(!hit);
        proof {
            assert(forall|k: int| 0 <= k < i ==> keep@[k] == before[k]);
            if hit {
                assert(!keep@[i as int]);
            }
        }
        if hit {
            any = true;
        }
        i = i + 1;
    }
    if !any {
        let mut m: Vec<char> = Vec::new();
        push_str(&mut m, "Role group '");
        push_str(&mut m, slug);
        push_str(&mut m, "' not found");
        proof {
            reveal_strlit("Role group '");
            reveal_strlit("' not found");
            assert forall|k: int| 0 <= k < gs@.len() implies !slug_is(#[trigger] gs@[k], slug@) by {
                assert(keep@[k]);
            }
        }
        return Err(string_from_chars(&m));
    }
    Ok(keep)
}

} // verus!
