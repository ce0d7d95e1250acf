//! The role catalogue's rules: which roles may be created, changed, deleted
//! or saved as global templates, what a new or changed role holds, and which
//! template files name a role.
use vstd::prelude::*;

use crate::currency::owned_str;
use crate::project::{slug_error, CompanionConfig, RoleConfig, RoleStats};
use crate::roster::StatusBinding;
use crate::text::{push_str, str_eq, string_from_chars, texts};
use crate::timefmt::{bytes_of, iso_epoch, parse_iso_epoch_pub};

verus! {

/// The roles every project ships with.
pub open spec fn is_built_in(slug: Seq<char>) -> bool {
    ||| slug == "developer"@
    ||| slug == "manager"@
    ||| slug == "architect"@
    ||| slug == "tester"@
    ||| slug == "moderator"@
}

/// Whether `slug` names a built-in role.
pub fn is_built_in_role(slug: &str) -> (b: bool)
    ensures
        b == is_built_in(slug@),
{
    str_eq(slug, "developer") || str_eq(slug, "manager") || str_eq(slug, "architect") || str_eq(
        slug,
        "tester",
    ) || str_eq(slug, "moderator")
}

/// `pre`, then `slug`, then `post`.
fn framed(pre: &str, slug: &str, post: &str) -> (m: String)
    ensures
        m@ == pre@ + slug@ + post@,
{
    let mut v: Vec<char> = Vec::new();
    push_str(&mut v, pre);
    push_str(&mut v, slug);
    push_str(&mut v, post);
    string_from_chars(&v)
}

pub open spec fn built_in_delete_msg(slug: Seq<char>) -> Seq<char> {
    "Cannot delete built-in role '"@ + slug + "'"@
}

pub open spec fn active_sessions_msg(slug: Seq<char>) -> Seq<char> {
    "Cannot delete role '"@ + slug + "': has active sessions. Remove agents first."@
}

pub open spec fn built_in_template_msg(slug: Seq<char>) -> Seq<char> {
    "Cannot overwrite built-in role '"@ + slug + "' as a global template"@
}

pub open spec fn role_exists_msg(slug: Seq<char>) -> Seq<char> {
    "Role '"@ + slug + "' already exists"@
}

pub open spec fn no_template_msg(slug: Seq<char>) -> Seq<char> {
    "No global template found for '"@ + slug + "'"@
}

/// `now - then`, or 0 when `then` is later.
pub open spec fn elapsed(now: u64, then: u64) -> int {
    if now >= then {
        now - then
    } else {
        0
    }
}

/// The binding is an active session of role `slug` whose last heartbeat
/// parses and is at most `timeout` seconds old.
pub open spec fn live_session_of(b: StatusBinding, slug: Seq<char>, now: u64, timeout: u64) -> bool {
    &&& b.role is Some && b.role->0@ == slug
    &&& b.status is Some && b.status->0@ == "active"@
    &&& match iso_epoch(vstd::utf8::encode_utf8(b.last_heartbeat@)) {
        Some(t) => elapsed(now, t) <= timeout,
        None => false,
    }
}

fn is_live_session(b: &StatusBinding, slug: &str, now: u64, timeout: u64) -> (r: bool)
    ensures
        r == live_session_of(*b, slug@, now, timeout),
{
    let role_match = match &b.role {
        Some(r) => str_eq(r.as_str(), slug),
        None => false,
    };
    let is_active = match &b.status {
        Some(s) => str_eq(s.as_str(), "active"),
        None => false,
    };
    let hb = b.last_heartbeat.as_str();
    proof {
        assert(bytes_of(hb) == vstd::utf8::encode_utf8(b.last_heartbeat@));
    }
    let fresh = match parse_iso_epoch_pub(hb) {
        Some(t) => {
            let age: u64 = if now >= t {
                now - t
            } else {
                0
            };
            age <= timeout
        },
        None => false,
    };
    role_match && is_active && fresh
}

/// Whether role `slug` may be deleted: never a built-in role; then the error
/// met reading the project's heartbeat timeout, if any; never a role with a
/// live session among `bindings` at `now_secs`.
pub fn role_delete_check(
    slug: &str,
    timeout_secs: Result<u64, String>,
    bindings: &Vec<StatusBinding>,
    now_secs: u64,
) -> (r: Result<(), String>)
    ensures
        match r {
            Ok(()) => {
                &&& !is_built_in(slug@)
                &&& timeout_secs is Ok
                &&& forall|i: int|
                    0 <= i < bindings@.len() ==> !live_session_of(
                        #[trigger] bindings@[i],
                        slug@,
                        now_secs,
                        timeout_secs->Ok_0,
                    )
            },
            Err(m) => if is_built_in(slug@) {
                m@ == built_in_delete_msg(slug@)
            } else {
                match timeout_secs {
                    Err(e) => m == e,
                    Ok(t) => m@ == active_sessions_msg(slug@) && exists|i: int|
                        0 <= i < bindings@.len() && live_session_of(
                            #[trigger] bindings@[i],
                            slug@,
                            now_secs,
                            t,
                        ),
                }
            },
        },
{
    if is_built_in_role(slug) {
        return Err(framed("Cannot delete built-in role '", slug, "'"));
    }
    let timeout = match timeout_secs {
        Ok(t) => t,
        Err(e) => return Err(e),
    };
    let mut i: usize = 0;
    while i < bindings.len()
        invariant
            i <= bindings@.len(),
            timeout_secs == Ok::<u64, String>(timeout),
            !is_built_in(slug@),
            forall|j: int| 0 <= j < i ==> !live_session_of(#[trigger] bindings@[j], slug@, now_secs, timeout),
        decreases bindings@.len() - i,
    {
        if is_live_session(&bindings[i], slug, now_secs, timeout) {
            assert(live_session_of(bindings@[i as int], slug@, now_secs, timeout));
            return Err(framed("Cannot delete role '", slug, "': has active sessions. Remove agents first."));
        }
        i = i + 1;
    }
    Ok(())
}

pub open spec fn names_role(e: Option<String>, slug: Seq<char>) -> bool {
    e is Some && e->0@ == slug
}

/// Which entries stay when role `slug` is deleted: those (roster slots or
/// session bindings, each given by its role, if it has one) of another role.
pub fn role_keep_mask(roles: &Vec<Option<String>>, slug: &str) -> (keep: Vec<bool>)
    ensures
        keep@.len() == roles@.len(),
        forall|i: int| 0 <= i < roles@.len() ==> keep@[i] == !names_role(#[trigger] roles@[i], slug@),
{
    let mut keep: Vec<bool> = Vec::new();
    let mut i: usize = 0;
    while i < roles.len()
        invariant
            i <= roles@.len(),
            keep@.len() == i,
            forall|j: int| 0 <= j < i ==> keep@[j] == !names_role(#[trigger] roles@[j], slug@),
        decreases roles@.len() - i,
    {
        let hit = match &roles[i] {
            Some(r) => str_eq(r.as_str(), slug),
            None => false,
        };
        keep.push(!hit);
        i = i + 1;
    }
    keep
}

/// Whether role `slug` may be saved as a global template: its slug is valid
/// and it is not a built-in role.
pub fn role_template_save_check(slug: &str) -> (r: Result<(), String>)
    ensures
        match r {
            Ok(()) => slug_error(slug@) is None && !is_built_in(slug@),
            Err(m) => match slug_error(slug@) {
                Some(e) => m@ == e,
                None => is_built_in(slug@) && m@ == built_in_template_msg(slug@),
            },
        },
{
    crate::project::validate_slug(slug)?;
    if is_built_in_role(slug) {
        return Err(framed("Cannot overwrite built-in role '", slug, "' as a global template"));
    }
    Ok(())
}

/// Whether a global template of `slug` can be removed: one of its two files
/// (definition, briefing) must exist.
pub fn template_presence_check(slug: &str, json_exists: bool, md_exists: bool) -> (r: Result<(), String>)
    ensures
        match r {
            Ok(()) => json_exists || md_exists,
            Err(m) => !json_exists && !md_exists && m@ == no_template_msg(slug@),
        },
{
    if !json_exists && !md_exists {
        return Err(framed("No global template found for '", slug, "'"));
    }
    Ok(())
}

/// The role a template file defines: the file name without its `.json`
/// extension, when it has that extension and something before it.
pub open spec fn template_slug_of(name: Seq<char>) -> Option<Seq<char>> {
    if name.len() > 5 && name.subrange(name.len() - 5, name.len() as int) == ".json"@ {
        Some(name.subrange(0, name.len() - 5))
    } else {
        None
    }
}

/// The role slug of a template file name (see `template_slug_of`).
pub fn template_slug(file_name: &str) -> (r: Option<String>)
    ensures
        match r {
            Some(s) => template_slug_of(file_name@) == Some(s@),
            None => template_slug_of(file_name@) is None,
        },
{
    let cs = crate::text::chars_of(file_name);
    let n = cs.len();
    if n <= 5 {
        return None;
    }
    let tail = crate::text::sub_chars(&cs, n - 5, n);
    if !crate::text::chars_is(&tail, ".json") {
        proof {
            assert(tail@ == file_name@.subrange(n - 5, n as int));
        }
        return None;
    }
    let head = crate::text::sub_chars(&cs, 0, n - 5);
    proof {
        assert(tail@ == file_name@.subrange(n - 5, n as int));
    }
    Some(string_from_chars(&head))
}

/// The slugs that importing global templates adds, in order: each template
/// file's slug that the project does not have yet and that no earlier file
/// already brought.
pub open spec fn import_plan(existing: Seq<Seq<char>>, names: Seq<Seq<char>>) -> Seq<Seq<char>>
    decreases names.len(),
{
    if names.len() == 0 {
        Seq::empty()
    } else {
        let front = import_plan(existing, names.drop_last());
        match template_slug_of(names.last()) {
            Some(s) => if existing.contains(s) || front.contains(s) {
                front
            } else {
                front.push(s)
            },
            None => front,
        }
    }
}

/// Which template files (by name, in listing order) to import into a project
/// whose roles are `existing`.
pub fn templates_to_import(existing: &Vec<String>, file_names: &Vec<String>) -> (v: Vec<String>)
    ensures
        texts(v@) == import_plan(texts(existing@), texts(file_names@)),
{
    let mut out: Vec<String> = Vec::new();
    let mut i: usize = 0;
    while i < file_names.len()
        invariant
            i <= file_names@.len(),
            texts(out@) == import_plan(texts(existing@), texts(file_names@).take(i as int)),
        decreases file_names@.len() - i,
    {
        proof {
            assert(texts(file_names@).take(i + 1).drop_last() =~= texts(file_names@).take(i as int));
            assert(texts(file_names@).take(i + 1).last() == file_names@[i as int]@);
        }
        match template_slug(file_names[i].as_str()) {
            Some(s) => {
                let known = crate::text::contains_text(existing.as_slice(), s.as_str());
                let taken = crate::text::contains_text(out.as_slice(), s.as_str());
                if !known && !taken {
                    let ghost before = out@;
                    out.push(s);
                    proof {
                        assert(texts(out@) =~= texts(before).push(out@.last()@));
                    }
                }
            },
            None => {},
        }
        i = i + 1;
    }
    assert(texts(file_names@).take(file_names@.len() as int) =~= texts(file_names@));
    out
}

/// The role `create_role` adds: a custom role with the given fields, created
/// at `now`; an error when the project has no role catalogue (`existing` is
/// `None`) or already has a role `slug`.
pub fn new_custom_role(
    existing: Option<&Vec<String>>,
    slug: &str,
    title: &str,
    description: &str,
    permissions: Vec<String>,
    max_instances: u32,
    tags: Vec<String>,
    companions: Vec<CompanionConfig>,
    stats: Option<RoleStats>,
    avatar_url: Option<String>,
    now: String,
) -> (r: Result<RoleConfig, String>)
    ensures
        match r {
            Ok(c) => {
                &&& existing is Some && !texts(existing->0@).contains(slug@)
                &&& c.title@ == title@
                &&& c.description@ == description@
                &&& c.max_instances == max_instances
                &&& c.permissions@ == permissions@
                &&& c.created_at@ == now@
                &&& c.tags@ == tags@
                &&& c.companions@ == companions@
                &&& c.custom
                &&& c.stats == stats
                &&& c.avatar_url == avatar_url
            },
            Err(m) => match existing {
                Some(e) => texts(e@).contains(slug@) && m@ == role_exists_msg(slug@),
                None => m@ == "No roles object in project.json"@,
            },
        },
{
    let keys = match existing {
        Some(k) => k,
        None => return Err(owned_str("No roles object in project.json")),
    };
    if crate::text::contains_text(keys.as_slice(), slug) {
        return Err(framed("Role '", slug, "' already exists"));
    }
    Ok(RoleConfig {
        title: owned_str(title),
        description: owned_str(description),
        max_instances,
        permissions,
        created_at: now,
        tags,
        companions,
        custom: true,
        stats,
        avatar_url,
    })
}

/// The changes `update_role` makes to a role: each field given replaces the
/// role's; an empty avatar URL removes it.
#[derive(Debug, Clone)]
pub struct RoleUpdate {
    pub title: Option<String>,
    pub description: Option<String>,
    pub permissions: Option<Vec<String>>,
    pub max_instances: Option<u32>,
    pub tags: Option<Vec<String>>,
    pub companions: Option<Vec<CompanionConfig>>,
    pub stats: Option<RoleStats>,
    pub avatar_url: Option<String>,
}

pub open spec fn patched<T>(old: T, new: Option<T>) -> T {
    match new {
        Some(v) => v,
        None => old,
    }
}

/// The avatar URL after an update: unchanged when none is given, removed when
/// the given one is empty.
pub open spec fn patched_avatar(old: Option<String>, new: Option<String>) -> Option<String> {
    match new {
        Some(u) => if u@.len() == 0 {
            None
        } else {
            Some(u)
        },
        None => old,
    }
}

/// `role` with `u` applied.
pub fn apply_role_update(role: RoleConfig, u: RoleUpdate) -> (c: RoleConfig)
    ensures
        c.title == patched(role.title, u.title),
        c.description == patched(role.description, u.description),
        c.permissions@ == patched(role.permissions, u.permissions)@,
        c.max_instances == patched(role.max_instances, u.max_instances),
        c.tags@ == patched(role.tags, u.tags)@,
        c.companions@ == patched(role.companions, u.companions)@,
        c.stats == match u.stats {
            Some(s) => Some(s),
            None => role.stats,
        },
        c.avatar_url == patched_avatar(role.avatar_url, u.avatar_url),
        c.created_at == role.created_at,
        c.custom == role.custom,
{
    let mut c = role;
    if let Some(t) = u.title {
        c.title = t;
    }
    if let Some(d) = u.description {
        c.description = d;
    }
    if let Some(p) = u.permissions {
        c.permissions = p;
    }
    if let Some(m) = u.max_instances {
        c.max_instances = m;
    }
    if let Some(t) = u.tags {
        c.tags = t;
    }
    if let Some(k) = u.companions {
        c.companions = k;
    }
    if let Some(s) = u.stats {
        c.stats = Some(s);
    }
    if let Some(url) = u.avatar_url {
        if url.as_str().is_empty() {
            c.avatar_url = None;
        } else {
            c.avatar_url = Some(url);
        }
    }
    c
}

/// The role part of a seat label `role:instance`: the text before the first
/// `:` (all of it when there is none), unless that is empty.
pub open spec fn seat_role_of(seat: Seq<char>) -> Option<Seq<char>> {
    let k = first_colon(seat);
    let r = if k < 0 {
        seat
    } else {
        seat.subrange(0, k)
    };
    if r.len() == 0 {
        None
    } else {
        Some(r)
    }
}

/// Position of the first `:`, or -1.
pub open spec fn first_colon(s: Seq<char>) -> int
    decreases s.len(),
{
    if s.len() == 0 {
        -1
    } else if s[0] == ':' {
        0
    } else {
        let k = first_colon(s.drop_first());
        if k < 0 {
            -1
        } else {
            k + 1
        }
    }
}

proof fn lemma_first_colon(s: Seq<char>)
    ensures
        -1 <= first_colon(s) < s.len(),
        first_colon(s) >= 0 ==> s[first_colon(s)] == ':',
        forall|j: int| 0 <= j < s.len() && (first_colon(s) < 0 || j < first_colon(s)) ==> s[j] != ':',
    decreases s.len(),
{
    if s.len() > 0 && s[0] != ':' {
        lemma_first_colon(s.drop_first());
        assert forall|j: int| 0 <= j < s.len() && (first_colon(s) < 0 || j < first_colon(s)) implies s[j] != ':' by {
            if j > 0 {
                assert(s[j] == s.drop_first()[j - 1]);
            }
        }
    }
}

/// The role of a seat label (see `seat_role_of`).
pub fn seat_role(seat: &str) -> (r: Option<String>)
    ensures
        match r {
            Some(x) => seat_role_of(seat@) == Some(x@),
            None => seat_role_of(seat@) is None,
        },
{
    let cs = crate::text::chars_of(seat);
    proof {
        lemma_first_colon(seat@);
    }
    let mut i: usize = 0;
    while i < cs.len() && cs[i] != ':'
        invariant
            i <= cs.len(),
            cs@ == seat@,
            forall|j: int| 0 <= j < i ==> cs@[j] != ':',
            -1 <= first_colon(seat@) < seat@.len(),
            first_colon(seat@) >= 0 ==> seat@[first_colon(seat@)] == ':',
            forall|j: int| 0 <= j < seat@.len() && (first_colon(seat@) < 0 || j < first_colon(seat@)) ==> seat@[j] != ':',
        decreases cs.len() - i,
    {
        i = i + 1;
    }
    proof {
        if i < cs.len() {
            assert(first_colon(seat@) == i);
        } else {
            assert(first_colon(seat@) < 0);
            assert(seat@.subrange(0, i as int) =~= seat@);
        }
    }
    if i == 0 {
        return None;
    }
    Some(string_from_chars(&crate::text::sub_chars(&cs, 0, i)))
}

/// The `adversarial` flag of the first role named `name`, if there is one.
pub open spec fn flag_of(roles: Seq<(String, bool)>, name: Seq<char>) -> Option<bool>
    decreases roles.len(),
{
    if roles.len() == 0 {
        None
    } else if roles[0].0@ == name {
        Some(roles[0].1)
    } else {
        flag_of(roles.drop_first(), name)
    }
}

fn role_flag(roles: &Vec<(String, bool)>, name: &str) -> (r: Option<bool>)
    ensures
        r == flag_of(roles@, name@),
{
    let mut i: usize = 0;
    assert(roles@.skip(0) =~= roles@);
    while i < roles.len()
        invariant
            i <= roles@.len(),
            flag_of(roles@, name@) == flag_of(roles@.skip(i as int), name@),
        decreases roles@.len() - i,
    {
        assert(roles@.skip(i as int).drop_first() =~= roles@.skip(i + 1));
        assert(roles@.skip(i as int)[0] == roles@[i as int]);
        if str_eq(roles[i].0.as_str(), name) {
            return Some(roles[i].1);
        }
        i = i + 1;
    }
    assert(roles@.skip(i as int) =~= Seq::<(String, bool)>::empty());
    None
}

/// A seeded role needs the tag when the project has it untagged.
pub open spec fn needs_adversarial_tag(roles: Seq<(String, bool)>, name: Seq<char>) -> bool {
    flag_of(roles, name) == Some(false)
}

/// Which seeded roles to tag adversarial in a project whose role objects are
/// `roles` (each with its current `adversarial` flag, absent read as false):
/// those it has without the tag, in seed order.
pub fn adversarial_seed_targets(roles: &Vec<(String, bool)>) -> (r: Vec<String>)
    ensures
        texts(r@) == (if needs_adversarial_tag(roles@, "evil-architect"@) {
            seq!["evil-architect"@]
        } else {
            Seq::<Seq<char>>::empty()
        }) + (if needs_adversarial_tag(roles@, "dev-challenger"@) {
            seq!["dev-challenger"@]
        } else {
            Seq::<Seq<char>>::empty()
        }),
{
    let mut r: Vec<String> = Vec::new();
    if role_flag(roles, "evil-architect") == Some(false) {
        r.push(owned_str("evil-architect"));
    }
    let ghost first = r@;
    if role_flag(roles, "dev-challenger") == Some(false) {
        r.push(owned_str("dev-challenger"));
    }
    proof {
        assert(texts(first) =~= (if needs_adversarial_tag(roles@, "evil-architect"@) {
            seq!["evil-architect"@]
        } else {
            Seq::<Seq<char>>::empty()
        }));
    }
    assert(texts(r@) =~= (if needs_adversarial_tag(roles@, "evil-architect"@) {
        seq!["evil-architect"@]
    } else {
        Seq::<Seq<char>>::empty()
    }) + (if needs_adversarial_tag(roles@, "dev-challenger"@) {
        seq!["dev-challenger"@]
    } else {
        Seq::<Seq<char>>::empty()
    }));
    r
}

} // verus!
