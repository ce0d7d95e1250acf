//! The team launcher's bookkeeping: the join prompt handed to a new agent,
//! the shell command that starts it, the list of spawned agents, and the
//! fixed-width timestamps of the agents' heartbeats.
use vstd::prelude::*;

use crate::currency::{owned_str, tdiv, trunc_div};
use crate::text::{has_prefix, push_str, str_eq, string_from_chars, texts, text_le, text_le_exec, lemma_text_le_refl, lemma_text_le_total, lemma_text_le_trans};
use crate::timefmt::{bytes_of, digits_value, parse_i64_spec, all_digit_bytes, is_digit_byte};

verus! {

/// An agent started from the team launcher.
#[derive(Debug, Clone)]
pub struct SpawnedAgent {
    pub pid: u32,
    pub role: String,
    pub instance: i32,
    /// Fixed-width `YYYY-MM-DDTHH:MM:SSZ`, so text order is time order.
    pub spawned_at: String,
}

/// A spawned-agent record with a fresh liveness probe.
#[derive(Debug, Clone)]
pub struct SpawnedManifestEntry {
    pub role: String,
    pub instance: i32,
    pub pid: u32,
    pub spawned_at: String,
    pub alive: bool,
}

/// The macOS permissions the app needs (all `true` elsewhere).
#[derive(Debug, Clone)]
pub struct MacPermissions {
    pub automation: bool,
    pub accessibility: bool,
    pub screen_recording: bool,
    pub platform: String,
}

// ---------------------------------------------------------------------------
// Join prompt and launch command
// ---------------------------------------------------------------------------

pub open spec fn join_prompt(role: Seq<char>) -> Seq<char> {
    "Join this project as a "@ + role + " using the mcp vaak project_join tool with role "@ + role
        + ". Then call project_wait in a loop to stay available for messages."@
}

/// The prompt a new agent starts with: join the project in `role`, then wait
/// for messages.
pub fn build_join_prompt(role: &str) -> (r: String)
    ensures
        r@ == join_prompt(role@),
{
    let mut v: Vec<char> = Vec::new();
    push_str(&mut v, "Join this project as a ");
    push_str(&mut v, role);
    push_str(&mut v, " using the mcp vaak project_join tool with role ");
    push_str(&mut v, role);
    push_str(&mut v, ". Then call project_wait in a loop to stay available for messages.");
    string_from_chars(&v)
}

/// `s` with every `'` written as `'\''`, for use inside single quotes in a
/// POSIX shell.
pub open spec fn sh_escape(s: Seq<char>) -> Seq<char>
    decreases s.len(),
{
    if s.len() == 0 {
        Seq::empty()
    } else if s.last() == '\'' {
        sh_escape(s.drop_last()) + seq!['\'', '\\', '\'', '\'']
    } else {
        sh_escape(s.drop_last()).push(s.last())
    }
}

pub(crate) fn push_sh_escaped(v: &mut Vec<char>, s: &str)
    ensures
        final(v)@ == old(v)@ + sh_escape(s@),
{
    let cs = crate::text::chars_of(s);
    let mut i: usize = 0;
    assert(cs@.take(0) =~= Seq::<char>::empty());
    while i < cs.len()
        invariant
            i <= cs.len(),
            cs@ == s@,
            v@ == old(v)@ + sh_escape(cs@.take(i as int)),
        decreases cs.len() - i,
    {
        proof {
            assert(cs@.take(i + 1).drop_last() =~= cs@.take(i as int));
            assert(cs@.take(i + 1).last() == cs@[i as int]);
        }
        if cs[i] == '\'' {
            v.push('\'');
            v.push('\\');
            v.push('\'');
            v.push('\'');
        } else {
            v.push(cs[i]);
        }
        i = i + 1;
    }
    assert(cs@.take(cs.len() as int) =~= cs@);
}

pub open spec fn bash_command(project_dir: Seq<char>, role: Seq<char>, cli: Seq<char>) -> Seq<char> {
    "cd '"@ + sh_escape(project_dir) + "' && "@ + cli + " --dangerously-skip-permissions '"@ + sh_escape(
        join_prompt(role),
    ) + "'"@
}

/// The `bash -c` command that starts an agent on Linux: enter the project
/// directory and run the agent program `cli` with the join prompt, the
/// directory and the prompt single-quoted.
pub fn linux_launch_command(project_dir: &str, role: &str, cli: &str) -> (r: String)
    ensures
        r@ == bash_command(project_dir@, role@, cli@),
{
    let prompt = build_join_prompt(role);
    let mut v: Vec<char> = Vec::new();
    push_str(&mut v, "cd '");
    push_sh_escaped(&mut v, project_dir);
    push_str(&mut v, "' && ");
    push_str(&mut v, cli);
    push_str(&mut v, " --dangerously-skip-permissions '");
    push_sh_escaped(&mut v, prompt.as_str());
    push_str(&mut v, "'");
    string_from_chars(&v)
}

// ---------------------------------------------------------------------------
// The spawned-agent list
// ---------------------------------------------------------------------------

pub open spec fn is_agent(a: SpawnedAgent, role: Seq<char>, instance: i32) -> bool {
    a.role@ == role && a.instance == instance
}

/// The agents other than `role:instance`, in order.
pub open spec fn without_agent(s: Seq<SpawnedAgent>, role: Seq<char>, instance: i32) -> Seq<SpawnedAgent>
    decreases s.len(),
{
    if s.len() == 0 {
        Seq::empty()
    } else if is_agent(s.last(), role, instance) {
        without_agent(s.drop_last(), role, instance)
    } else {
        without_agent(s.drop_last(), role, instance).push(s.last())
    }
}

/// How many agents have this role.
pub open spec fn role_count(s: Seq<SpawnedAgent>, role: Seq<char>) -> nat
    decreases s.len(),
{
    if s.len() == 0 {
        0
    } else {
        role_count(s.drop_last(), role) + if s.last().role@ == role { 1nat } else { 0nat }
    }
}

fn copy_agent(a: &SpawnedAgent) -> (c: SpawnedAgent)
    ensures
        c.pid == a.pid,
        c.role@ == a.role@,
        c.instance == a.instance,
        c.spawned_at@ == a.spawned_at@,
{
    SpawnedAgent { pid: a.pid, role: a.role.clone(), instance: a.instance, spawned_at: a.spawned_at.clone() }
}

pub open spec fn same_agent(a: SpawnedAgent, b: SpawnedAgent) -> bool {
    a.pid == b.pid && a.role@ == b.role@ && a.instance == b.instance && a.spawned_at@ == b.spawned_at@
}

pub open spec fn same_agents(a: Seq<SpawnedAgent>, b: Seq<SpawnedAgent>) -> bool {
    a.len() == b.len() && forall|i: int| 0 <= i < a.len() ==> same_agent(#[trigger] a[i], b[i])
}

/// Drop every `role:instance` entry, keeping the order of the rest.
pub fn remove_agent(agents: &Vec<SpawnedAgent>, role: &str, instance: i32) -> (r: Vec<SpawnedAgent>)
    ensures
        same_agents(r@, without_agent(agents@, role@, instance)),
{
    let mut r: Vec<SpawnedAgent> = Vec::new();
    let mut i: usize = 0;
    assert(agents@.take(0) =~= Seq::<SpawnedAgent>::empty());
    while i < agents.len()
        invariant
            i <= agents.len(),
            same_agents(r@, without_agent(agents@.take(i as int), role@, instance)),
        decreases agents.len() - i,
    {
        proof {
            assert(agents@.take(i + 1).drop_last() =~= agents@.take(i as int));
            assert(agents@.take(i + 1).last() == agents@[i as int]);
        }
        let a = &agents[i];
        if !(str_eq(a.role.as_str(), role) && a.instance == instance) {
            let ghost before = r@;
            r.push(copy_agent(a));
            proof {
                let w = without_agent(agents@.take(i + 1), role@, instance);
                assert forall|j: int| 0 <= j < r@.len() implies same_agent(#[trigger] r@[j], w[j]) by {
                    if j < before.len() {
                        assert(r@[j] == before[j]);
                    }
                }
            }
        }
        i = i + 1;
    }
    assert(agents@.take(agents.len() as int) =~= agents@);
    r
}

/// Take out the first `role:instance` entry, if any (the rest keep their order).
pub fn take_agent(agents: &mut Vec<SpawnedAgent>, role: &str, instance: i32) -> (r: Option<SpawnedAgent>)
    ensures
        match r {
            Some(a) => exists|i: int|
                0 <= i < old(agents)@.len() && is_agent(old(agents)@[i], role@, instance) && a == old(
                    agents,
                )@[i] && final(agents)@ == old(agents)@.remove(i) && (forall|j: int|
                    0 <= j < i ==> !is_agent(#[trigger] old(agents)@[j], role@, instance)),
            None => final(agents)@ == old(agents)@ && forall|j: int|
                0 <= j < old(agents)@.len() ==> !is_agent(#[trigger] old(agents)@[j], role@, instance),
        },
{
    let mut i: usize = 0;
    while i < agents.len()
        invariant
            i <= agents.len(),
            agents@ == old(agents)@,
            forall|j: int| 0 <= j < i ==> !is_agent(#[trigger] agents@[j], role@, instance),
        decreases agents.len() - i,
    {
        if str_eq(agents[i].role.as_str(), role) && agents[i].instance == instance {
            let a = agents.remove(i);
            return Some(a);
        }
        i = i + 1;
    }
    None
}

/// Record a newly started agent: its instance is the roster's when given,
/// else the count of agents already holding the role; any earlier entry for
/// that `role:instance` is dropped and the new one appended. Returns the
/// entry (the caller merges it into the manifest on disk the same way).
pub fn register_spawned(
    spawned: &mut Vec<SpawnedAgent>,
    pid: u32,
    role: &str,
    roster_instance: Option<i32>,
    now: &str,
) -> (entry: SpawnedAgent)
    ensures
        entry.pid == pid,
        entry.role@ == role@,
        entry.spawned_at@ == now@,
        entry.instance == match roster_instance {
            Some(i) => i,
            None => role_count(old(spawned)@, role@) as i32,
        },
        final(spawned)@.len() == without_agent(old(spawned)@, role@, entry.instance).len() + 1,
        same_agents(final(spawned)@.drop_last(), without_agent(old(spawned)@, role@, entry.instance)),
        same_agent(final(spawned)@.last(), entry),
{
    let instance: i32 = match roster_instance {
        Some(i) => i,
        None => {
            let mut n: usize = 0;
            let mut i: usize = 0;
            assert(spawned@.take(0) =~= Seq::<SpawnedAgent>::empty());
            while i < spawned.len()
                invariant
                    i <= spawned.len(),
                    n <= i,
                    n == role_count(spawned@.take(i as int), role@),
                decreases spawned.len() - i,
            {
                proof {
                    assert(spawned@.take(i + 1).drop_last() =~= spawned@.take(i as int));
                    assert(spawned@.take(i + 1).last() == spawned@[i as int]);
                }
                if str_eq(spawned[i].role.as_str(), role) {
                    n = n + 1;
                }
                i = i + 1;
            }
            assert(spawned@.take(spawned.len() as int) =~= spawned@);
            n as i32
        },
    };
    let mut kept = remove_agent(spawned, role, instance);
    let entry = SpawnedAgent { pid, role: owned_str(role), instance, spawned_at: owned_str(now) };
    kept.push(copy_agent(&entry));
    proof {
        assert(kept@.drop_last() =~= kept@.take(kept@.len() - 1));
        let w = without_agent(old(spawned)@, role@, instance);
        assert forall|j: int| 0 <= j < kept@.drop_last().len() implies same_agent(#[trigger] kept@.drop_last()[j], w[j]) by {
            assert(kept@.drop_last()[j] == kept@[j]);
        }
    }
    *spawned = kept;
    entry
}

/// The agents of any role but `role`, in order.
pub open spec fn without_role(s: Seq<SpawnedAgent>, role: Seq<char>) -> Seq<SpawnedAgent>
    decreases s.len(),
{
    if s.len() == 0 {
        Seq::empty()
    } else if s.last().role@ == role {
        without_role(s.drop_last(), role)
    } else {
        without_role(s.drop_last(), role).push(s.last())
    }
}

/// Drop every agent of `role` (any instance), keeping the order of the rest.
pub fn remove_role(agents: &Vec<SpawnedAgent>, role: &str) -> (r: Vec<SpawnedAgent>)
    ensures
        same_agents(r@, without_role(agents@, role@)),
{
    let mut r: Vec<SpawnedAgent> = Vec::new();
    let mut i: usize = 0;
    assert(agents@.take(0) =~= Seq::<SpawnedAgent>::empty());
    while i < agents.len()
        invariant
            i <= agents.len(),
            same_agents(r@, without_role(agents@.take(i as int), role@)),
        decreases agents.len() - i,
    {
        proof {
            assert(agents@.take(i + 1).drop_last() =~= agents@.take(i as int));
            assert(agents@.take(i + 1).last() == agents@[i as int]);
        }
        let a = &agents[i];
        if !str_eq(a.role.as_str(), role) {
            let ghost before = r@;
            r.push(copy_agent(a));
            proof {
                let w = without_role(agents@.take(i + 1), role@);
                assert forall|j: int| 0 <= j < r@.len() implies same_agent(#[trigger] r@[j], w[j]) by {
                    if j < before.len() {
                        assert(r@[j] == before[j]);
                    }
                }
            }
        }
        i = i + 1;
    }
    assert(agents@.take(agents.len() as int) =~= agents@);
    r
}

/// Take out the first agent of `role` (any instance), if any.
pub fn take_role(agents: &mut Vec<SpawnedAgent>, role: &str) -> (r: Option<SpawnedAgent>)
    ensures
        match r {
            Some(a) => exists|i: int|
                0 <= i < old(agents)@.len() && old(agents)@[i].role@ == role@ && a == old(agents)@[i]
                    && final(agents)@ == old(agents)@.remove(i) && (forall|j: int|
                    0 <= j < i ==> (#[trigger] old(agents)@[j]).role@ != role@),
            None => final(agents)@ == old(agents)@ && forall|j: int|
                0 <= j < old(agents)@.len() ==> (#[trigger] old(agents)@[j]).role@ != role@,
        },
{
    let mut i: usize = 0;
    while i < agents.len()
        invariant
            i <= agents.len(),
            agents@ == old(agents)@,
            forall|j: int| 0 <= j < i ==> (#[trigger] agents@[j]).role@ != role@,
        decreases agents.len() - i,
    {
        if str_eq(agents[i].role.as_str(), role) {
            let a = agents.remove(i);
            return Some(a);
        }
        i = i + 1;
    }
    None
}

// ---------------------------------------------------------------------------
// Companion roles
// ---------------------------------------------------------------------------

/// A companion as listed under a role in the project file: a bare role
/// slug, an object with optional `role` and `default_enabled` entries, or
/// anything else.
#[derive(Debug, Clone)]
pub enum CompanionSpec {
    Slug(String),
    Object { role: Option<String>, default_enabled: Option<bool> },
    Other,
}

/// The companions that name a role, each with whether it starts enabled
/// (a bare slug, or an object without `default_enabled`, starts enabled).
pub open spec fn companions_spec(s: Seq<CompanionSpec>) -> Seq<(Seq<char>, bool)>
    decreases s.len(),
{
    if s.len() == 0 {
        Seq::empty()
    } else {
        let rest = companions_spec(s.drop_last());
        match s.last() {
            CompanionSpec::Slug(r) => rest.push((r@, true)),
            CompanionSpec::Object { role, default_enabled } => match role {
                Some(r) => rest.push(
                    (
                        r@,
                        match default_enabled {
                            Some(b) => b,
                            None => true,
                        },
                    ),
                ),
                None => rest,
            },
            CompanionSpec::Other => rest,
        }
    }
}

/// The companion roles of a role, from its list in the project file.
pub fn get_companions(entries: &Vec<CompanionSpec>) -> (r: Vec<(String, bool)>)
    ensures
        r@.map_values(|p: (String, bool)| (p.0@, p.1)) == companions_spec(entries@),
{
    let mut r: Vec<(String, bool)> = Vec::new();
    let mut i: usize = 0;
    assert(entries@.take(0) =~= Seq::<CompanionSpec>::empty());
    while i < entries.len()
        invariant
            i <= entries.len(),
            r@.map_values(|p: (String, bool)| (p.0@, p.1)) == companions_spec(entries@.take(i as int)),
        decreases entries.len() - i,
    {
        proof {
            assert(entries@.take(i + 1).drop_last() =~= entries@.take(i as int));
            assert(entries@.take(i + 1).last() == entries@[i as int]);
        }
        let ghost before = r@;
        match &entries[i] {
            CompanionSpec::Slug(s) => {
                r.push((s.clone(), true));
                assert(r@.map_values(|p: (String, bool)| (p.0@, p.1)) =~= before.map_values(
                    |p: (String, bool)| (p.0@, p.1),
                ).push((s@, true)));
            },
            CompanionSpec::Object { role, default_enabled } => {
                match role {
                    Some(s) => {
                        let en = match default_enabled {
                            Some(b) => *b,
                            None => true,
                        };
                        r.push((s.clone(), en));
                        assert(r@.map_values(|p: (String, bool)| (p.0@, p.1)) =~= before.map_values(
                            |p: (String, bool)| (p.0@, p.1),
                        ).push((s@, en)));
                    },
                    None => {},
                }
            },
            CompanionSpec::Other => {},
        }
        i = i + 1;
    }
    assert(entries@.take(entries.len() as int) =~= entries@);
    r
}

/// The companions that start with a role: none when the caller opts out,
/// else those enabled by default, in order.
pub open spec fn companions_started(c: Seq<(Seq<char>, bool)>, skip: bool) -> Seq<Seq<char>>
    decreases c.len(),
{
    if skip || c.len() == 0 {
        Seq::empty()
    } else {
        let rest = companions_started(c.drop_last(), skip);
        if c.last().1 {
            rest.push(c.last().0)
        } else {
            rest
        }
    }
}

/// Which companions to launch beside a role (see `companions_started`).
pub fn companions_to_launch(companions: &Vec<(String, bool)>, skip: bool) -> (r: Vec<String>)
    ensures
        texts(r@) == companions_started(
            companions@.map_values(|p: (String, bool)| (p.0@, p.1)),
            skip,
        ),
{
    let ghost all = companions@.map_values(|p: (String, bool)| (p.0@, p.1));
    let mut r: Vec<String> = Vec::new();
    if skip {
        assert(texts(r@) =~= Seq::<Seq<char>>::empty());
        return r;
    }
    let mut i: usize = 0;
    assert(all.take(0) =~= Seq::<(Seq<char>, bool)>::empty());
    while i < companions.len()
        invariant
            i <= companions@.len(),
            !skip,
            all == companions@.map_values(|p: (String, bool)| (p.0@, p.1)),
            texts(r@) == companions_started(all.take(i as int), skip),
        decreases companions@.len() - i,
    {
        proof {
            assert(all.take(i + 1).drop_last() =~= all.take(i as int));
            assert(all.take(i + 1).last() == all[i as int]);
        }
        if companions[i].1 {
            let ghost before = r@;
            r.push(companions[i].0.clone());
            proof {
                assert(texts(r@) =~= texts(before).push(companions@[i as int].0@));
            }
        }
        i = i + 1;
    }
    assert(all.take(all.len() as int) =~= all);
    r
}

// ---------------------------------------------------------------------------
// Heartbeat timestamps
// ---------------------------------------------------------------------------

pub open spec fn fixed_field(b: Seq<u8>, lo: int, hi: int) -> Option<i64> {
    parse_i64_spec(b.subrange(lo, hi))
}

/// Days from 1970-01-01 to a civil date (the days-from-civil algorithm, with
/// Rust's truncating division).
pub open spec fn civil_days(year: int, month: int, day: int) -> int {
    let y = if month <= 2 {
        year - 1
    } else {
        year
    };
    let era = tdiv(if y >= 0 { y } else { y - 399 }, 400);
    let yoe = y - era * 400;
    let doy = tdiv(153 * (if month > 2 { month - 3 } else { month + 9 }) + 2, 5) + day - 1;
    let doe = yoe * 365 + tdiv(yoe, 4) - tdiv(yoe, 100) + doy;
    era * 146097 + doe - 719468
}

/// Seconds since the epoch of a fixed-width `YYYY-MM-DDTHH:MM:SS…`
/// timestamp: the numbers at byte offsets 0, 5, 8, 11, 14 and 17 (each may
/// carry a sign); `None` when the text is shorter than 19 bytes, a field is
/// not a number, or the moment falls before the epoch.
pub open spec fn iso_secs(b: Seq<u8>) -> Option<u64> {
    if b.len() < 19 {
        None
    } else {
        match (
            fixed_field(b, 0, 4),
            fixed_field(b, 5, 7),
            fixed_field(b, 8, 10),
            fixed_field(b, 11, 13),
            fixed_field(b, 14, 16),
            fixed_field(b, 17, 19),
        ) {
            (Some(year), Some(month), Some(day), Some(hour), Some(minute), Some(second)) => {
                let total = civil_days(year as int, month as int, day as int) * 86400 + hour * 3600 + minute
                    * 60 + second;
                if total < 0 {
                    None
                } else {
                    Some(total as u64)
                }
            },
            _ => None,
        }
    }
}

/// Byte offsets at which the fixed-width fields are cut.
pub open spec fn fixed_cuts_ok(b: Seq<u8>) -> bool {
    b.len() >= 19 ==> {
        &&& vstd::utf8::is_char_boundary(b, 4)
        &&& vstd::utf8::is_char_boundary(b, 5)
        &&& vstd::utf8::is_char_boundary(b, 7)
        &&& vstd::utf8::is_char_boundary(b, 8)
        &&& vstd::utf8::is_char_boundary(b, 10)
        &&& vstd::utf8::is_char_boundary(b, 11)
        &&& vstd::utf8::is_char_boundary(b, 13)
        &&& vstd::utf8::is_char_boundary(b, 14)
        &&& vstd::utf8::is_char_boundary(b, 16)
        &&& vstd::utf8::is_char_boundary(b, 17)
        &&& vstd::utf8::is_char_boundary(b, 19)
    }
}

pub open spec fn pow10(n: nat) -> nat
    decreases n,
{
    if n == 0 {
        1
    } else {
        10 * pow10((n - 1) as nat)
    }
}

pub(crate) proof fn lemma_digits_bound(d: Seq<u8>)
    requires
        all_digit_bytes(d),
    ensures
        digits_value(d) < pow10(d.len()),
    decreases d.len(),
{
    if d.len() > 0 {
        let p = d.drop_last();
        assert(all_digit_bytes(p)) by {
            assert forall|i: int| 0 <= i < p.len() implies is_digit_byte(#[trigger] p[i]) by {
                assert(p[i] == d[i]);
            }
        }
        lemma_digits_bound(p);
        assert(is_digit_byte(d[d.len() - 1]));
        let x = digits_value(p);
        let e = pow10(p.len());
        assert(x * 10 + (d.last() - 48) < e * 10) by (nonlinear_arith)
            requires
                x < e,
                0 <= d.last() - 48 <= 9,
        ;
    }
}

proof fn lemma_pow10_small(k: nat)
    requires
        k <= 4,
    ensures
        pow10(k) <= 10000,
{
    reveal_with_fuel(pow10, 5);
}

/// A parsed fixed-width field of at most four bytes stays small.
proof fn lemma_field_bound(b: Seq<u8>, lo: int, hi: int)
    requires
        0 <= lo <= hi <= b.len(),
        hi - lo <= 4,
    ensures
        match fixed_field(b, lo, hi) {
            Some(v) => -10000 < v < 10000,
            None => true,
        },
{
    let s = b.subrange(lo, hi);
    if s.len() > 0 && s[0] == 45 {
        let d = s.skip(1);
        if d.len() > 0 && all_digit_bytes(d) {
            lemma_digits_bound(d);
            lemma_pow10_small(d.len());
        }
    } else {
        let d = if s.len() > 0 && s[0] == 43 { s.skip(1) } else { s };
        if d.len() > 0 && all_digit_bytes(d) {
            lemma_digits_bound(d);
            lemma_pow10_small(d.len());
        }
    }
}

fn parse_field(b: &[u8], lo: usize, hi: usize) -> (r: Option<i64>)
    requires
        lo <= hi <= b@.len(),
        hi - lo <= 4,
    ensures
        r == fixed_field(b@, lo as int, hi as int),
        match r {
            Some(v) => -10000 < v < 10000,
            None => true,
        },
{
    proof {
        lemma_field_bound(b@, lo as int, hi as int);
    }
    crate::timefmt::parse_i64_bytes(b, lo, hi)
}

/// Seconds since the epoch of a heartbeat timestamp such as
/// `2026-04-17T00:44:17Z`, read at fixed byte offsets.
pub fn parse_iso_to_secs(iso: &str) -> (r: Option<u64>)
    requires
        fixed_cuts_ok(bytes_of(iso)),
    ensures
        r == iso_secs(bytes_of(iso)),
{
    let b = iso.as_bytes();
    if b.len() < 19 {
        return None;
    }
    let year = match parse_field(b, 0, 4) {
        Some(v) => v,
        None => return None,
    };
    let month = match parse_field(b, 5, 7) {
        Some(v) => v,
        None => return None,
    };
    let day = match parse_field(b, 8, 10) {
        Some(v) => v,
        None => return None,
    };
    let hour = match parse_field(b, 11, 13) {
        Some(v) => v,
        None => return None,
    };
    let minute = match parse_field(b, 14, 16) {
        Some(v) => v,
        None => return None,
    };
    let second = match parse_field(b, 17, 19) {
        Some(v) => v,
        None => return None,
    };
    let total = civil_total(year, month, day, hour, minute, second);
    if total < 0 {
        None
    } else {
        Some(total as u64)
    }
}

proof fn lemma_tdiv_small(a: int, b: int)
    requires
        b >= 1,
    ensures
        -(if a < 0 { -a } else { a }) <= tdiv(a, b) <= (if a < 0 { -a } else { a }),
{
    if a >= 0 {
        assert(a / b <= a) by (nonlinear_arith)
            requires
                a >= 0,
                b >= 1,
        ;
        assert(a / b >= 0) by (nonlinear_arith)
            requires
                a >= 0,
                b >= 1,
        ;
    } else {
        let m = -a;
        assert(m / b <= m) by (nonlinear_arith)
            requires
                m >= 0,
                b >= 1,
        ;
        assert(m / b >= 0) by (nonlinear_arith)
            requires
                m >= 0,
                b >= 1,
        ;
    }
}

/// Seconds since the epoch of a civil date and time, each field small.
fn civil_total(year: i64, month: i64, day: i64, hour: i64, minute: i64, second: i64) -> (t: i64)
    requires
        -10000 < year < 10000,
        -10000 < month < 10000,
        -10000 < day < 10000,
        -10000 < hour < 10000,
        -10000 < minute < 10000,
        -10000 < second < 10000,
    ensures
        t == civil_days(year as int, month as int, day as int) * 86400 + hour * 3600 + minute * 60 + second,
{
    let y = if month <= 2 {
        year - 1
    } else {
        year
    };
    let a = if y >= 0 {
        y
    } else {
        y - 399
    };
    let era = trunc_div(a, 400);
    proof {
        lemma_tdiv_small(a as int, 400);
    }
    let yoe = y - era * 400;
    let mm = if month > 2 {
        month - 3
    } else {
        month + 9
    };
    let q = trunc_div(153 * mm + 2, 5);
    proof {
        lemma_tdiv_small((153 * mm + 2) as int, 5);
    }
    let doy = q + day - 1;
    let q4 = trunc_div(yoe, 4);
    let q100 = trunc_div(yoe, 100);
    proof {
        lemma_tdiv_small(yoe as int, 4);
        lemma_tdiv_small(yoe as int, 100);
    }
    let doe = yoe * 365 + q4 - q100 + doy;
    let days = era * 146097 + doe - 719468;
    days * 86400 + hour * 3600 + minute * 60 + second
}

// ---------------------------------------------------------------------------
// The spawned-agent manifest: newest entry per role and instance
// ---------------------------------------------------------------------------

/// Insert `a` into a list ordered newest first, after every entry at least
/// as new (so entries of equal time keep their order).
pub open spec fn insert_newest_first(sorted: Seq<SpawnedAgent>, a: SpawnedAgent) -> Seq<SpawnedAgent>
    decreases sorted.len(),
{
    if sorted.len() == 0 {
        seq![a]
    } else if text_le(a.spawned_at@, sorted.last().spawned_at@) {
        sorted.push(a)
    } else {
        insert_newest_first(sorted.drop_last(), a).push(sorted.last())
    }
}

/// The entries ordered newest first by `spawned_at`, entries of equal time
/// in their original order (a stable sort).
pub open spec fn newest_first(raw: Seq<SpawnedAgent>) -> Seq<SpawnedAgent>
    decreases raw.len(),
{
    if raw.len() == 0 {
        Seq::empty()
    } else {
        insert_newest_first(newest_first(raw.drop_last()), raw.last())
    }
}

pub open spec fn same_key(a: SpawnedAgent, b: SpawnedAgent) -> bool {
    a.role@ == b.role@ && a.instance == b.instance
}

/// Does `s` hold an entry for the key of `a`?
pub open spec fn has_key(s: Seq<SpawnedAgent>, a: SpawnedAgent) -> bool {
    exists|i: int| 0 <= i < s.len() && same_key(#[trigger] s[i], a)
}

/// The first entry of each role and instance, in order.
pub open spec fn first_per_key(s: Seq<SpawnedAgent>) -> Seq<SpawnedAgent>
    decreases s.len(),
{
    if s.len() == 0 {
        Seq::empty()
    } else {
        let d = first_per_key(s.drop_last());
        if has_key(d, s.last()) {
            d
        } else {
            d.push(s.last())
        }
    }
}

fn insert_exec(sorted: &mut Vec<SpawnedAgent>, a: SpawnedAgent)
    ensures
        final(sorted)@ == insert_newest_first(old(sorted)@, a),
    decreases old(sorted)@.len(),
{
    if sorted.len() == 0 {
        sorted.push(a);
    } else {
        let n = sorted.len();
        if text_le_exec(a.spawned_at.as_str(), sorted[n - 1].spawned_at.as_str()) {
            sorted.push(a);
        } else {
            let ghost before = sorted@;
            let last = sorted.pop().unwrap();
            assert(sorted@ =~= before.drop_last());
            insert_exec(sorted, a);
            sorted.push(last);
        }
    }
}

fn has_key_exec(s: &Vec<SpawnedAgent>, a: &SpawnedAgent) -> (r: bool)
    ensures
        r == has_key(s@, *a),
{
    let mut i: usize = 0;
    while i < s.len()
        invariant
            i <= s.len(),
            forall|j: int| 0 <= j < i ==> !same_key(#[trigger] s@[j], *a),
        decreases s.len() - i,
    {
        if str_eq(s[i].role.as_str(), a.role.as_str()) && s[i].instance == a.instance {
            assert(same_key(s@[i as int], *a));
            return true;
        }
        i = i + 1;
    }
    false
}

/// The manifest as read for use: ordered newest first by `spawned_at`, and
/// only the newest entry of each role and instance kept.
pub fn dedupe_spawned(raw: Vec<SpawnedAgent>) -> (r: Vec<SpawnedAgent>)
    ensures
        r@ == read_manifest(raw@),
{
    let mut sorted: Vec<SpawnedAgent> = Vec::new();
    let mut rest = raw;
    let ghost all = rest@;
    let total: usize = rest.len();
    let mut consumed: usize = 0;
    assert(all.take(0) =~= Seq::<SpawnedAgent>::empty());
    while rest.len() > 0
        invariant
            rest@.len() + consumed == all.len(),
            all.len() == total,
            rest@ == all.skip(consumed as int),
            sorted@ == newest_first(all.take(consumed as int)),
        decreases rest@.len(),
    {
        let a = rest.remove(0);
        proof {
            assert(a == all[consumed as int]);
            assert(rest@ =~= all.skip(consumed + 1));
            assert(all.take(consumed + 1).drop_last() =~= all.take(consumed as int));
            assert(all.take(consumed + 1).last() == all[consumed as int]);
        }
        insert_exec(&mut sorted, a);
        consumed = consumed + 1;
    }
    assert(all.take(all.len() as int) =~= all);
    let ghost srt = sorted@;
    let count: usize = sorted.len();
    let mut out: Vec<SpawnedAgent> = Vec::new();
    let mut k: usize = 0;
    assert(srt.take(0) =~= Seq::<SpawnedAgent>::empty());
    assert(srt.skip(0) =~= srt);
    while sorted.len() > 0
        invariant
            sorted@.len() + k == srt.len(),
            srt.len() == count,
            sorted@ == srt.skip(k as int),
            out@ == first_per_key(srt.take(k as int)),
        decreases sorted@.len(),
    {
        let a = sorted.remove(0);
        proof {
            assert(a == srt[k as int]);
            assert(sorted@ =~= srt.skip(k + 1));
            assert(srt.take(k + 1).drop_last() =~= srt.take(k as int));
            assert(srt.take(k + 1).last() == srt[k as int]);
        }
        if !has_key_exec(&out, &a) {
            out.push(a);
        }
        k = k + 1;
    }
    assert(srt.take(srt.len() as int) =~= srt);
    out
}

/// Ordered newest first: no entry is newer than one before it.
pub open spec fn newest_first_ordered(s: Seq<SpawnedAgent>) -> bool {
    forall|i: int, j: int|
        0 <= i < j < s.len() ==> text_le(#[trigger] s[j].spawned_at@, #[trigger] s[i].spawned_at@)
}

proof fn lemma_insert_newest_first(sorted: Seq<SpawnedAgent>, a: SpawnedAgent)
    requires
        newest_first_ordered(sorted),
    ensures
        insert_newest_first(sorted, a).len() == sorted.len() + 1,
        newest_first_ordered(insert_newest_first(sorted, a)),
        forall|k: int|
            0 <= k < sorted.len() + 1 ==> #[trigger] insert_newest_first(sorted, a)[k] == a
                || sorted.contains(insert_newest_first(sorted, a)[k]),
        insert_newest_first(sorted, a).contains(a),
        forall|i: int| 0 <= i < sorted.len() ==> insert_newest_first(sorted, a).contains(#[trigger] sorted[i]),
    decreases sorted.len(),
{
    let ins = insert_newest_first(sorted, a);
    if sorted.len() == 0 {
        assert(ins[0] == a);
    } else if text_le(a.spawned_at@, sorted.last().spawned_at@) {
        let n = sorted.len();
        assert(ins[n as int] == a);
        assert forall|i: int, j: int| 0 <= i < j < ins.len() implies text_le(
            #[trigger] ins[j].spawned_at@,
            #[trigger] ins[i].spawned_at@,
        ) by {
            if j == n {
                if i < n - 1 {
                    assert(text_le(sorted[n - 1].spawned_at@, sorted[i].spawned_at@));
                    lemma_text_le_trans(a.spawned_at@, sorted[n - 1].spawned_at@, sorted[i].spawned_at@);
                }
            } else {
                assert(ins[i] == sorted[i] && ins[j] == sorted[j]);
            }
        }
        assert forall|k: int| 0 <= k < sorted.len() + 1 implies #[trigger] ins[k] == a || sorted.contains(ins[k]) by {
            if k < n {
                assert(ins[k] == sorted[k]);
            }
        }
        assert forall|i: int| 0 <= i < sorted.len() implies ins.contains(#[trigger] sorted[i]) by {
            assert(ins[i] == sorted[i]);
        }
    } else {
        let dl = sorted.drop_last();
        let last = sorted.last();
        let n = sorted.len();
        assert forall|i: int, j: int| 0 <= i < j < dl.len() implies text_le(
            #[trigger] dl[j].spawned_at@,
            #[trigger] dl[i].spawned_at@,
        ) by {
            assert(dl[i] == sorted[i] && dl[j] == sorted[j]);
        }
        lemma_insert_newest_first(dl, a);
        let sub = insert_newest_first(dl, a);
        assert(ins == sub.push(last));
        lemma_text_le_total(a.spawned_at@, last.spawned_at@);
        assert forall|i: int, j: int| 0 <= i < j < ins.len() implies text_le(
            #[trigger] ins[j].spawned_at@,
            #[trigger] ins[i].spawned_at@,
        ) by {
            if j == n {
                assert(ins[j] == last);
                assert(ins[i] == sub[i]);
                if sub[i] != a {
                    assert(dl.contains(sub[i]));
                    let m = choose|m: int| 0 <= m < dl.len() && dl[m] == sub[i];
                    assert(sorted[m] == dl[m]);
                    assert(text_le(sorted[n - 1].spawned_at@, sorted[m].spawned_at@));
                }
            } else {
                assert(ins[i] == sub[i] && ins[j] == sub[j]);
            }
        }
        assert forall|k: int| 0 <= k < sorted.len() + 1 implies #[trigger] ins[k] == a || sorted.contains(ins[k]) by {
            if k < n {
                assert(ins[k] == sub[k]);
                if sub[k] != a {
                    assert(dl.contains(sub[k]));
                    let m = choose|m: int| 0 <= m < dl.len() && dl[m] == sub[k];
                    assert(sorted[m] == dl[m]);
                }
            } else {
                assert(ins[k] == sorted[n - 1]);
            }
        }
        assert(sub.contains(a));
        let ka = choose|k: int| 0 <= k < sub.len() && sub[k] == a;
        assert(ins[ka] == a);
        assert forall|i: int| 0 <= i < sorted.len() implies ins.contains(#[trigger] sorted[i]) by {
            if i < n - 1 {
                assert(dl[i] == sorted[i]);
                assert(sub.contains(dl[i]));
                let k = choose|k: int| 0 <= k < sub.len() && sub[k] == dl[i];
                assert(ins[k] == sub[k]);
            } else {
                assert(ins[n as int] == sorted[i]);
            }
        }
    }
}

proof fn lemma_newest_first(raw: Seq<SpawnedAgent>)
    ensures
        newest_first(raw).len() == raw.len(),
        newest_first_ordered(newest_first(raw)),
        drawn_from(newest_first(raw), raw),
        drawn_from(raw, newest_first(raw)),
    decreases raw.len(),
{
    if raw.len() > 0 {
        let dl = raw.drop_last();
        let n = raw.len();
        lemma_newest_first(dl);
        let sub = newest_first(dl);
        lemma_insert_newest_first(sub, raw.last());
        let nf = newest_first(raw);
        assert forall|k: int| 0 <= k < raw.len() implies raw.contains(#[trigger] nf[k]) by {
            if nf[k] == raw.last() {
                assert(raw[n - 1] == raw.last());
            } else {
                assert(sub.contains(nf[k]));
                let m = choose|m: int| 0 <= m < sub.len() && sub[m] == nf[k];
                assert(dl.contains(sub[m]));
                let q = choose|q: int| 0 <= q < dl.len() && dl[q] == sub[m];
                assert(raw[q] == dl[q]);
            }
        }
        assert forall|i: int| 0 <= i < raw.len() implies nf.contains(#[trigger] raw[i]) by {
            if i < n - 1 {
                assert(dl[i] == raw[i]);
                assert(sub.contains(dl[i]));
                let m = choose|m: int| 0 <= m < sub.len() && sub[m] == dl[i];
                assert(nf.contains(sub[m]));
            } else {
                assert(raw[i] == raw.last());
            }
        }
    }
}

#[verifier::rlimit(30)]
proof fn lemma_first_per_key(s: Seq<SpawnedAgent>)
    requires
        newest_first_ordered(s),
    ensures
        keys_distinct(first_per_key(s)),
        drawn_from(first_per_key(s), s),
        keeps_newest(first_per_key(s), s),
    decreases s.len(),
{
    if s.len() > 0 {
        let dl = s.drop_last();
        let last = s.last();
        let n = s.len();
        assert forall|i: int, j: int| 0 <= i < j < dl.len() implies text_le(
            #[trigger] dl[j].spawned_at@,
            #[trigger] dl[i].spawned_at@,
        ) by {
            assert(dl[i] == s[i] && dl[j] == s[j]);
        }
        lemma_first_per_key(dl);
        let d = first_per_key(dl);
        let r = first_per_key(s);
        assert forall|k: int| 0 <= k < r.len() implies s.contains(#[trigger] r[k]) by {
            if k < d.len() {
                assert(r[k] == d[k]);
                assert(dl.contains(d[k]));
                let q = choose|q: int| 0 <= q < dl.len() && dl[q] == d[k];
                assert(s[q] == dl[q]);
            } else {
                assert(r[k] == last);
                assert(s[n - 1] == last);
            }
        }
        if has_key(d, last) {
            assert(r == d);
            assert forall|i: int| 0 <= i < s.len() implies kept_newer(r, #[trigger] s[i]) by {
                if i < n - 1 {
                    assert(dl[i] == s[i]);
                    assert(kept_newer(d, dl[i]));
                } else {
                    let k = choose|k: int| 0 <= k < d.len() && same_key(#[trigger] d[k], last);
                    assert(dl.contains(d[k]));
                    let q = choose|q: int| 0 <= q < dl.len() && dl[q] == d[k];
                    assert(s[q] == dl[q]);
                    assert(text_le(s[n - 1].spawned_at@, s[q].spawned_at@));
                    assert(s[i] == last);
                    assert(same_key(r[k], s[i]) && text_le(s[i].spawned_at@, r[k].spawned_at@));
                }
            }
        } else {
            assert(r == d.push(last));
            assert forall|i: int, j: int| 0 <= i < j < r.len() implies !same_key(
                #[trigger] r[i],
                #[trigger] r[j],
            ) by {
                if j == d.len() {
                    assert(r[i] == d[i]);
                    assert(r[j] == last);
                    if same_key(d[i], last) {
                        assert(has_key(d, last));
                    }
                } else {
                    assert(r[i] == d[i] && r[j] == d[j]);
                }
            }
            assert forall|i: int| 0 <= i < s.len() implies kept_newer(r, #[trigger] s[i]) by {
                if i < n - 1 {
                    assert(dl[i] == s[i]);
                    assert(kept_newer(d, dl[i]));
                    let k = choose|k: int|
                        0 <= k < d.len() && same_key(#[trigger] d[k], dl[i]) && text_le(dl[i].spawned_at@, d[k].spawned_at@);
                    assert(r[k] == d[k]);
                } else {
                    lemma_text_le_refl(last.spawned_at@);
                    assert(r[d.len() as int] == last);
                    assert(s[i] == last);
                    assert(same_key(r[d.len() as int], s[i]));
                }
            }
        }
    }
}

/// No two entries share a role and instance.
pub open spec fn keys_distinct(r: Seq<SpawnedAgent>) -> bool {
    forall|i: int, j: int| 0 <= i < j < r.len() ==> !same_key(#[trigger] r[i], #[trigger] r[j])
}

/// Every entry of `r` is an entry of `s`.
pub open spec fn drawn_from(r: Seq<SpawnedAgent>, s: Seq<SpawnedAgent>) -> bool {
    forall|k: int| 0 <= k < r.len() ==> s.contains(#[trigger] r[k])
}

/// `r` holds the role and instance of `x` in an entry at least as new.
pub open spec fn kept_newer(r: Seq<SpawnedAgent>, x: SpawnedAgent) -> bool {
    exists|k: int| 0 <= k < r.len() && same_key(#[trigger] r[k], x) && text_le(x.spawned_at@, r[k].spawned_at@)
}

/// Each entry of `s` has its role and instance in `r`, held by an entry at
/// least as new.
pub open spec fn keeps_newest(r: Seq<SpawnedAgent>, s: Seq<SpawnedAgent>) -> bool {
    forall|i: int| 0 <= i < s.len() ==> kept_newer(r, #[trigger] s[i])
}

proof fn lemma_drawn_from_trans(a: Seq<SpawnedAgent>, b: Seq<SpawnedAgent>, c: Seq<SpawnedAgent>)
    requires
        drawn_from(a, b),
        drawn_from(b, c),
    ensures
        drawn_from(a, c),
{
    assert forall|k: int| 0 <= k < a.len() implies c.contains(#[trigger] a[k]) by {
        assert(b.contains(a[k]));
        let m = choose|m: int| 0 <= m < b.len() && b[m] == a[k];
        assert(c.contains(b[m]));
    }
}

proof fn lemma_keeps_newest_via(r: Seq<SpawnedAgent>, s: Seq<SpawnedAgent>, raw: Seq<SpawnedAgent>)
    requires
        keeps_newest(r, s),
        drawn_from(raw, s),
    ensures
        keeps_newest(r, raw),
{
    assert forall|i: int| 0 <= i < raw.len() implies kept_newer(r, #[trigger] raw[i]) by {
        assert(s.contains(raw[i]));
        let m = choose|m: int| 0 <= m < s.len() && s[m] == raw[i];
        assert(kept_newer(r, s[m]));
    }
}

/// Keeping the first entry of each key keeps the newest-first order.
proof fn lemma_first_per_key_ordered(s: Seq<SpawnedAgent>)
    requires
        newest_first_ordered(s),
    ensures
        newest_first_ordered(first_per_key(s)),
    decreases s.len(),
{
    if s.len() > 0 {
        let dl = s.drop_last();
        assert(newest_first_ordered(dl)) by {
            assert forall|i: int, j: int| 0 <= i < j < dl.len() implies text_le(
                #[trigger] dl[j].spawned_at@,
                #[trigger] dl[i].spawned_at@,
            ) by {
                assert(dl[i] == s[i]);
                assert(dl[j] == s[j]);
            }
        }
        lemma_first_per_key_ordered(dl);
        lemma_first_per_key(dl);
        let d = first_per_key(dl);
        if !has_key(d, s.last()) {
            let r = d.push(s.last());
            assert forall|i: int, j: int| 0 <= i < j < r.len() implies text_le(
                #[trigger] r[j].spawned_at@,
                #[trigger] r[i].spawned_at@,
            ) by {
                if j == r.len() - 1 {
                    assert(r[i] == d[i]);
                    assert(dl.contains(d[i]));
                    let m = choose|m: int| 0 <= m < dl.len() && dl[m] == d[i];
                    assert(s[m] == d[i]);
                    assert(r[j] == s[s.len() - 1]);
                    assert(text_le(s[s.len() - 1].spawned_at@, s[m].spawned_at@));
                } else {
                    assert(r[i] == d[i]);
                    assert(r[j] == d[j]);
                }
            }
        }
    }
}

/// The manifest as read: newest first, one entry per role and instance.
pub open spec fn read_manifest(raw: Seq<SpawnedAgent>) -> Seq<SpawnedAgent> {
    first_per_key(newest_first(raw))
}

/// Reading the manifest keeps one entry per role and instance, ordered
/// newest first; each role and instance of the raw manifest is kept, by an
/// entry at least as new as any raw entry for it; and each kept entry is
/// one of the raw entries.
pub proof fn law_dedupe_newest_wins(raw: Seq<SpawnedAgent>)
    ensures
        newest_first_ordered(read_manifest(raw)),
        keys_distinct(read_manifest(raw)),
        drawn_from(read_manifest(raw), raw),
        keeps_newest(read_manifest(raw), raw),
{
    let s = newest_first(raw);
    lemma_newest_first(raw);
    lemma_first_per_key(s);
    lemma_first_per_key_ordered(s);
    lemma_drawn_from_trans(first_per_key(s), s, raw);
    lemma_keeps_newest_via(first_per_key(s), s, raw);
}

// ---------------------------------------------------------------------------
// Relaunch, reconnect and the watchdog
// ---------------------------------------------------------------------------

/// Relaunch: the manifest entries not held in memory whose process is
/// dead (`alive[i]` is the liveness of `disk[i]`), in order.
pub open spec fn relaunch_spec(disk: Seq<SpawnedAgent>, held: Seq<SpawnedAgent>, alive: Seq<bool>) -> Seq<SpawnedAgent>
    decreases disk.len(),
{
    if disk.len() == 0 {
        Seq::empty()
    } else {
        let d = relaunch_spec(disk.drop_last(), held, alive);
        let i = disk.len() - 1;
        if !has_key(held, disk[i]) && !alive[i] {
            d.push(disk[i])
        } else {
            d
        }
    }
}

/// The entries of the manifest to start again: not held in memory and
/// with a dead process.
pub fn relaunch_plan(disk: Vec<SpawnedAgent>, held: &Vec<SpawnedAgent>, alive: &Vec<bool>) -> (r: Vec<SpawnedAgent>)
    requires
        alive@.len() == disk@.len(),
    ensures
        r@ == relaunch_spec(disk@, held@, alive@),
{
    let ghost all = disk@;
    let total: usize = disk.len();
    let mut rest = disk;
    let mut out: Vec<SpawnedAgent> = Vec::new();
    let mut k: usize = 0;
    assert(all.take(0) =~= Seq::<SpawnedAgent>::empty());
    assert(all.skip(0) =~= all);
    while rest.len() > 0
        invariant
            rest@.len() + k == all.len(),
            all.len() == total,
            alive@.len() == total,
            rest@ == all.skip(k as int),
            out@ == relaunch_spec(all.take(k as int), held@, alive@),
        decreases rest@.len(),
    {
        let a = rest.remove(0);
        proof {
            assert(a == all[k as int]);
            assert(rest@ =~= all.skip(k + 1));
            assert(all.take(k + 1).drop_last() =~= all.take(k as int));
            assert(all.take(k + 1)[k as int] == all[k as int]);
        }
        let known = has_key_exec(held, &a);
        if !known && !alive[k] {
            out.push(a);
        }
        k = k + 1;
    }
    assert(all.take(all.len() as int) =~= all);
    out
}

/// Reconnect: walk the manifest, adding each entry with a live process that
/// the list in memory does not hold yet.
pub open spec fn reconnect_spec(held: Seq<SpawnedAgent>, disk: Seq<SpawnedAgent>, alive: Seq<bool>) -> Seq<SpawnedAgent>
    decreases disk.len(),
{
    if disk.len() == 0 {
        held
    } else {
        let t = reconnect_spec(held, disk.drop_last(), alive);
        let i = disk.len() - 1;
        if alive[i] && !has_key(t, disk[i]) {
            t.push(disk[i])
        } else {
            t
        }
    }
}

proof fn lemma_reconnect_grows(held: Seq<SpawnedAgent>, disk: Seq<SpawnedAgent>, alive: Seq<bool>)
    ensures
        held.len() <= reconnect_spec(held, disk, alive).len() <= held.len() + disk.len(),
    decreases disk.len(),
{
    if disk.len() > 0 {
        lemma_reconnect_grows(held, disk.drop_last(), alive);
    }
}

/// Attach the manifest's entries whose process is alive to the list held
/// in memory (each role and instance once); returns how many were attached.
pub fn reconnect_alive(held: &mut Vec<SpawnedAgent>, disk: Vec<SpawnedAgent>, alive: &Vec<bool>) -> (n: u32)
    requires
        alive@.len() == disk@.len(),
        disk@.len() <= u32::MAX,
    ensures
        final(held)@ == reconnect_spec(old(held)@, disk@, alive@),
        n == final(held)@.len() - old(held)@.len(),
{
    let ghost all = disk@;
    let ghost start = held@;
    let total: usize = disk.len();
    let mut rest = disk;
    let mut n: u32 = 0;
    let mut k: usize = 0;
    assert(all.take(0) =~= Seq::<SpawnedAgent>::empty());
    assert(all.skip(0) =~= all);
    while rest.len() > 0
        invariant
            rest@.len() + k == all.len(),
            all.len() == total,
            total <= u32::MAX,
            alive@.len() == total,
            rest@ == all.skip(k as int),
            held@ == reconnect_spec(start, all.take(k as int), alive@),
            n == held@.len() - start.len(),
            n <= k,
        decreases rest@.len(),
    {
        let a = rest.remove(0);
        proof {
            assert(a == all[k as int]);
            assert(rest@ =~= all.skip(k + 1));
            assert(all.take(k + 1).drop_last() =~= all.take(k as int));
            assert(all.take(k + 1)[k as int] == all[k as int]);
        }
        if alive[k] && !has_key_exec(held, &a) {
            held.push(a);
            n = n + 1;
        }
        k = k + 1;
    }
    assert(all.take(all.len() as int) =~= all);
    n
}

/// A session binding as the watchdog reads it (empty role and instance 0
/// when missing).
#[derive(Debug, Clone)]
pub struct WatchBinding {
    pub role: String,
    pub instance: u64,
    pub last_heartbeat: Option<String>,
}

/// The binding of an agent: the first with its role and instance (the
/// binding's instance cut to 32 bits).
pub open spec fn agent_binding(bs: Seq<WatchBinding>, a: SpawnedAgent) -> Option<WatchBinding>
    decreases bs.len(),
{
    if bs.len() == 0 {
        None
    } else if bs[0].role@ == a.role@ && bs[0].instance as i32 == a.instance {
        Some(bs[0])
    } else {
        agent_binding(bs.drop_first(), a)
    }
}

/// An agent needs starting again: its process is dead, or its binding's
/// heartbeat is missing, does not parse, or is more than `threshold`
/// seconds old.
pub open spec fn needs_respawn(a: SpawnedAgent, alive: bool, bs: Seq<WatchBinding>, now: u64, threshold: u64) -> bool {
    !alive || match agent_binding(bs, a) {
        Some(b) => match b.last_heartbeat {
            Some(hb) => match iso_secs(vstd::utf8::encode_utf8(hb@)) {
                Some(t) => (if now >= t { now - t } else { 0 }) > threshold,
                None => true,
            },
            None => true,
        },
        None => true,
    }
}

fn binding_of(bindings: &Vec<WatchBinding>, a: &SpawnedAgent) -> (r: Option<usize>)
    ensures
        match r {
            Some(j) => j < bindings@.len() && agent_binding(bindings@, *a) == Some(bindings@[j as int]),
            None => agent_binding(bindings@, *a) is None,
        },
{
    let mut j: usize = 0;
    assert(bindings@.skip(0) =~= bindings@);
    while j < bindings.len()
        invariant
            j <= bindings.len(),
            agent_binding(bindings@, *a) == agent_binding(bindings@.skip(j as int), *a),
        decreases bindings.len() - j,
    {
        let b = &bindings[j];
        proof {
            assert(bindings@.skip(j as int).drop_first() =~= bindings@.skip(j + 1));
            assert(bindings@.skip(j as int)[0] == *b);
        }
        if str_eq(b.role.as_str(), a.role.as_str()) && #[verifier::truncate] (b.instance as i32) == a.instance {
            return Some(j);
        }
        j = j + 1;
    }
    assert(bindings@.skip(j as int) =~= Seq::<WatchBinding>::empty());
    None
}

/// Which agents held in memory the watchdog starts again.
pub fn respawn_mask(
    agents: &Vec<SpawnedAgent>,
    alive: &Vec<bool>,
    bindings: &Vec<WatchBinding>,
    now: u64,
    threshold: u64,
) -> (v: Vec<bool>)
    requires
        alive@.len() == agents@.len(),
        forall|i: int|
            0 <= i < bindings@.len() ==> match (#[trigger] bindings@[i]).last_heartbeat {
                Some(hb) => fixed_cuts_ok(vstd::utf8::encode_utf8(hb@)),
                None => true,
            },
    ensures
        v@.len() == agents@.len(),
        forall|i: int|
            0 <= i < v@.len() ==> v@[i] == needs_respawn(#[trigger] agents@[i], alive@[i], bindings@, now, threshold),
{
    let mut v: Vec<bool> = Vec::new();
    let mut i: usize = 0;
    while i < agents.len()
        invariant
            i <= agents.len(),
            alive@.len() == agents@.len(),
            forall|k: int|
                0 <= k < bindings@.len() ==> match (#[trigger] bindings@[k]).last_heartbeat {
                    Some(hb) => fixed_cuts_ok(vstd::utf8::encode_utf8(hb@)),
                    None => true,
                },
            v@.len() == i,
            forall|k: int|
                0 <= k < i ==> v@[k] == needs_respawn(#[trigger] agents@[k], alive@[k], bindings@, now, threshold),
        decreases agents.len() - i,
    {
        let a = &agents[i];
        let stale = match binding_of(bindings, a) {
            Some(j) => match &bindings[j].last_heartbeat {
                Some(hb) => {
                    let hs = hb.as_str();
                    proof {
                        assert(bytes_of(hs) == vstd::utf8::encode_utf8(hb@));
                    }
                    match parse_iso_to_secs(hs) {
                        Some(t) => {
                            let age: u64 = if now >= t {
                                now - t
                            } else {
                                0
                            };
                            age > threshold
                        },
                        None => true,
                    }
                },
                None => true,
            },
            None => true,
        };
        v.push(!alive[i] || stale);
        i = i + 1;
    }
    v
}

// ---------------------------------------------------------------------------
// Revoking session bindings
// ---------------------------------------------------------------------------

/// A binding as revocation reads it: its role (empty when missing) and its
/// signed instance (-1 when missing).
#[derive(Debug, Clone)]
pub struct RevokeKey {
    pub role: String,
    pub instance: i64,
}

/// The binding belongs to `role:instance` (its instance cut to 32 bits).
pub open spec fn revokes(k: RevokeKey, role: Seq<char>, instance: i32) -> bool {
    k.role@ == role && k.instance as i32 == instance
}

/// Which bindings stay when the session of `role:instance` is revoked.
pub fn revoke_keep_mask(keys: &Vec<RevokeKey>, role: &str, instance: i32) -> (v: Vec<bool>)
    ensures
        v@.len() == keys@.len(),
        forall|i: int| 0 <= i < v@.len() ==> v@[i] == !revokes(#[trigger] keys@[i], role@, instance),
{
    let mut v: Vec<bool> = Vec::new();
    let mut i: usize = 0;
    while i < keys.len()
        invariant
            i <= keys.len(),
            v@.len() == i,
            forall|k: int| 0 <= k < i ==> v@[k] == !revokes(#[trigger] keys@[k], role@, instance),
        decreases keys.len() - i,
    {
        let k = &keys[i];
        let hit = str_eq(k.role.as_str(), role) && #[verifier::truncate] (k.instance as i32) == instance;
        v.push(!hit);
        i = i + 1;
    }
    v
}

/// Which bindings stay when every agent's session is revoked: the human's.
pub fn human_keep_mask(roles: &Vec<String>) -> (v: Vec<bool>)
    ensures
        v@.len() == roles@.len(),
        forall|i: int| 0 <= i < v@.len() ==> v@[i] == ((#[trigger] roles@[i])@ == "human"@),
{
    let mut v: Vec<bool> = Vec::new();
    let mut i: usize = 0;
    while i < roles.len()
        invariant
            i <= roles.len(),
            v@.len() == i,
            forall|k: int| 0 <= k < i ==> v@[k] == ((#[trigger] roles@[k])@ == "human"@),
        decreases roles.len() - i,
    {
        v.push(str_eq(roles[i].as_str(), "human"));
        i = i + 1;
    }
    v
}


/// The Linux launch command enters the project directory before it starts
/// the agent program: it begins with `cd '`, the directory with each single
/// quote escaped, `' && ` and the program, for every directory; a directory
/// without single quotes stands in it as it is.
pub proof fn law_launch_enters_project(project_dir: Seq<char>, role: Seq<char>, cli: Seq<char>)
    ensures
        has_prefix(bash_command(project_dir, role, cli), "cd '"@ + sh_escape(project_dir) + "' && "@ + cli),
        (forall|i: int| 0 <= i < project_dir.len() ==> project_dir[i] != '\'') ==> has_prefix(
            bash_command(project_dir, role, cli),
            "cd '"@ + project_dir + "' && "@ + cli,
        ),
{
    let p = "cd '"@ + sh_escape(project_dir) + "' && "@ + cli;
    let c = bash_command(project_dir, role, cli);
    assert(c == p + (" --dangerously-skip-permissions '"@ + sh_escape(join_prompt(role)) + "'"@));
    assert(c.subrange(0, p.len() as int) =~= p);
    if forall|i: int| 0 <= i < project_dir.len() ==> project_dir[i] != '\'' {
        lemma_sh_escape_plain(project_dir);
    }
}

/// Text without single quotes is escaped as itself.
proof fn lemma_sh_escape_plain(s: Seq<char>)
    requires
        forall|i: int| 0 <= i < s.len() ==> s[i] != '\'',
    ensures
        sh_escape(s) == s,
    decreases s.len(),
{
    if s.len() > 0 {
        let p = s.drop_last();
        assert forall|i: int| 0 <= i < p.len() implies p[i] != '\'' by {
            assert(p[i] == s[i]);
        }
        lemma_sh_escape_plain(p);
        assert(s.last() == s[s.len() - 1]);
        assert(p.push(s.last()) =~= s);
    }
}

} // verus!
