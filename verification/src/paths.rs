//! Where the project's files live. A path is the project directory and the
//! components joined onto it, in order; the section-scoped files of the
//! `default` section keep their legacy place directly under `.vaak`.
use vstd::prelude::*;

use crate::currency::owned_str;
use crate::text::str_eq;

verus! {

/// A path: the directory it starts from, then each component joined onto it.
pub struct ProjectPath {
    pub base: String,
    pub parts: Vec<String>,
}

impl View for ProjectPath {
    type V = (Seq<char>, Seq<Seq<char>>);

    open spec fn view(&self) -> (Seq<char>, Seq<Seq<char>>) {
        (self.base@, self.parts@.map_values(|x: String| x@))
    }
}

/// Components of a file directly under `.vaak`.
pub open spec fn vaak_parts(name: Seq<char>) -> Seq<Seq<char>> {
    seq![".vaak"@, name]
}

/// Components of a section's file: `.vaak/<name>` for the `default`
/// section, `.vaak/sections/<section>/<name>` for any other.
pub open spec fn section_parts(section: Seq<char>, name: Seq<char>) -> Seq<Seq<char>> {
    if section == "default"@ {
        seq![".vaak"@, name]
    } else {
        seq![".vaak"@, "sections"@, section, name]
    }
}

fn vaak_file(dir: &str, name: &str) -> (p: ProjectPath)
    ensures
        p@ == (dir@, vaak_parts(name@)),
{
    let mut parts: Vec<String> = Vec::new();
    parts.push(owned_str(".vaak"));
    parts.push(owned_str(name));
    let p = ProjectPath { base: owned_str(dir), parts };
    assert(p@.1 =~= vaak_parts(name@));
    p
}

fn section_file(dir: &str, section: &str, name: &str) -> (p: ProjectPath)
    ensures
        p@ == (dir@, section_parts(section@, name@)),
{
    let mut parts: Vec<String> = Vec::new();
    parts.push(owned_str(".vaak"));
    if !str_eq(section, "default") {
        parts.push(owned_str("sections"));
        parts.push(owned_str(section));
    }
    parts.push(owned_str(name));
    let p = ProjectPath { base: owned_str(dir), parts };
    assert(p@.1 =~= section_parts(section@, name@));
    p
}

/// The board lock of the active section (`section`, as read from the project).
pub fn active_lock_path(dir: &str, section: &str) -> (p: ProjectPath)
    ensures
        p@ == (dir@, section_parts(section@, "board.lock"@)),
{
    section_file(dir, section, "board.lock")
}

/// A section's `board.jsonl`.
pub fn board_path_for_section(dir: &str, section: &str) -> (p: ProjectPath)
    ensures
        p@ == (dir@, section_parts(section@, "board.jsonl"@)),
{
    section_file(dir, section, "board.jsonl")
}

/// A section's `discussion.json`.
pub fn discussion_path_for_section(dir: &str, section: &str) -> (p: ProjectPath)
    ensures
        p@ == (dir@, section_parts(section@, "discussion.json"@)),
{
    section_file(dir, section, "discussion.json")
}

/// The board of the active section (`section`, as read from the project).
pub fn active_board_path(dir: &str, section: &str) -> (p: ProjectPath)
    ensures
        p@ == (dir@, section_parts(section@, "board.jsonl"@)),
{
    board_path_for_section(dir, section)
}

/// The discussion of the active section (`section`, as read from the project).
pub fn active_discussion_path(dir: &str, section: &str) -> (p: ProjectPath)
    ensures
        p@ == (dir@, section_parts(section@, "discussion.json"@)),
{
    discussion_path_for_section(dir, section)
}

/// A section's `assembly.json`.
pub fn assembly_path_for_section(dir: &str, section: &str) -> (p: ProjectPath)
    ensures
        p@ == (dir@, section_parts(section@, "assembly.json"@)),
{
    section_file(dir, section, "assembly.json")
}

/// The assembly state of the active section (`section`, as read from the project).
pub fn active_assembly_path(dir: &str, section: &str) -> (p: ProjectPath)
    ensures
        p@ == (dir@, section_parts(section@, "assembly.json"@)),
{
    assembly_path_for_section(dir, section)
}

/// A section's `decisions.jsonl`.
pub fn decisions_jsonl_path_for_section(dir: &str, section: &str) -> (p: ProjectPath)
    ensures
        p@ == (dir@, section_parts(section@, "decisions.jsonl"@)),
{
    section_file(dir, section, "decisions.jsonl")
}

/// The decision log of the active section (`section`, as read from the project).
pub fn active_decisions_path(dir: &str, section: &str) -> (p: ProjectPath)
    ensures
        p@ == (dir@, section_parts(section@, "decisions.jsonl"@)),
{
    decisions_jsonl_path_for_section(dir, section)
}

/// `.vaak/economy.json`.
pub fn economy_json_path(dir: &str) -> (p: ProjectPath)
    ensures
        p@ == (dir@, vaak_parts("economy.json"@)),
{
    vaak_file(dir, "economy.json")
}

/// `.vaak/currency.jsonl`.
pub fn currency_jsonl_path(dir: &str) -> (p: ProjectPath)
    ensures
        p@ == (dir@, vaak_parts("currency.jsonl"@)),
{
    vaak_file(dir, "currency.jsonl")
}

/// `.vaak/balances.json`.
pub fn balances_json_path(dir: &str) -> (p: ProjectPath)
    ensures
        p@ == (dir@, vaak_parts("balances.json"@)),
{
    vaak_file(dir, "balances.json")
}

/// `.vaak/currency.lock`.
pub fn currency_lock_path(dir: &str) -> (p: ProjectPath)
    ensures
        p@ == (dir@, vaak_parts("currency.lock"@)),
{
    vaak_file(dir, "currency.lock")
}

/// `.vaak/disputes.jsonl`.
pub fn disputes_jsonl_path(dir: &str) -> (p: ProjectPath)
    ensures
        p@ == (dir@, vaak_parts("disputes.jsonl"@)),
{
    vaak_file(dir, "disputes.jsonl")
}

/// `.vaak/open_disputes.json`.
pub fn open_disputes_json_path(dir: &str) -> (p: ProjectPath)
    ensures
        p@ == (dir@, vaak_parts("open_disputes.json"@)),
{
    vaak_file(dir, "open_disputes.json")
}

/// `.vaak/bounties.jsonl`.
pub fn bounties_jsonl_path(dir: &str) -> (p: ProjectPath)
    ensures
        p@ == (dir@, vaak_parts("bounties.jsonl"@)),
{
    vaak_file(dir, "bounties.jsonl")
}

/// `.vaak/open_bounties.json`.
pub fn open_bounties_json_path(dir: &str) -> (p: ProjectPath)
    ensures
        p@ == (dir@, vaak_parts("open_bounties.json"@)),
{
    vaak_file(dir, "open_bounties.json")
}

/// `.vaak/currency-history`, where session snapshots are kept.
pub fn currency_history_dir(dir: &str) -> (p: ProjectPath)
    ensures
        p@ == (dir@, vaak_parts("currency-history"@)),
{
    vaak_file(dir, "currency-history")
}

/// `.vaak/oxford-debates.jsonl`, the debates' event log.
pub fn oxford_debates_jsonl_path(dir: &str) -> (p: ProjectPath)
    ensures
        p@ == (dir@, vaak_parts("oxford-debates.jsonl"@)),
{
    vaak_file(dir, "oxford-debates.jsonl")
}

/// `.vaak/active-oxford-debate.json`, the debate under way.
pub fn active_oxford_path(dir: &str) -> (p: ProjectPath)
    ensures
        p@ == (dir@, vaak_parts("active-oxford-debate.json"@)),
{
    vaak_file(dir, "active-oxford-debate.json")
}

/// `.vaak/oxford.lock`.
pub fn oxford_lock_path(dir: &str) -> (p: ProjectPath)
    ensures
        p@ == (dir@, vaak_parts("oxford.lock"@)),
{
    vaak_file(dir, "oxford.lock")
}

} // verus!
