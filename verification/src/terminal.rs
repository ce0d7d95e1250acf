//! Reaching an agent's terminal window (to bring it forward, or to "buzz"
//! it by typing `back` and Return): which process, which TTY or window, the
//! AppleScript that does it, and how a refusal is worded.
use vstd::prelude::*;

use crate::board::lines_of;
use crate::launcher::{is_agent, SpawnedAgent};
use crate::text::{chars_contains, chars_of, contains_seq, push_str, str_eq, string_from_chars, trim_chars, trim_seq};
use crate::text::dec_int;

verus! {

/// The PID of the first agent `role:instance` in `agents`, if any.
pub open spec fn pid_in(agents: Seq<SpawnedAgent>, role: Seq<char>, instance: i32) -> Option<u32>
    decreases agents.len(),
{
    if agents.len() == 0 {
        None
    } else if is_agent(agents[0], role, instance) {
        Some(agents[0].pid)
    } else {
        pid_in(agents.drop_first(), role, instance)
    }
}

fn find_pid(agents: &Vec<SpawnedAgent>, role: &str, instance: i32) -> (r: Option<u32>)
    ensures
        r == pid_in(agents@, role@, instance),
{
    let mut i: usize = 0;
    assert(agents@.skip(0) =~= agents@);
    while i < agents.len()
        invariant
            i <= agents@.len(),
            pid_in(agents@, role@, instance) == pid_in(agents@.skip(i as int), role@, instance),
        decreases agents@.len() - i,
    {
        assert(agents@.skip(i as int).drop_first() =~= agents@.skip(i + 1));
        assert(agents@.skip(i as int)[0] == agents@[i as int]);
        if str_eq(agents[i].role.as_str(), role) && agents[i].instance == instance {
            return Some(agents[i].pid);
        }
        i = i + 1;
    }
    assert(agents@.skip(i as int) =~= Seq::<SpawnedAgent>::empty());
    None
}

pub open spec fn no_agent_msg(role: Seq<char>, instance: i32) -> Seq<char> {
    "No spawned agent found for "@ + role + ":"@ + dec_int(instance as int)
}

/// The process of agent `role:instance`: the one the launcher holds, else the
/// one in the manifest on disk (`disk` is `None` when no project is open).
pub fn locate_agent_pid(
    held: &Vec<SpawnedAgent>,
    disk: Option<&Vec<SpawnedAgent>>,
    role: &str,
    instance: i32,
) -> (r: Result<u32, String>)
    ensures
        match r {
            Ok(p) => pid_in(held@, role@, instance) == Some(p) || (pid_in(held@, role@, instance) is None
                && disk is Some && pid_in(disk->0@, role@, instance) == Some(p)),
            Err(m) => pid_in(held@, role@, instance) is None && match disk {
                Some(d) => pid_in(d@, role@, instance) is None,
                None => true,
            } && m@ == no_agent_msg(role@, instance),
        },
{
    if let Some(p) = find_pid(held, role, instance) {
        return Ok(p);
    }
    if let Some(d) = disk {
        if let Some(p) = find_pid(d, role, instance) {
            return Ok(p);
        }
    }
    let mut v: Vec<char> = Vec::new();
    push_str(&mut v, "No spawned agent found for ");
    push_str(&mut v, role);
    push_str(&mut v, ":");
    let n = crate::text::i64_dec(instance as i64);
    crate::text::push_chars(&mut v, &n);
    Err(string_from_chars(&v))
}

/// The controlling terminal that `ps -o tty=` printed: the output trimmed,
/// unless that is empty or `??` (no terminal).
pub open spec fn tty_of(ps_out: Seq<char>) -> Option<Seq<char>> {
    let t = trim_seq(ps_out);
    if t.len() == 0 || t == "??"@ {
        None
    } else {
        Some(t)
    }
}

/// The agent's terminal device name from the output of `ps -o tty=`.
pub fn terminal_tty(ps_out: &str) -> (r: Option<String>)
    ensures
        match r {
            Some(t) => tty_of(ps_out@) == Some(t@),
            None => tty_of(ps_out@) is None,
        },
{
    let t = trim_chars(&chars_of(ps_out));
    if t.len() == 0 || crate::text::chars_is(&t, "??") {
        return None;
    }
    Some(string_from_chars(&t))
}

pub open spec fn script_head(tty: Seq<char>) -> Seq<char> {
    "tell application \"Terminal\"\n    activate\n    set targetTTY to \"/dev/"@ + tty
        + "\"\n    repeat with w in windows\n        repeat with t in tabs of w\n            if tty of t is targetTTY then\n                set selected tab of w to t\n                set index of w to 1\n"@
}

pub open spec fn script_tail() -> Seq<char> {
    "                return\n            end if\n        end repeat\n    end repeat\nend tell"@
}

/// The AppleScript that brings forward the Terminal tab on `/dev/<tty>`.
pub open spec fn focus_script_text(tty: Seq<char>) -> Seq<char> {
    script_head(tty) + script_tail()
}

/// The AppleScript that brings forward the Terminal tab on `/dev/<tty>` and
/// types `back` and Return into it.
pub open spec fn buzz_script_text(tty: Seq<char>) -> Seq<char> {
    script_head(tty)
        + "                delay 0.1\n                tell application \"System Events\"\n                    keystroke \"back\"\n                    keystroke return\n                end tell\n"@
        + script_tail()
}

fn push_script_head(v: &mut Vec<char>, tty: &str)
    ensures
        final(v)@ == old(v)@ + script_head(tty@),
{
    push_str(v, "tell application \"Terminal\"\n    activate\n    set targetTTY to \"/dev/");
    push_str(v, tty);
    push_str(
        v,
        "\"\n    repeat with w in windows\n        repeat with t in tabs of w\n            if tty of t is targetTTY then\n                set selected tab of w to t\n                set index of w to 1\n",
    );
}

/// See `focus_script_text`.
pub fn focus_script(tty: &str) -> (r: String)
    ensures
        r@ == focus_script_text(tty@),
{
    let mut v: Vec<char> = Vec::new();
    push_script_head(&mut v, tty);
    push_str(&mut v, "                return\n            end if\n        end repeat\n    end repeat\nend tell");
    string_from_chars(&v)
}

/// See `buzz_script_text`.
pub fn buzz_script(tty: &str) -> (r: String)
    ensures
        r@ == buzz_script_text(tty@),
{
    let mut v: Vec<char> = Vec::new();
    push_script_head(&mut v, tty);
    push_str(
        &mut v,
        "                delay 0.1\n                tell application \"System Events\"\n                    keystroke \"back\"\n                    keystroke return\n                end tell\n",
    );
    push_str(&mut v, "                return\n            end if\n        end repeat\n    end repeat\nend tell");
    string_from_chars(&v)
}

/// The script failed for want of the Automation permission.
pub open spec fn automation_denied(stderr: Seq<char>) -> bool {
    contains_seq(stderr, "not allowed"@) || contains_seq(stderr, "-1743"@)
}

fn is_automation_denied(stderr: &str) -> (b: bool)
    ensures
        b == automation_denied(stderr@),
{
    let s = chars_of(stderr);
    chars_contains(&s, &chars_of("not allowed")) || chars_contains(&s, &chars_of("-1743"))
}

pub open spec fn seat_text(role: Seq<char>, instance: i32) -> Seq<char> {
    role + ":"@ + dec_int(instance as int)
}

fn push_seat(v: &mut Vec<char>, role: &str, instance: i32)
    ensures
        final(v)@ == old(v)@ + seat_text(role@, instance),
{
    push_str(v, role);
    push_str(v, ":");
    let n = crate::text::i64_dec(instance as i64);
    crate::text::push_chars(v, &n);
}

pub open spec fn focus_error_text(role: Seq<char>, instance: i32, stderr: Seq<char>) -> Seq<char> {
    if automation_denied(stderr) {
        "Automation permission required. Go to System Settings > Privacy & Security > Automation and enable Terminal for Vaak."@
    } else {
        "Failed to focus Terminal window for "@ + seat_text(role, instance) + ": "@ + trim_seq(stderr)
    }
}

/// The error reported when the focus script failed with `stderr`.
pub fn focus_error(role: &str, instance: i32, stderr: &str) -> (r: String)
    ensures
        r@ == focus_error_text(role@, instance, stderr@),
{
    if is_automation_denied(stderr) {
        return "Automation permission required. Go to System Settings > Privacy & Security > Automation and enable Terminal for Vaak.".to_string();
    }
    let mut v: Vec<char> = Vec::new();
    push_str(&mut v, "Failed to focus Terminal window for ");
    push_seat(&mut v, role, instance);
    push_str(&mut v, ": ");
    let t = trim_chars(&chars_of(stderr));
    crate::text::push_chars(&mut v, &t);
    string_from_chars(&v)
}

pub open spec fn buzz_error_text(role: Seq<char>, instance: i32, stderr: Seq<char>) -> Seq<char> {
    if automation_denied(stderr) {
        "Buzz requires two macOS permissions: (1) System Settings > Privacy & Security > Automation — enable Terminal for Vaak. (2) System Settings > Privacy & Security > Accessibility — enable Vaak."@
    } else {
        "Failed to buzz "@ + seat_text(role, instance) + ": "@ + trim_seq(stderr)
    }
}

/// The error reported when the buzz script failed with `stderr`.
pub fn buzz_error(role: &str, instance: i32, stderr: &str) -> (r: String)
    ensures
        r@ == buzz_error_text(role@, instance, stderr@),
{
    if is_automation_denied(stderr) {
        return "Buzz requires two macOS permissions: (1) System Settings > Privacy & Security > Automation — enable Terminal for Vaak. (2) System Settings > Privacy & Security > Accessibility — enable Vaak.".to_string();
    }
    let mut v: Vec<char> = Vec::new();
    push_str(&mut v, "Failed to buzz ");
    push_seat(&mut v, role, instance);
    push_str(&mut v, ": ");
    let t = trim_chars(&chars_of(stderr));
    crate::text::push_chars(&mut v, &t);
    string_from_chars(&v)
}

/// The window id that `xdotool search --pid` printed first: its first line,
/// unless that is empty.
pub open spec fn first_window(out: Seq<char>) -> Option<Seq<char>> {
    let ls = lines_of(out);
    if ls.len() == 0 || ls[0].len() == 0 {
        None
    } else {
        Some(ls[0])
    }
}

/// See `first_window`.
pub fn first_window_id(out: &str) -> (r: Option<String>)
    ensures
        match r {
            Some(w) => first_window(out@) == Some(w@),
            None => first_window(out@) is None,
        },
{
    let cs = chars_of(out);
    if cs.len() == 0 {
        return None;
    }
    let mut i: usize = 0;
    while i < cs.len() && cs[i] != '\n'
        invariant
            i <= cs.len(),
            cs@ == out@,
            forall|j: int| 0 <= j < i ==> cs@[j] != '\n',
        decreases cs.len() - i,
    {
        i = i + 1;
    }
    proof {
        crate::board::lemma_nl_index(out@);
        if i < cs.len() {
            assert(crate::board::nl_index(out@) == i);
        } else {
            assert(crate::board::nl_index(out@) < 0);
        }
    }
    let line = if i < cs.len() {
        let l = crate::text::sub_chars(&cs, 0, i);
        if l.len() > 0 && l[l.len() - 1] == '\r' {
            crate::text::sub_chars(&l, 0, l.len() - 1)
        } else {
            l
        }
    } else {
        cs
    };
    proof {
        if i < out@.len() {
            assert(line@ == crate::board::strip_cr(out@.subrange(0, i as int)));
        } else {
            assert(line@ == out@);
        }
        assert(lines_of(out@)[0] == line@);
    }
    if line.len() == 0 {
        return None;
    }
    Some(string_from_chars(&line))
}

} // verus!
