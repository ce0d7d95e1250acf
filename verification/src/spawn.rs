//! The texts that start an agent in a terminal on Windows and macOS: the
//! launch scripts, the process-creation command, which program path to run,
//! how a failed Terminal launch is worded, and the PID the launched shell
//! writes back.
use vstd::prelude::*;

use crate::board::{blank, board_lines, lines_of, non_blank};
use crate::launcher::{build_join_prompt, join_prompt, push_sh_escaped, sh_escape};
use crate::snapshot::parse_u32_spec;
use crate::text::{
    chars_contains, chars_of, has_suffix, lemma_lead_ws_bound, push_str, string_from_chars, texts,
    trim_chars, trim_seq, contains_seq,
};
use crate::timefmt::bytes_of;

verus! {

/// `s` with every `'` doubled, for use inside single quotes in PowerShell.
pub open spec fn ps_escape(s: Seq<char>) -> Seq<char>
    decreases s.len(),
{
    if s.len() == 0 {
        Seq::empty()
    } else if s.last() == '\'' {
        ps_escape(s.drop_last()) + seq!['\'', '\'']
    } else {
        ps_escape(s.drop_last()).push(s.last())
    }
}

fn push_ps_escaped(v: &mut Vec<char>, s: &str)
    ensures
        final(v)@ == old(v)@ + ps_escape(s@),
{
    let cs = chars_of(s);
    let mut i: usize = 0;
    assert(cs@.take(0) =~= Seq::<char>::empty());
    while i < cs.len()
        invariant
            i <= cs.len(),
            cs@ == s@,
            v@ == old(v)@ + ps_escape(cs@.take(i as int)),
        decreases cs.len() - i,
    {
        proof {
            assert(cs@.take(i + 1).drop_last() =~= cs@.take(i as int));
            assert(cs@.take(i + 1).last() == cs@[i as int]);
        }
        if cs[i] == '\'' {
            v.push('\'');
            v.push('\'');
        } else {
            v.push(cs[i]);
        }
        i = i + 1;
    }
    assert(cs@.take(cs.len() as int) =~= cs@);
}

pub open spec fn windows_script(program: Seq<char>, role: Seq<char>) -> Seq<char> {
    "& '"@ + ps_escape(program) + "' --dangerously-skip-permissions '"@ + ps_escape(join_prompt(role))
        + "'"@
}

/// The PowerShell script that runs the agent program at `program` with the
/// join prompt for `role`, both single-quoted.
pub fn windows_launch_script(program: &str, role: &str) -> (r: String)
    ensures
        r@ == windows_script(program@, role@),
{
    let prompt = build_join_prompt(role);
    let mut v: Vec<char> = Vec::new();
    push_str(&mut v, "& '");
    push_ps_escaped(&mut v, program);
    push_str(&mut v, "' --dangerously-skip-permissions '");
    push_ps_escaped(&mut v, prompt.as_str());
    push_str(&mut v, "'");
    string_from_chars(&v)
}

pub open spec fn wmi_command(script_path: Seq<char>, project_dir: Seq<char>) -> Seq<char> {
    "$r = Invoke-CimMethod -ClassName Win32_Process -MethodName Create -Arguments @{CommandLine='powershell.exe -ExecutionPolicy Bypass -NoExit -File \""@
        + ps_escape(script_path) + "\"';CurrentDirectory='"@ + ps_escape(project_dir)
        + "'}; Write-Output $r.ProcessId"@
}

/// The PowerShell command that has the system's process service start the
/// script at `script_path` in `project_dir` (so the agent outlives the app)
/// and prints the new process id.
pub fn wmi_create_command(script_path: &str, project_dir: &str) -> (r: String)
    ensures
        r@ == wmi_command(script_path@, project_dir@),
{
    let mut v: Vec<char> = Vec::new();
    push_str(
        &mut v,
        "$r = Invoke-CimMethod -ClassName Win32_Process -MethodName Create -Arguments @{CommandLine='powershell.exe -ExecutionPolicy Bypass -NoExit -File \"",
    );
    push_ps_escaped(&mut v, script_path);
    push_str(&mut v, "\"';CurrentDirectory='");
    push_ps_escaped(&mut v, project_dir);
    push_str(&mut v, "'}; Write-Output $r.ProcessId");
    string_from_chars(&v)
}

/// The line names an executable: trimmed, it ends in `.exe`.
pub open spec fn names_exe(l: Seq<char>) -> bool {
    has_suffix(trim_seq(l), ".exe"@)
}

/// The first line that names an executable, trimmed.
pub open spec fn first_exe(ls: Seq<Seq<char>>) -> Option<Seq<char>>
    decreases ls.len(),
{
    if ls.len() == 0 {
        None
    } else {
        match first_exe(ls.drop_last()) {
            Some(p) => Some(p),
            None => if names_exe(ls.last()) {
                Some(trim_seq(ls.last()))
            } else {
                None
            },
        }
    }
}

/// The program to run: the first executable that the `where` lookup printed,
/// or the program's bare name `bare` when the lookup failed (`None`) or
/// printed none.
pub open spec fn agent_program(where_out: Option<Seq<char>>, bare: Seq<char>) -> Seq<char> {
    match where_out {
        Some(o) => match first_exe(lines_of(o)) {
            Some(p) => p,
            None => bare,
        },
        None => bare,
    }
}

proof fn lemma_blank_not_exe(l: Seq<char>)
    requires
        blank(l),
    ensures
        !names_exe(l),
{
    reveal_strlit(".exe");
    lemma_lead_ws_bound(l);
    if crate::text::lead_ws(l) < l.len() {
        assert(crate::text::is_ws(l[crate::text::lead_ws(l) as int]));
    }
    assert(crate::text::trim_start_seq(l).len() == 0);
    assert(trim_seq(l).len() == 0);
}

proof fn lemma_first_exe_non_blank(ls: Seq<Seq<char>>)
    ensures
        first_exe(non_blank(ls)) == first_exe(ls),
    decreases ls.len(),
{
    if ls.len() > 0 {
        lemma_first_exe_non_blank(ls.drop_last());
        if blank(ls.last()) {
            lemma_blank_not_exe(ls.last());
        } else {
            let nb = non_blank(ls.drop_last()).push(ls.last());
            assert(nb.drop_last() =~= non_blank(ls.drop_last()));
        }
    }
}

proof fn lemma_first_exe_prefix(ls: Seq<Seq<char>>, k: int)
    requires
        0 <= k <= ls.len(),
        first_exe(ls.take(k)) is Some,
    ensures
        first_exe(ls) == first_exe(ls.take(k)),
    decreases ls.len(),
{
    if k < ls.len() {
        assert(ls.drop_last().take(k) =~= ls.take(k));
        lemma_first_exe_prefix(ls.drop_last(), k);
    } else {
        assert(ls.take(k) =~= ls);
    }
}

/// The path of the agent program `bare` from the output of the `where`
/// lookup (`None` when the lookup failed).
pub fn agent_program_path(where_out: Option<&str>, bare: &str) -> (r: String)
    ensures
        r@ == agent_program(
            match where_out {
                Some(o) => Some(o@),
                None => None,
            },
            bare@,
        ),
{
    let out = match where_out {
        Some(o) => o,
        None => return bare.to_string(),
    };
    let ls = board_lines(out);
    let ghost all = texts(ls@);
    proof {
        lemma_first_exe_non_blank(lines_of(out@));
        reveal_strlit(".exe");
    }
    let mut i: usize = 0;
    assert(all.take(0) =~= Seq::<Seq<char>>::empty());
    while i < ls.len()
        invariant
            i <= ls@.len(),
            all == texts(ls@),
            all == non_blank(lines_of(out@)),
            first_exe(all) == first_exe(lines_of(out@)),
            where_out == Some(out),
            first_exe(all.take(i as int)) is None,
        decreases ls@.len() - i,
    {
        let cs = chars_of(ls[i].as_str());
        let t = trim_chars(&cs);
        let exe = chars_of(".exe");
        let hit = t.len() >= 4 && crate::text::chars_match_at(&t, t.len() - 4, &exe);
        proof {
            assert(all.take(i + 1).drop_last() =~= all.take(i as int));
            assert(all.take(i + 1).last() == ls@[i as int]@);
            reveal_strlit(".exe");
            assert(t@ == trim_seq(all[i as int]));
            assert(exe@.len() == 4);
            assert(hit == names_exe(all[i as int]));
        }
        if hit {
            proof {
                lemma_first_exe_prefix(all, i + 1);
            }
            return string_from_chars(&t);
        }
        i = i + 1;
    }
    assert(all.take(all.len() as int) =~= all);
    bare.to_string()
}

pub open spec fn mac_script(program: Seq<char>, pid_file: Seq<char>, project_dir: Seq<char>, role: Seq<char>) -> Seq<char> {
    "#!/bin/sh\n# Verify "@ + program + " is on PATH before proceeding\nif ! command -v "@ + program
        + " >/dev/null 2>&1; then\necho 'ERROR: "@ + program + " not found on PATH' >&2\nexit 1\nfi\necho $$ > '"@
        + sh_escape(pid_file) + "'\ncd '"@ + sh_escape(project_dir) + "'\nexec "@ + program
        + " --dangerously-skip-permissions '"@ + sh_escape(join_prompt(role)) + "'\n"@
}

/// The shell script that, in a new Terminal window, checks that the agent
/// program `program` is installed, writes its own PID to `pid_file`, enters
/// `project_dir` and becomes the agent with the join prompt for `role`.
pub fn mac_launch_script(program: &str, pid_file: &str, project_dir: &str, role: &str) -> (r: String)
    ensures
        r@ == mac_script(program@, pid_file@, project_dir@, role@),
{
    let prompt = build_join_prompt(role);
    let mut v: Vec<char> = Vec::new();
    push_str(&mut v, "#!/bin/sh\n# Verify ");
    push_str(&mut v, program);
    push_str(&mut v, " is on PATH before proceeding\nif ! command -v ");
    push_str(&mut v, program);
    push_str(&mut v, " >/dev/null 2>&1; then\necho 'ERROR: ");
    push_str(&mut v, program);
    push_str(&mut v, " not found on PATH' >&2\nexit 1\nfi\necho $$ > '");
    push_sh_escaped(&mut v, pid_file);
    push_str(&mut v, "'\ncd '");
    push_sh_escaped(&mut v, project_dir);
    push_str(&mut v, "'\nexec ");
    push_str(&mut v, program);
    push_str(&mut v, " --dangerously-skip-permissions '");
    push_sh_escaped(&mut v, prompt.as_str());
    push_str(&mut v, "'\n");
    string_from_chars(&v)
}

/// The Terminal launch failed for want of the Automation permission, as far
/// as its error output shows.
pub open spec fn looks_like_permission_denial(stderr: Seq<char>) -> bool {
    ||| contains_seq(stderr, "not allowed"@)
    ||| contains_seq(stderr, "not permitted"@)
    ||| contains_seq(stderr, "-1743"@)
    ||| contains_seq(stderr, "permission"@)
}

pub open spec fn terminal_error(role: Seq<char>, stderr: Seq<char>) -> Seq<char> {
    if looks_like_permission_denial(stderr) {
        "macOS blocked Vaak from opening Terminal.app. Go to System Settings > Privacy & Security > Automation and enable 'Terminal' under 'Vaak'. Then try again."@
    } else {
        "Failed to open Terminal.app for "@ + role + ": "@ + stderr
    }
}

/// The error reported when opening Terminal.app failed with `stderr`.
pub fn terminal_open_error(role: &str, stderr: &str) -> (r: String)
    ensures
        r@ == terminal_error(role@, stderr@),
{
    let s = chars_of(stderr);
    if chars_contains(&s, &chars_of("not allowed")) || chars_contains(&s, &chars_of("not permitted"))
        || chars_contains(&s, &chars_of("-1743")) || chars_contains(&s, &chars_of("permission")) {
        return "macOS blocked Vaak from opening Terminal.app. Go to System Settings > Privacy & Security > Automation and enable 'Terminal' under 'Vaak'. Then try again.".to_string();
    }
    let mut v: Vec<char> = Vec::new();
    push_str(&mut v, "Failed to open Terminal.app for ");
    push_str(&mut v, role);
    push_str(&mut v, ": ");
    push_str(&mut v, stderr);
    string_from_chars(&v)
}

/// The PID written by the launch script (or printed by the process
/// service): the text trimmed, read as a `u32`.
pub fn pid_from_text(content: &str) -> (r: Option<u32>)
    ensures
        r == parse_u32_spec(vstd::utf8::encode_utf8(trim_seq(content@))),
{
    let t = string_from_chars(&trim_chars(&chars_of(content)));
    let ts = t.as_str();
    let b = ts.as_bytes();
    proof {
        assert(bytes_of(ts) == vstd::utf8::encode_utf8(ts@));
        assert(b@ == bytes_of(ts));
        assert(b@.subrange(0, b@.len() as int) =~= b@);
    }
    crate::snapshot::parse_u32_bytes(b, 0, b.len())
}

} // verus!
