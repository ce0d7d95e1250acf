//! The voice-output tool server's decisions: which JSON-RPC requests get
//! which reply, the texts of the tool results, and the session id chosen
//! from what the terminal environment offers.
use vstd::prelude::*;

use crate::currency::owned_str;
use crate::text::{chars_of, has_prefix, push_chars, push_str, str_eq, string_from_chars};

verus! {

/// What a request asks of the server.
#[derive(Debug, Clone, PartialEq, Eq)]
pub enum McpStep {
    /// No reply: a notification, or a request missing what it needs.
    Silent,
    /// Reply with the server's protocol version, capabilities and name.
    Initialize,
    /// Reply with the list of tools.
    ToolsList,
    /// Speak this text, then reply with the outcome.
    Speak(String),
    /// Reply that the named tool does not exist.
    UnknownTool(String),
    /// Reply with a method-not-found error for this method.
    MethodNotFound(String),
}

pub open spec fn opt_view(o: Option<&str>) -> Option<Seq<char>> {
    match o {
        Some(s) => Some(s@),
        None => None,
    }
}

/// The step for a request with this `method`, and for a `tools/call` the
/// tool's `name` and the `text` argument (each `None` when missing or not a
/// string).
pub open spec fn step_for(method: Option<Seq<char>>, tool: Option<Seq<char>>, text: Option<Seq<char>>) -> (
    int,
    Seq<char>,
) {
    match method {
        None => (0, Seq::empty()),
        Some(m) => if m == "initialize"@ {
            (1, Seq::empty())
        } else if m == "notifications/initialized"@ {
            (0, Seq::empty())
        } else if m == "tools/list"@ {
            (2, Seq::empty())
        } else if m == "tools/call"@ {
            match tool {
                None => (0, Seq::empty()),
                Some(t) => if t == "speak"@ {
                    match text {
                        None => (0, Seq::empty()),
                        Some(x) => (3, x),
                    }
                } else {
                    (4, t)
                },
            }
        } else {
            (5, m)
        },
    }
}

/// The variant number and text of a step.
pub open spec fn step_code(s: McpStep) -> (int, Seq<char>) {
    match s {
        McpStep::Silent => (0, Seq::empty()),
        McpStep::Initialize => (1, Seq::empty()),
        McpStep::ToolsList => (2, Seq::empty()),
        McpStep::Speak(t) => (3, t@),
        McpStep::UnknownTool(t) => (4, t@),
        McpStep::MethodNotFound(m) => (5, m@),
    }
}

/// Route a JSON-RPC request: `initialize` and `tools/list` are answered, a
/// `tools/call` of `speak` speaks its text, another tool is unknown, the
/// initialized notification and incomplete requests get no reply, and any
/// other method is not found.
pub fn route_request(method: Option<&str>, tool: Option<&str>, text: Option<&str>) -> (r: McpStep)
    ensures
        step_code(r) == step_for(opt_view(method), opt_view(tool), opt_view(text)),
{
    match method {
        None => McpStep::Silent,
        Some(m) => {
            if str_eq(m, "initialize") {
                McpStep::Initialize
            } else if str_eq(m, "notifications/initialized") {
                McpStep::Silent
            } else if str_eq(m, "tools/list") {
                McpStep::ToolsList
            } else if str_eq(m, "tools/call") {
                match tool {
                    None => McpStep::Silent,
                    Some(t) => {
                        if str_eq(t, "speak") {
                            match text {
                                None => McpStep::Silent,
                                Some(x) => McpStep::Speak(owned_str(x)),
                            }
                        } else {
                            McpStep::UnknownTool(owned_str(t))
                        }
                    },
                }
            } else {
                McpStep::MethodNotFound(owned_str(m))
            }
        },
    }
}

pub open spec fn spoke_text(text: Seq<char>) -> Seq<char> {
    "Spoke: \""@ + text + "\""@
}

pub open spec fn unreachable_text(err: Seq<char>) -> Seq<char> {
    "Could not reach Scribe: "@ + err + ". Make sure the Scribe desktop app is running."@
}

/// The text of a `speak` result and whether it is an error: the spoken text
/// quoted, or why the desktop app could not be reached.
pub fn speak_reply(text: &str, outcome: &Result<(), String>) -> (r: (String, bool))
    ensures
        match outcome {
            Ok(()) => r.0@ == spoke_text(text@) && !r.1,
            Err(e) => r.0@ == unreachable_text(e@) && r.1,
        },
{
    let mut v: Vec<char> = Vec::new();
    match outcome {
        Ok(()) => {
            push_str(&mut v, "Spoke: \"");
            push_str(&mut v, text);
            push_str(&mut v, "\"");
            (string_from_chars(&v), false)
        },
        Err(e) => {
            push_str(&mut v, "Could not reach Scribe: ");
            push_str(&mut v, e.as_str());
            push_str(&mut v, ". Make sure the Scribe desktop app is running.");
            (string_from_chars(&v), true)
        },
    }
}

/// "Unknown tool: <name>".
pub fn unknown_tool_text(name: &str) -> (r: String)
    ensures
        r@ == "Unknown tool: "@ + name@,
{
    let mut v: Vec<char> = Vec::new();
    push_str(&mut v, "Unknown tool: ");
    push_str(&mut v, name);
    string_from_chars(&v)
}

/// "Method not found: <method>".
pub fn method_not_found_text(method: &str) -> (r: String)
    ensures
        r@ == "Method not found: "@ + method@,
{
    let mut v: Vec<char> = Vec::new();
    push_str(&mut v, "Method not found: ");
    push_str(&mut v, method);
    string_from_chars(&v)
}

/// JSON-RPC's error code for a request that is not valid JSON.
pub const PARSE_ERROR_CODE: i64 = -32700;

/// JSON-RPC's error code for a method the server does not have.
pub const METHOD_NOT_FOUND_CODE: i64 = -32601;

/// The JSON-RPC error answered to an unknown method: code -32601 and
/// "Method not found: <method>".
pub fn method_not_found_error(method: &str) -> (r: (i64, String))
    ensures
        r.0 == -32601,
        r.1@ == "Method not found: "@ + method@,
{
    (METHOD_NOT_FOUND_CODE, method_not_found_text(method))
}

// ---------------------------------------------------------------------------
// Session id
// ---------------------------------------------------------------------------

/// The session id from the terminal's variables, in priority order: the
/// explicit override as is, then the Windows Terminal, iTerm2 and generic
/// terminal session ids with their prefixes; empty values are skipped.
pub open spec fn env_session_id(
    explicit: Option<Seq<char>>,
    wt: Option<Seq<char>>,
    iterm: Option<Seq<char>>,
    term: Option<Seq<char>>,
) -> Option<Seq<char>> {
    if explicit is Some && explicit->0.len() > 0 {
        explicit
    } else if wt is Some && wt->0.len() > 0 {
        Some("wt-"@ + wt->0)
    } else if iterm is Some && iterm->0.len() > 0 {
        Some("iterm-"@ + iterm->0)
    } else if term is Some && term->0.len() > 0 {
        Some("term-"@ + term->0)
    } else {
        None
    }
}

fn nonempty(o: Option<&str>) -> (b: bool)
    ensures
        b == (o is Some && o->0@.len() > 0),
{
    match o {
        Some(s) => chars_of(s).len() > 0,
        None => false,
    }
}

fn prefixed(p: &str, s: &str) -> (r: String)
    ensures
        r@ == p@ + s@,
{
    let mut v: Vec<char> = Vec::new();
    push_str(&mut v, p);
    push_str(&mut v, s);
    string_from_chars(&v)
}

/// The session id the terminal's variables give, if any.
pub fn session_id_from_env(
    explicit: Option<&str>,
    wt: Option<&str>,
    iterm: Option<&str>,
    term: Option<&str>,
) -> (r: Option<String>)
    ensures
        match r {
            Some(s) => env_session_id(opt_view(explicit), opt_view(wt), opt_view(iterm), opt_view(term)) == Some(
                s@,
            ),
            None => env_session_id(opt_view(explicit), opt_view(wt), opt_view(iterm), opt_view(term)) is None,
        },
{
    if nonempty(explicit) {
        Some(owned_str(explicit.unwrap()))
    } else if nonempty(wt) {
        Some(prefixed("wt-", wt.unwrap()))
    } else if nonempty(iterm) {
        Some(prefixed("iterm-", iterm.unwrap()))
    } else if nonempty(term) {
        Some(prefixed("term-", term.unwrap()))
    } else {
        None
    }
}

/// `s` with every non-overlapping occurrence of `pat` (scanning from the
/// left) replaced by `rep` (`str::replace`, for a non-empty `pat`).
pub open spec fn replace_all(s: Seq<char>, pat: Seq<char>, rep: Seq<char>) -> Seq<char>
    decreases s.len(),
{
    if s.len() == 0 || pat.len() == 0 {
        s
    } else if has_prefix(s, pat) {
        rep + replace_all(s.skip(pat.len() as int), pat, rep)
    } else {
        seq![s[0]] + replace_all(s.skip(1), pat, rep)
    }
}

fn replace_all_exec(s: &Vec<char>, pat: &Vec<char>, rep: &Vec<char>) -> (r: Vec<char>)
    requires
        pat@.len() > 0,
    ensures
        r@ == replace_all(s@, pat@, rep@),
{
    let mut out: Vec<char> = Vec::new();
    let mut i: usize = 0;
    assert(s@.skip(0) =~= s@);
    while i < s.len()
        invariant
            i <= s.len(),
            pat@.len() > 0,
            out@ + replace_all(s@.skip(i as int), pat@, rep@) == replace_all(s@, pat@, rep@),
        decreases s.len() - i,
    {
        let ghost rest = s@.skip(i as int);
        if crate::text::chars_match_at(s, i, pat) {
            proof {
                assert(rest.subrange(0, pat@.len() as int) =~= pat@);
                assert(rest.skip(pat@.len() as int) =~= s@.skip(i + pat@.len()));
            }
            push_chars(&mut out, rep);
            proof {
                assert(out@ + replace_all(s@.skip(i + pat@.len()), pat@, rep@) =~= (out@.subrange(0, out@.len() - rep@.len()))
                    + replace_all(rest, pat@, rep@));
            }
            i = i + pat.len();
        } else {
            proof {
                if rest.len() >= pat@.len() {
                    assert(rest.subrange(0, pat@.len() as int) =~= s@.subrange(i as int, i + pat@.len()));
                }
                assert(rest.skip(1) =~= s@.skip(i + 1));
            }
            let ghost before = out@;
            out.push(s[i]);
            proof {
                assert(out@ + replace_all(s@.skip(i + 1), pat@, rep@) =~= before + replace_all(rest, pat@, rep@));
            }
            i = i + 1;
        }
    }
    assert(s@.skip(s.len() as int) =~= Seq::<char>::empty());
    assert(out@ + replace_all(s@.skip(i as int), pat@, rep@) =~= out@);
    out
}

pub open spec fn tty_session(host: Seq<char>, tty: Seq<char>) -> Seq<char> {
    host + "-tty-"@ + replace_all(replace_all(tty, "/dev/"@, Seq::empty()), "/"@, "-"@)
}

/// The session id of a terminal known by its TTY path: the host, then the
/// path without `/dev/` and with `/` as `-` (so `/dev/pts/3` gives `pts-3`).
pub fn tty_session_id(host: &str, tty: &str) -> (r: String)
    ensures
        r@ == tty_session(host@, tty@),
{
    let t = chars_of(tty);
    let dev = chars_of("/dev/");
    let empty: Vec<char> = Vec::new();
    proof {
        reveal_strlit("/dev/");
        reveal_strlit("/");
    }
    assert(empty@ =~= Seq::<char>::empty());
    let a = replace_all_exec(&t, &dev, &empty);
    let slash = chars_of("/");
    let dash = chars_of("-");
    let b = replace_all_exec(&a, &slash, &dash);
    let mut v: Vec<char> = Vec::new();
    push_str(&mut v, host);
    push_str(&mut v, "-tty-");
    push_chars(&mut v, &b);
    string_from_chars(&v)
}

} // verus!
