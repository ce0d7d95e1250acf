//! What the desktop app lets the UI open, and how it reads the answers of
//! the macOS permission probes.
use vstd::prelude::*;

use crate::launcher::MacPermissions;
use crate::terminal::automation_denied;
use crate::text::{chars_contains, chars_of, chars_starts_with, contains_seq, has_prefix, push_chars, push_str, string_from_chars, trim_chars, trim_seq};

verus! {

/// Only `https://` URLs go to the browser.
pub fn browser_url_check(url: &str) -> (r: Result<(), String>)
    ensures
        match r {
            Ok(()) => has_prefix(url@, "https://"@),
            Err(m) => !has_prefix(url@, "https://"@) && m@ == "Only https:// URLs are allowed"@,
        },
{
    if !chars_starts_with(&chars_of(url), &chars_of("https://")) {
        return Err("Only https:// URLs are allowed".to_string());
    }
    Ok(())
}

/// Only System Settings pane URLs are opened as settings panes.
pub fn settings_pane_check(pane_url: &str) -> (r: Result<(), String>)
    ensures
        match r {
            Ok(()) => has_prefix(pane_url@, "x-apple.systempreferences:"@),
            Err(m) => !has_prefix(pane_url@, "x-apple.systempreferences:"@) && m@
                == "Invalid settings pane URL"@,
        },
{
    if !chars_starts_with(&chars_of(pane_url), &chars_of("x-apple.systempreferences:")) {
        return Err("Invalid settings pane URL".to_string());
    }
    Ok(())
}

/// A permission probe (an AppleScript run) shows the permission granted
/// unless it failed with the Automation refusal; a probe that could not run
/// at all (`None`) shows it missing.
pub open spec fn probe_granted(outcome: Option<(bool, Seq<char>)>) -> bool {
    match outcome {
        Some((ok, stderr)) => ok || !automation_denied(stderr),
        None => false,
    }
}

/// See `probe_granted`: `outcome` is the probe's success and error output.
pub fn permission_granted(outcome: Option<(bool, &str)>) -> (b: bool)
    ensures
        b == probe_granted(
            match outcome {
                Some((ok, e)) => Some((ok, e@)),
                None => None,
            },
        ),
{
    match outcome {
        Some((ok, stderr)) => {
            if ok {
                return true;
            }
            let s = chars_of(stderr);
            !(chars_contains(&s, &chars_of("not allowed")) || chars_contains(&s, &chars_of("-1743")))
        },
        None => false,
    }
}

/// Off macOS there is nothing to grant: every permission reads as granted,
/// with the platform's name.
pub fn permissions_off_macos(windows: bool) -> (p: MacPermissions)
    ensures
        p.automation && p.accessibility && p.screen_recording,
        p.platform@ == if windows {
            "windows"@
        } else {
            "linux"@
        },
{
    MacPermissions {
        automation: true,
        accessibility: true,
        screen_recording: true,
        platform: if windows {
            "windows".to_string()
        } else {
            "linux".to_string()
        },
    }
}

pub open spec fn npm_error_text(package: Seq<char>, stderr: Seq<char>) -> Seq<char> {
    if contains_seq(stderr, "EACCES"@) || contains_seq(stderr, "permission denied"@) {
        "Permission denied. On macOS/Linux, try: sudo npm install -g "@ + package
    } else {
        "npm install failed: "@ + trim_seq(stderr)
    }
}

/// The error reported when `npm install -g <package>` failed with `stderr`:
/// a permission refusal gets the advice to rerun it with `sudo`.
pub fn npm_install_error(package: &str, stderr: &str) -> (r: String)
    ensures
        r@ == npm_error_text(package@, stderr@),
{
    let s = chars_of(stderr);
    let mut v: Vec<char> = Vec::new();
    if chars_contains(&s, &chars_of("EACCES")) || chars_contains(&s, &chars_of("permission denied")) {
        push_str(&mut v, "Permission denied. On macOS/Linux, try: sudo npm install -g ");
        push_str(&mut v, package);
    } else {
        push_str(&mut v, "npm install failed: ");
        push_chars(&mut v, &trim_chars(&s));
    }
    string_from_chars(&v)
}

} // verus!
