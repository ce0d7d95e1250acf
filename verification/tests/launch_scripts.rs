use vaak_core::desktop::{browser_url_check, npm_install_error, permission_granted, permissions_off_macos, settings_pane_check};
use vaak_core::terminal::{
    buzz_error, buzz_script, first_window_id, focus_error, focus_script, locate_agent_pid, terminal_tty,
};
use vaak_core::launcher::{build_join_prompt, companions_to_launch, remove_role, take_role, SpawnedAgent};
use vaak_core::spawn::{
    agent_program_path, mac_launch_script, pid_from_text, terminal_open_error, windows_launch_script,
    wmi_create_command,
};

#[test]
fn windows_script_quotes_program_and_prompt() {
    let prompt = build_join_prompt("developer");
    assert_eq!(
        windows_launch_script("C:\\Program Files\\agent.exe", "developer"),
        format!("& 'C:\\Program Files\\agent.exe' --dangerously-skip-permissions '{}'", prompt)
    );
    assert_eq!(
        windows_launch_script("C:\\it's\\agent.exe", "qa"),
        format!("& 'C:\\it''s\\agent.exe' --dangerously-skip-permissions '{}'", build_join_prompt("qa"))
    );
}

#[test]
fn wmi_command_passes_directory_separately() {
    assert_eq!(
        wmi_create_command("C:\\Temp\\a.ps1", "D:\\o'brien"),
        "$r = Invoke-CimMethod -ClassName Win32_Process -MethodName Create -Arguments @{CommandLine='powershell.exe -ExecutionPolicy Bypass -NoExit -File \"C:\\Temp\\a.ps1\"';CurrentDirectory='D:\\o''brien'}; Write-Output $r.ProcessId"
    );
}

#[test]
fn program_path_from_where_output() {
    assert_eq!(agent_program_path(Some("C:\\npm\\agent\r\nC:\\npm\\agent.exe\r\n"), "agent"), "C:\\npm\\agent.exe");
    assert_eq!(agent_program_path(Some("\n   C:\\a b\\agent.exe   \nC:\\z\\agent.exe"), "agent"), "C:\\a b\\agent.exe");
    assert_eq!(agent_program_path(Some("C:\\npm\\agent.cmd"), "agent"), "agent");
    assert_eq!(agent_program_path(Some(""), "agent"), "agent");
    assert_eq!(agent_program_path(None, "agent"), "agent");
}

#[test]
fn mac_script_text() {
    let s = mac_launch_script("agent", "/tmp/a.pid", "/Users/o'neil/p", "tester");
    let expected = format!(
        "#!/bin/sh\n# Verify agent is on PATH before proceeding\nif ! command -v agent >/dev/null 2>&1; then\necho 'ERROR: agent not found on PATH' >&2\nexit 1\nfi\necho $$ > '/tmp/a.pid'\ncd '/Users/o'\\''neil/p'\nexec agent --dangerously-skip-permissions '{}'\n",
        build_join_prompt("tester")
    );
    assert_eq!(s, expected);
}

#[test]
fn terminal_error_wording() {
    assert!(terminal_open_error("dev", "execution error: Not authorized (-1743)").starts_with("macOS blocked Vaak"));
    assert!(terminal_open_error("dev", "Operation not permitted").starts_with("macOS blocked Vaak"));
    assert_eq!(
        terminal_open_error("dev", "LSOpenURLsWithRole() failed"),
        "Failed to open Terminal.app for dev: LSOpenURLsWithRole() failed"
    );
}

#[test]
fn pid_file_contents() {
    assert_eq!(pid_from_text(" 4242\n"), Some(4242));
    assert_eq!(pid_from_text("+7"), Some(7));
    assert_eq!(pid_from_text(""), None);
    assert_eq!(pid_from_text("12a"), None);
    assert_eq!(pid_from_text("4294967296"), None);
    assert_eq!(pid_from_text("4294967295"), Some(4294967295));
}

fn agent(pid: u32, role: &str, instance: i32) -> SpawnedAgent {
    SpawnedAgent { pid, role: role.to_string(), instance, spawned_at: "2026-01-01T00:00:00Z".to_string() }
}

#[test]
fn companion_kill_takes_role_regardless_of_instance() {
    let mut v = vec![agent(1, "dev", 0), agent(2, "audience", 3), agent(3, "audience", 0)];
    let t = take_role(&mut v, "audience").unwrap();
    assert_eq!(t.pid, 2);
    assert_eq!(v.len(), 2);
    assert!(take_role(&mut v, "nobody").is_none());
    let rest = remove_role(&v, "audience");
    assert_eq!(rest.len(), 1);
    assert_eq!(rest[0].pid, 1);
}

#[test]
fn companions_started_with_a_role() {
    let c = vec![("audience".to_string(), true), ("scribe".to_string(), false), ("timer".to_string(), true)];
    assert_eq!(companions_to_launch(&c, false), vec!["audience".to_string(), "timer".to_string()]);
    assert!(companions_to_launch(&c, true).is_empty());
}

#[test]
fn agent_pid_from_memory_then_disk() {
    let held = vec![agent(10, "dev", 0)];
    let disk = vec![agent(20, "dev", 1), agent(30, "dev", 0)];
    assert_eq!(locate_agent_pid(&held, Some(&disk), "dev", 0), Ok(10));
    assert_eq!(locate_agent_pid(&held, Some(&disk), "dev", 1), Ok(20));
    assert_eq!(locate_agent_pid(&held, None, "dev", 1), Err("No spawned agent found for dev:1".to_string()));
    assert_eq!(locate_agent_pid(&held, Some(&disk), "qa", -1), Err("No spawned agent found for qa:-1".to_string()));
}

#[test]
fn terminal_device_and_window() {
    assert_eq!(terminal_tty(" ttys003\n"), Some("ttys003".to_string()));
    assert_eq!(terminal_tty("??\n"), None);
    assert_eq!(terminal_tty("   "), None);
    assert_eq!(first_window_id("62914566\n62914570\n"), Some("62914566".to_string()));
    assert_eq!(first_window_id("\n62914570\n"), None);
    assert_eq!(first_window_id("7\r\n"), Some("7".to_string()));
    assert_eq!(first_window_id(""), None);
}

#[test]
fn terminal_scripts_and_errors() {
    let f = focus_script("ttys003");
    assert!(f.starts_with("tell application \"Terminal\"\n    activate\n    set targetTTY to \"/dev/ttys003\"\n"));
    assert!(f.ends_with("                return\n            end if\n        end repeat\n    end repeat\nend tell"));
    assert!(!f.contains("keystroke"));
    let b = buzz_script("ttys003");
    assert!(b.contains("                    keystroke \"back\"\n                    keystroke return\n"));
    assert_eq!(
        focus_error("dev", 0, "execution error: Not authorized to send Apple events (-1743)"),
        "Automation permission required. Go to System Settings > Privacy & Security > Automation and enable Terminal for Vaak."
    );
    assert_eq!(focus_error("dev", 2, "  boom \n"), "Failed to focus Terminal window for dev:2: boom");
    assert_eq!(buzz_error("qa", 1, "oops"), "Failed to buzz qa:1: oops");
    assert!(buzz_error("qa", 1, "is not allowed assistive access").starts_with("Buzz requires two macOS permissions"));
}

#[test]
fn desktop_allow_lists_and_probes() {
    assert_eq!(browser_url_check("https://nodejs.org"), Ok(()));
    assert_eq!(browser_url_check("http://x"), Err("Only https:// URLs are allowed".to_string()));
    assert_eq!(browser_url_check("file:///etc/passwd"), Err("Only https:// URLs are allowed".to_string()));
    assert_eq!(settings_pane_check("x-apple.systempreferences:com.apple.preference.security"), Ok(()));
    assert_eq!(settings_pane_check("https://evil"), Err("Invalid settings pane URL".to_string()));
    assert!(permission_granted(Some((true, ""))));
    assert!(permission_granted(Some((false, "some other failure"))));
    assert!(!permission_granted(Some((false, "Not authorized to send Apple events (-1743)"))));
    assert!(!permission_granted(None));
    let p = permissions_off_macos(true);
    assert!(p.automation && p.accessibility && p.screen_recording);
    assert_eq!(p.platform, "windows");
    assert_eq!(permissions_off_macos(false).platform, "linux");
    assert_eq!(
        npm_install_error("pkg", "npm ERR! code EACCES"),
        "Permission denied. On macOS/Linux, try: sudo npm install -g pkg"
    );
    assert_eq!(npm_install_error("pkg", " network down \n"), "npm install failed: network down");
}
