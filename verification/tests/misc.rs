use devlaunch::git_write::{reset, validate_paths, validate_ref_name};
use devlaunch::ready::{ps_process_name, wait_block_cmd, wait_block_ps, ReadyCondition};
use devlaunch::tray::{launch_entry_id, menu_action, menu_label, open_entry_id, MenuAction};

#[test]
fn validate_paths_rejects_empty() {
    assert!(validate_paths(&vec![]).is_err());
    assert!(validate_paths(&vec!["".into()]).is_err());
    assert!(validate_paths(&vec!["a.txt".into()]).is_ok());
}

#[test]
fn validate_ref_name_matrix() {
    assert!(validate_ref_name("feature/x").is_ok());
    assert!(validate_ref_name("main").is_ok());
    assert!(validate_ref_name("").is_err());
    assert!(validate_ref_name("-D").is_err());
    assert!(validate_ref_name("a b").is_err());
    assert!(validate_ref_name("a..b").is_err());
    assert!(validate_ref_name("a.lock").is_err());
    assert!(validate_ref_name("a@{b").is_err());
}

#[test]
fn reset_rejects_hard_and_bad_hash() {
    let run = |_: Vec<String>| -> Result<String, String> { Ok(String::new()) };
    assert!(reset(&run, "aaaa", "hard").unwrap_err().contains("不支持"));
    assert!(reset(&run, "--all", "soft").is_err());
}

#[test]
fn reset_runs_git_with_the_flag() {
    let seen = std::cell::RefCell::new(Vec::new());
    let run = |args: Vec<String>| -> Result<String, String> {
        seen.borrow_mut().push(args);
        Ok(String::new())
    };
    reset(&run, " abcd ", "mixed").err();
    assert!(seen.borrow().is_empty(), "a hash with spaces is not a hash");
    reset(&run, "abcd", "mixed").unwrap();
    assert_eq!(seen.borrow()[0], vec!["reset", "--mixed", "abcd"]);
}

fn port_cond(timeout_sec: u64) -> ReadyCondition {
    ReadyCondition::Port { port: 8081, host: "127.0.0.1".into(), timeout_sec }
}

#[test]
fn immediate_yields_empty_block() {
    assert_eq!(wait_block_cmd(&ReadyCondition::Immediate, 30, "x"), "");
    assert_eq!(wait_block_ps(&ReadyCondition::Immediate, 30, "x"), "");
}

#[test]
fn zero_delay_yields_empty_block() {
    let d = ReadyCondition::Delay { seconds: 0 };
    assert_eq!(wait_block_cmd(&d, 30, "x"), "");
    assert_eq!(wait_block_ps(&d, 30, "x"), "");
}

#[test]
fn delay_translated_per_dialect() {
    let d = ReadyCondition::Delay { seconds: 5 };
    assert_eq!(wait_block_cmd(&d, 30, "x"), "timeout /t 5 /nobreak >nul");
    assert_eq!(wait_block_ps(&d, 30, "x"), "Start-Sleep -Seconds 5");
}

#[test]
fn port_cmd_block_polls_then_guards() {
    let s = wait_block_cmd(&port_cond(30), 30, "server");
    assert!(s.contains("$tries=60"));
    assert!(s.contains("Test-NetConnection '127.0.0.1' -Port 8081 -InformationLevel Quiet"));
    assert!(s.contains("exit 0"));
    assert!(s.contains("if errorlevel 1"));
    assert!(s.contains(r#"step "server" NOT READY"#));
    assert!(s.contains("pause && exit /b 1"));
}

#[test]
fn port_zero_timeout_falls_back_to_default() {
    let s = wait_block_cmd(&port_cond(0), 15, "x");
    assert!(s.contains("$tries=30"));
}

#[test]
fn port_ps_block_polls_then_guards() {
    let s = wait_block_ps(&port_cond(10), 30, "api");
    assert!(s.contains("$tries = 20"));
    assert!(s.contains("break"));
    assert!(s.contains("Write-Host '[DevLaunch] step api NOT READY"));
    assert!(s.contains("exit 1"));
}

#[test]
fn process_block_strips_exe_suffix() {
    let cond = ReadyCondition::Process { process_name: "python.exe".into(), timeout_sec: 5 };
    let s = wait_block_cmd(&cond, 30, "x");
    assert!(s.contains("Get-Process -Name 'python' -ErrorAction SilentlyContinue"));
    assert!(s.contains("timeout 5s"));
    let ps = wait_block_ps(&cond, 30, "x");
    assert!(ps.contains("Get-Process -Name 'python'"));
}

#[test]
fn ps_process_name_case_insensitive() {
    assert_eq!(ps_process_name("Python.EXE"), "python");
    assert_eq!(ps_process_name("node"), "node");
}

#[test]
fn label_strips_dangerous_chars() {
    let cond = ReadyCondition::Process { process_name: "a.exe".into(), timeout_sec: 1 };
    let s = wait_block_cmd(&cond, 30, "a & b | c");
    assert!(s.contains(r#"step "a  b  c" NOT READY"#));
    let ps = wait_block_ps(&cond, 30, "it's");
    assert!(ps.contains("step its NOT READY"));
}

#[test]
fn menu_label_escapes_ampersand() {
    assert_eq!(menu_label("A&B"), "A&&B");
    assert_eq!(menu_label("plain"), "plain");
}

#[test]
fn tray_entries_ask_for_their_project() {
    assert_eq!(launch_entry_id("p1"), "launch:p1");
    assert_eq!(open_entry_id("p1"), "open:p1");
    assert_eq!(menu_action(&launch_entry_id("p1")), MenuAction::Launch("p1".into()));
    assert_eq!(menu_action(&open_entry_id("a:b")), MenuAction::OpenDir("a:b".into()));
    assert_eq!(menu_action("show"), MenuAction::ShowWindow);
    assert_eq!(menu_action("quit"), MenuAction::Quit);
    assert_eq!(menu_action("proj-p1"), MenuAction::Nothing);
    assert_eq!(menu_action("launch:"), MenuAction::Launch(String::new()));
}
