use base64::Engine;
use devlaunch::config::Shell;
use devlaunch::platform::{
    build_wt_commandline, cmd_launch_args, cmd_pane_command, encode_ps_command, escape_echo_text, plan_spawn,
    ps_launch_args, ps_pane_script, validate_wt_commandline, PaneSpec, SpawnPlan,
};

fn pane(title: &str, dir: &str, shell: Shell, cmd: &str) -> PaneSpec {
    PaneSpec { title: title.into(), work_dir: dir.into(), shell, command: cmd.into(), env: vec![] }
}

fn decode_ps_command(b64: &str) -> String {
    let bytes = base64::engine::general_purpose::STANDARD.decode(b64).unwrap();
    let units: Vec<u16> = bytes.chunks_exact(2).map(|c| u16::from_le_bytes([c[0], c[1]])).collect();
    String::from_utf16(&units).unwrap()
}

#[test]
fn escape_echo_text_escapes_cmd_metachars() {
    assert_eq!(escape_echo_text(r#"a & b | c < d > e ^ f"#), r#"a ^& b ^| c ^< d ^> e ^^ f"#);
    assert_eq!(escape_echo_text("echo 中文"), "echo 中文");
}

#[test]
fn cmd_pane_command_echoes_prompt_per_line() {
    assert_eq!(
        cmd_pane_command(r"D:\My Proj\backend", "conda activate x\npython -m uvicorn main:app"),
        r#"cd /d "D:\My Proj\backend" && echo D:\My Proj\backend^>conda activate x && conda activate x && echo D:\My Proj\backend^>python -m uvicorn main:app && python -m uvicorn main:app"#
    );
    assert_eq!(
        cmd_pane_command(r"D:\cxdownload\迅雷", "dir\ndir"),
        r#"cd /d "D:\cxdownload\迅雷" && echo D:\cxdownload\迅雷^>dir && dir && echo D:\cxdownload\迅雷^>dir && dir"#
    );
}

#[test]
fn cmd_pane_command_skips_blank_lines_and_empty_command() {
    assert_eq!(cmd_pane_command(r"D:\p", "  "), r#"cd /d "D:\p""#);
    assert_eq!(
        cmd_pane_command(r"D:\p", "dir\n\n  \ncd x"),
        r#"cd /d "D:\p" && echo D:\p^>dir && dir && echo D:\p^>cd x && cd x"#
    );
}

#[test]
fn cmd_pane_prompt_for_drive_root() {
    assert_eq!(cmd_pane_command(r"D:\", "dir"), r#"cd /d "D:\" && echo D:\^>dir && dir"#);
}

#[test]
fn ps_pane_script_quotes_and_multiline() {
    assert_eq!(
        ps_pane_script(r"D:\it's", "npm run dev\nnpm test"),
        "Set-Location -LiteralPath 'D:\\it''s'\r\nnpm run dev\nnpm test"
    );
}

#[test]
fn ps_encoded_command_is_utf16le_base64() {
    assert_eq!(encode_ps_command("hi"), "aABpAA==");
}

#[test]
fn ps_encoded_command_round_trips_surrogate_pairs() {
    let script = "echo 😀 中文";
    assert_eq!(decode_ps_command(&encode_ps_command(script)), script);
}

#[test]
fn wt_commandline_first_tab_then_splits() {
    let panes = vec![
        pane("后端", r"D:\p\backend", Shell::Cmd, "python app.py"),
        pane("前端", r"D:\p\frontend", Shell::PowerShell, "npm run dev"),
    ];
    let line = build_wt_commandline("XingTu", &panes);
    assert_eq!(
        line,
        format!(
            r#"-w -1 nt -d "D:\p\backend" --title "XingTu" --suppressApplicationTitle cmd /K "cd /d "D:\p\backend" && echo D:\p\backend^>python app.py && python app.py" ; sp -V -d "D:\p\frontend" --title "前端" --suppressApplicationTitle powershell -NoExit -ExecutionPolicy Bypass -EncodedCommand {}"#,
            encode_ps_command(&ps_pane_script(r"D:\p\frontend", "npm run dev"))
        )
    );
}

#[test]
fn escape_matrix_in_wt_commandline_and_pane_commands() {
    let cases: &[(&str, &str)] = &[
        ("quote", r#"echo "a b""#),
        ("single-quote", "echo 'x'"),
        ("amp", "a & b"),
        ("pipe", "a | b"),
        ("lt", "a < b"),
        ("gt", "a > b"),
        ("caret", "a ^ b"),
        ("percent", "echo %PATH%"),
        ("bang", "echo !x!"),
        ("parens", "echo (x)"),
        ("hash", "rem # hash"),
        ("chinese", "echo 中文"),
        ("emoji", "echo 😀"),
        ("double-amp", "a && b"),
        ("flag", r#"--flag="a b""#),
    ];
    for (label, cmd) in cases {
        let cpane = pane("t", r"D:\p", Shell::Cmd, cmd);
        let line = build_wt_commandline("X", &[cpane]);
        let expected_pane = format!(r#"cd /d "D:\p" && echo {} && {cmd}"#, escape_echo_text(&format!("D:\\p>{cmd}")));
        assert_eq!(
            line,
            format!(r#"-w -1 nt -d "D:\p" --title "X" --suppressApplicationTitle cmd /K "{expected_pane}""#),
            "wt cmd case {label}"
        );
        assert_eq!(cmd_pane_command(r"D:\p", cmd), expected_pane, "cmd_pane case {label}");

        let ppane = pane("t", r"D:\p", Shell::PowerShell, cmd);
        let line = build_wt_commandline("X", &[ppane]);
        assert_eq!(
            line,
            format!(
                r#"-w -1 nt -d "D:\p" --title "X" --suppressApplicationTitle powershell -NoExit -ExecutionPolicy Bypass -EncodedCommand {}"#,
                encode_ps_command(&ps_pane_script(r"D:\p", cmd))
            ),
            "wt ps case {label}"
        );
        let b64 = line.rsplit(' ').next().unwrap();
        assert_eq!(decode_ps_command(b64), format!("Set-Location -LiteralPath 'D:\\p'\r\n{cmd}"), "ps script case {label}");
    }
}

#[test]
fn escape_matrix_path_with_spaces() {
    let cpane = pane("t", r"D:\My Proj", Shell::Cmd, "npm run dev");
    assert_eq!(
        build_wt_commandline("X", &[cpane]),
        r#"-w -1 nt -d "D:\My Proj" --title "X" --suppressApplicationTitle cmd /K "cd /d "D:\My Proj" && echo D:\My Proj^>npm run dev && npm run dev""#
    );
}

#[test]
fn wt_args_escape_trailing_backslash() {
    let panes = vec![pane("t", r"D:\", Shell::Cmd, "echo hi")];
    let line = build_wt_commandline("X\\", &panes);
    assert!(line.contains(r#"-d "D:\\" --title "X\\""#), "{line}");
}

#[test]
fn wt_title_replaces_quotes_and_escapes_trailing_backslash() {
    let panes = vec![pane("t", r"D:\p", Shell::Cmd, "echo hi")];
    let line = build_wt_commandline("a\"b\\", &panes);
    assert!(line.contains(r#"--title "a'b\\""#), "{line}");
    assert!(!line.contains(r#"--title "a"b"#), "{line}");
}

#[test]
fn plan_spawn_fallback_rejects_overlong_commandline() {
    let panes = vec![pane("t", r"D:\p", Shell::Cmd, &"a".repeat(40_000))];
    let err = match plan_spawn(None, "X", &panes) {
        Err(e) => e,
        Ok(_) => panic!("expected an error"),
    };
    assert!(err.contains("过长") || err.contains("30000"), "{err}");
}

#[test]
fn launch_args_for_fallback_windows() {
    assert_eq!(
        cmd_launch_args(r"D:\p", "npm run dev"),
        r#"/K "cd /d "D:\p" && echo D:\p^>npm run dev && npm run dev""#
    );
    let args = ps_launch_args(r"D:\p", "npm run dev");
    let b64 = args.strip_prefix("-NoExit -ExecutionPolicy Bypass -EncodedCommand ").expect("ps fallback args prefix");
    assert_eq!(decode_ps_command(b64), "Set-Location -LiteralPath 'D:\\p'\r\nnpm run dev");
}

#[test]
fn rejects_overlong_commandline_by_utf16_units() {
    assert!(validate_wt_commandline(&"a".repeat(30_001)).is_err());
    assert!(validate_wt_commandline("short").is_ok());
    assert!(validate_wt_commandline(&"😀".repeat(15_001)).is_err());
    assert!(validate_wt_commandline(&"😀".repeat(15_000)).is_ok());
}

#[test]
fn plan_spawn_wt_uses_resolved_path_and_commandline() {
    let panes = vec![pane("t", r"D:\p", Shell::Cmd, "echo hi")];
    match plan_spawn(Some(r"C:\tools\wt.exe"), "X", &panes) {
        Ok(SpawnPlan::Wt { program, args }) => {
            assert_eq!(program, r"C:\tools\wt.exe");
            assert_eq!(args, build_wt_commandline("X", &panes));
        }
        _ => panic!("expected Wt plan"),
    }
}

#[test]
fn plan_spawn_fallback_builds_one_launch_per_pane() {
    let panes = vec![
        pane("后端", r"D:\p\backend", Shell::Cmd, "python app.py"),
        pane("前端", r"D:\p\frontend", Shell::PowerShell, "npm run dev"),
    ];
    match plan_spawn(None, "X", &panes) {
        Ok(SpawnPlan::Fallback { launches }) => {
            assert_eq!(launches.len(), 2);
            assert_eq!(launches[0].program, "cmd");
            assert_eq!(launches[0].args, cmd_launch_args(r"D:\p\backend", "python app.py"));
            assert_eq!(launches[0].work_dir, r"D:\p\backend");
            assert_eq!(launches[1].program, "powershell");
            assert_eq!(launches[1].args, ps_launch_args(r"D:\p\frontend", "npm run dev"));
            assert_eq!(launches[1].work_dir, r"D:\p\frontend");
        }
        _ => panic!("expected Fallback plan"),
    }
}

#[test]
fn plan_spawn_rejects_empty_panes() {
    assert!(plan_spawn(None, "X", &[]).is_err());
    assert!(plan_spawn(Some(r"C:\wt.exe"), "X", &[]).is_err());
}

#[test]
fn plan_spawn_rejects_overlong_commandline() {
    let panes = vec![pane("t", r"D:\p", Shell::Cmd, &"a".repeat(40_000))];
    let err = match plan_spawn(Some(r"C:\wt.exe"), "X", &panes) {
        Err(e) => e,
        Ok(_) => panic!("expected an error"),
    };
    assert!(err.contains("30000"));
}

#[test]
fn plan_spawn_names_the_bash_pane() {
    let panes = vec![pane("cmd", r"D:\p", Shell::Cmd, "dir"), pane("sh", r"D:\p", Shell::Bash, "ls")];
    let err = match plan_spawn(None, "X", &panes) {
        Err(e) => e,
        Ok(_) => panic!("expected an error"),
    };
    assert_eq!(err, "启动项「sh」暂不支持 Git Bash（等待后续版本接线）");
}
