use devlaunch::config::{AppConfig, Item, Project, ProjectTemplate, Shell, CONFIG_VERSION, TEMPLATE_VERSION};
use devlaunch::format::{
    config_format, finish_config, finish_template, has_items_key, probe_modern, reject_too_new, template_format, Json,
};
use devlaunch::ids::{normalize_ids, normalize_item_ids};
use devlaunch::loading::{backup_name, load_diagnostic, pick_newest, ReadOutcome};
use devlaunch::migrate::{
    cd_line, rel_path, LegacyAppConfig, LegacyGroup, LegacyProject, LegacySettings, LegacyStep, LegacyTemplate,
    LegacyTerminal,
};

fn obj(fields: Vec<(&str, Json)>) -> Json {
    Json::Object(fields.into_iter().map(|(k, v)| (k.to_string(), v)).collect())
}

fn num(n: u64) -> Json {
    Json::Number(Some(n))
}

#[test]
fn config_format_reads_version_and_keys() {
    let v2 = obj(vec![("version", num(2)), ("projects", Json::Array(vec![]))]);
    assert_eq!(config_format(&v2), Ok(false));
    let v8 = obj(vec![("version", num(8)), ("projects", Json::Array(vec![]))]);
    assert_eq!(config_format(&v8), Ok(true));
    let v9 = obj(vec![("version", num(9)), ("projects", Json::Array(vec![]))]);
    assert_eq!(config_format(&v9).unwrap_err(), "文件版本 v9 高于当前 DevLaunch 支持的 v8，请升级应用后再导入");
    let tpl = obj(vec![("version", num(3)), ("name", Json::Str("PVDS".into())), ("items", Json::Array(vec![]))]);
    assert!(config_format(&tpl).unwrap_err().contains("projects"));
}

#[test]
fn versionless_files_are_modern_when_items_appear_anywhere() {
    let nested = obj(vec![(
        "projects",
        Json::Array(vec![obj(vec![("id", Json::Str("p1".into())), ("items", Json::Array(vec![]))])]),
    )]);
    assert!(has_items_key(&nested));
    assert!(probe_modern(&nested));
    assert_eq!(config_format(&nested), Ok(true));
    let legacy = obj(vec![("projects", Json::Array(vec![obj(vec![("groups", Json::Array(vec![]))])]))]);
    assert!(!probe_modern(&legacy));
    let odd = obj(vec![("version", Json::Str("3".into())), ("items", Json::Null)]);
    assert!(probe_modern(&odd));
}

#[test]
fn template_format_refuses_whole_configs() {
    let cfg = obj(vec![("version", num(3)), ("settings", obj(vec![])), ("projects", Json::Array(vec![]))]);
    let err = template_format(&cfg).unwrap_err();
    assert!(err.contains("items") || err.contains("groups"), "{err}");
    let legacy = obj(vec![("version", num(2)), ("groups", Json::Array(vec![]))]);
    assert_eq!(template_format(&legacy), Ok(false));
    assert_eq!(
        template_format(&obj(vec![("version", num(5)), ("items", Json::Array(vec![]))])).unwrap_err(),
        "文件版本 v5 高于当前 DevLaunch 支持的 v4，请升级应用后再导入"
    );
    assert!(reject_too_new(&Json::Null, 1).is_ok());
}

fn step(work_dir: Option<&str>, terminal: LegacyTerminal, command: &str) -> LegacyStep {
    LegacyStep { work_dir: work_dir.map(str::to_string), terminal, command: command.to_string() }
}

fn group(id: &str, name: &str, terminal: LegacyTerminal, steps: Vec<LegacyStep>) -> LegacyGroup {
    LegacyGroup { id: id.to_string(), name: name.to_string(), terminal, steps }
}

#[test]
fn legacy_groups_become_items() {
    let cfg = LegacyAppConfig {
        settings: LegacySettings { autostart: true },
        projects: vec![LegacyProject {
            id: "p1".into(),
            name: "XingTu".into(),
            root_dir: "D:\\Projects\\XINGTU".into(),
            groups: vec![
                group(
                    "g1",
                    "后端",
                    LegacyTerminal::Cmd,
                    vec![
                        step(Some("backend"), LegacyTerminal::Cmd, "conda activate xingtu"),
                        step(Some("backend"), LegacyTerminal::Cmd, "python -m uvicorn main:app"),
                    ],
                ),
                group("g2", "前端", LegacyTerminal::PowerShell, vec![step(Some("frontend"), LegacyTerminal::PowerShell, "npm run dev")]),
                group("g3", "空", LegacyTerminal::Cmd, vec![step(None, LegacyTerminal::Cmd, "   ")]),
            ],
        }],
    }
    .into_config();
    assert_eq!(cfg.version, CONFIG_VERSION);
    assert!(cfg.settings.autostart);
    let p = &cfg.projects[0];
    assert_eq!(p.items.len(), 2);
    assert_eq!(p.items[0].name, "后端");
    assert_eq!(p.items[0].work_dir.as_deref(), Some("backend"));
    assert_eq!(p.items[0].shell, Shell::Cmd);
    assert_eq!(p.items[0].command, "conda activate xingtu\npython -m uvicorn main:app");
    assert_eq!(p.items[1].shell, Shell::PowerShell);
    assert_eq!(p.items[1].command, "npm run dev");
}

#[test]
fn legacy_steps_in_other_directories_get_cd_lines() {
    let g = group(
        "g1",
        "默认",
        LegacyTerminal::Cmd,
        vec![
            step(Some("backend"), LegacyTerminal::Cmd, "npm i"),
            step(Some("frontend"), LegacyTerminal::Cmd, "npm run dev"),
            step(None, LegacyTerminal::Cmd, "echo done"),
        ],
    );
    assert_eq!(
        g.into_item().unwrap().command,
        "npm i\ncd /d \"..\\frontend\"\nnpm run dev\ncd /d \"..\"\necho done"
    );
}

#[test]
fn legacy_shell_comes_from_steps_and_windows_terminal_is_cmd() {
    let g = group("g1", "默认", LegacyTerminal::Cmd, vec![step(None, LegacyTerminal::Cmd, "a"), step(None, LegacyTerminal::PowerShell, "b")]);
    assert_eq!(g.shell(), Shell::PowerShell);
    let g = group("g1", "默认", LegacyTerminal::WindowsTerminal, vec![step(None, LegacyTerminal::WindowsTerminal, "a")]);
    assert_eq!(g.shell(), Shell::Cmd);
    let t = LegacyTemplate {
        name: "PVDS".into(),
        groups: vec![group("g1", "默认", LegacyTerminal::Cmd, vec![step(Some("server"), LegacyTerminal::Cmd, "python app.py")])],
    }
    .into_template();
    assert_eq!(t.version, TEMPLATE_VERSION);
    assert_eq!(t.items[0].work_dir.as_deref(), Some("server"));
}

#[test]
fn rel_path_and_cd_lines() {
    assert_eq!(rel_path(Some("a/b"), Some("a\\c")), "..\\c");
    assert_eq!(rel_path(Some("a"), Some("a/./")), ".");
    assert_eq!(rel_path(None, Some("x/y")), "x\\y");
    assert_eq!(rel_path(Some("x"), Some("D:\\abs")), "D:\\abs");
    assert_eq!(cd_line(Shell::Cmd, "..\\web"), "cd /d \"..\\web\"");
    assert_eq!(cd_line(Shell::PowerShell, "it's"), "Set-Location -LiteralPath 'it''s'");
    assert_eq!(cd_line(Shell::Bash, "a\\it's"), "cd 'a/it'\\''s'");
}

fn item(id: &str) -> Item {
    Item { id: id.to_string(), name: "n".into(), work_dir: None, shell: Shell::Cmd, command: "c".into() }
}

fn is_uuid(s: &str) -> bool {
    s.len() == 36 && s.chars().enumerate().all(|(i, c)| if [8, 13, 18, 23].contains(&i) { c == '-' } else { c.is_ascii_hexdigit() && !c.is_ascii_uppercase() })
}

#[test]
fn blank_and_repeated_item_ids_are_replaced() {
    let mut items = vec![item("a"), item(" "), item("a"), item("b")];
    normalize_item_ids(&mut items);
    assert_eq!(items[0].id, "a");
    assert!(is_uuid(&items[1].id));
    assert!(is_uuid(&items[2].id));
    assert_ne!(items[1].id, items[2].id);
    assert_eq!(items[3].id, "b");
    let mut ok = vec![item("x"), item("y")];
    normalize_item_ids(&mut ok);
    assert_eq!((ok[0].id.as_str(), ok[1].id.as_str()), ("x", "y"));
}

fn project(id: &str, items: Vec<Item>) -> Project {
    Project {
        id: id.to_string(),
        name: "X".into(),
        root_dir: "D:\\p".into(),
        favorite: true,
        last_launched_at: Some(7),
        items,
        worktree: None,
    }
}

#[test]
fn duplicate_project_ids_are_replaced_and_the_rest_kept() {
    let mut cfg = AppConfig::new();
    cfg.projects = vec![project("p1", vec![item("same"), item("same")]), project("p1", vec![])];
    normalize_ids(&mut cfg);
    assert_eq!(cfg.projects[0].id, "p1");
    assert!(is_uuid(&cfg.projects[1].id));
    assert_ne!(cfg.projects[0].items[0].id, cfg.projects[0].items[1].id);
    assert!(cfg.projects[0].favorite);
    assert_eq!(cfg.projects[0].last_launched_at, Some(7));
}

#[test]
fn finishing_bumps_modern_versions_and_fixes_theme() {
    let mut cfg = AppConfig::new();
    cfg.version = 3;
    cfg.settings.theme = " indigo ".into();
    cfg.projects = vec![project("", vec![])];
    let done = finish_config(cfg, true);
    assert_eq!(done.version, CONFIG_VERSION);
    assert_eq!(done.settings.theme, "indigo");
    assert!(is_uuid(&done.projects[0].id));
    let mut cfg = AppConfig::new();
    cfg.settings.theme = "neon".into();
    assert_eq!(finish_config(cfg, false).settings.theme, "signal");
    let tpl = ProjectTemplate { version: 1, name: "MyApp".into(), items: vec![item(""), item("")], worktree: None };
    let t = finish_template(tpl, true);
    assert_eq!(t.version, TEMPLATE_VERSION);
    assert!(!t.items[0].id.trim().is_empty());
    assert_ne!(t.items[0].id, t.items[1].id);
}

#[test]
fn load_keeps_data_safe_in_every_case() {
    let parse_ok = |_t: String| -> Result<AppConfig, String> {
        let mut c = AppConfig::new();
        c.settings.autostart = true;
        Ok(c)
    };
    let parse_bad = |_t: String| -> Result<AppConfig, String> { Err("expected value".into()) };
    let aside = || Some("C:\\cfg\\config.json.corrupt-1".to_string());
    let none = || -> Option<(AppConfig, String)> { None };
    let absent = load_diagnostic(&|| ReadOutcome::Absent, &parse_ok, &aside, &none);
    assert!(absent.config.projects.is_empty() && absent.blocked.is_none() && absent.corrupt_backup.is_none());
    let failed = load_diagnostic(&|| ReadOutcome::Failed("locked".into()), &parse_ok, &aside, &none);
    assert_eq!(failed.blocked.as_deref(), Some("locked"));
    let fine = load_diagnostic(&|| ReadOutcome::Text("{}".into()), &parse_ok, &aside, &none);
    assert!(fine.config.settings.autostart);
    let bad = load_diagnostic(&|| ReadOutcome::Text("{".into()), &parse_bad, &aside, &none);
    assert_eq!(bad.corrupt_backup.as_deref(), Some("C:\\cfg\\config.json.corrupt-1"));
    assert!(bad.restored_from.is_none());
    assert!(!bad.config.settings.autostart);
    let backup = || {
        let mut c = AppConfig::new();
        c.version = 7;
        Some((c, "C:\\cfg\\config.json.bak".to_string()))
    };
    let restored = load_diagnostic(&|| ReadOutcome::Text("{".into()), &parse_bad, &aside, &backup);
    assert_eq!(restored.restored_from.as_deref(), Some("C:\\cfg\\config.json.bak"));
    assert_eq!(restored.config.version, 7);
}

#[test]
fn backups_are_named_after_the_file_and_the_newest_wins() {
    assert!(backup_name("config.json", "config.json.bak"));
    assert!(backup_name("config.json", "config.json.corrupt-17"));
    assert!(!backup_name("config.json", "config.json"));
    assert!(!backup_name("config.json", "config.json.tmp"));
    assert!(!backup_name("config.json", "other.json.bak"));
    assert_eq!(pick_newest(&vec![5, 9, 3, 9]), Some(3));
    assert_eq!(pick_newest(&vec![]), None);
}
