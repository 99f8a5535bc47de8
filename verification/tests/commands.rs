use devlaunch::config::{normalize_theme, backup_path_of};
use devlaunch::commands::{
    apply_config, detect_dir, subdir_names, export_project_to, normalize_for_compare, project_dir, scan_with_config, touch_last_launched,
    validate_config,
};
use devlaunch::config::{AppConfig, Item, Project, ProjectTemplate, Settings, Shell, WorktreeLease, WorktreeSettings, DEFAULT_HOTKEY, TEMPLATE_VERSION};
use devlaunch::detect::{DetectResult, ScannedRepo};

fn sample_project(id: &str) -> Project {
    Project {
        id: id.into(),
        name: "PVDS".into(),
        root_dir: r"D:\Projects\PVDS".into(),
        favorite: false,
        last_launched_at: None,
        items: vec![Item {
            id: "i1".into(),
            name: "server".into(),
            work_dir: Some("server".into()),
            shell: Shell::Cmd,
            command: "python app.py".into(),
        }],
        worktree: None,
    }
}

#[test]
fn validate_rejects_empty_project_id() {
    let mut cfg = AppConfig::default();
    let mut p = sample_project("");
    p.id = "".into();
    cfg.projects.push(p);
    let err = validate_config(&cfg).unwrap_err();
    assert!(err.contains("ID"), "{err}");
}

#[test]
fn validate_rejects_duplicate_project_ids() {
    let mut cfg = AppConfig::default();
    cfg.projects.push(sample_project("p1"));
    cfg.projects.push(sample_project("p1"));
    let err = validate_config(&cfg).unwrap_err();
    assert!(err.contains("重复"), "{err}");
}

#[test]
fn validate_rejects_duplicate_item_ids() {
    let mut cfg = AppConfig::default();
    let mut p = sample_project("p1");
    p.items.push(p.items[0].clone());
    cfg.projects.push(p);
    let err = validate_config(&cfg).unwrap_err();
    assert!(err.contains("重复"), "{err}");
}

#[test]
fn validate_accepts_distinct_ids_and_names_the_project() {
    let mut cfg = AppConfig::default();
    cfg.projects.push(sample_project("p1"));
    cfg.projects.push(sample_project("p2"));
    assert!(validate_config(&cfg).is_ok());
    cfg.projects[1].items[0].id = " ".into();
    assert_eq!(validate_config(&cfg).unwrap_err(), "项目「PVDS」存在缺少 ID 的启动项");
}

#[test]
fn normalize_for_compare_normalizes_windows_paths() {
    assert_eq!(normalize_for_compare("D:/Projects/App/"), "d:\\projects\\app");
    assert_eq!(normalize_for_compare("D:\\Projects\\App"), "d:\\projects\\app");
}

#[test]
fn touch_last_launched_updates_known_project() {
    let mut cfg = AppConfig::default();
    cfg.projects.push(sample_project("p1"));
    assert!(touch_last_launched(&mut cfg, "p1", 123));
    assert_eq!(cfg.projects[0].last_launched_at, Some(123));
}

#[test]
fn touch_last_launched_ignores_unknown_project() {
    let mut cfg = AppConfig::default();
    cfg.projects.push(sample_project("p1"));
    assert!(!touch_last_launched(&mut cfg, "nope", 123));
    assert_eq!(cfg.projects[0].last_launched_at, None);
}

#[test]
fn project_dir_rejects_unknown_or_empty_root() {
    let cfg = AppConfig::default();
    assert!(project_dir(&cfg, "missing").is_err());
    let mut cfg2 = AppConfig::default();
    let mut p = sample_project("p1");
    p.root_dir = "  ".into();
    cfg2.projects.push(p);
    assert!(project_dir(&cfg2, "p1").is_err());
}

#[test]
fn project_dir_returns_root() {
    let mut cfg = AppConfig::default();
    cfg.projects.push(sample_project("p1"));
    assert_eq!(project_dir(&cfg, "p1").unwrap(), r"D:\Projects\PVDS");
}

#[test]
fn export_project_errors_on_missing_project() {
    let cfg = AppConfig::default();
    assert!(export_project_to(&|_t: ProjectTemplate| Ok(()), &cfg, "nope").is_err());
}

#[test]
fn export_project_hands_the_template_to_save() {
    let mut cfg = AppConfig::default();
    cfg.projects.push(sample_project("p1"));
    let seen = std::cell::RefCell::new(None);
    export_project_to(
        &|t: ProjectTemplate| {
            *seen.borrow_mut() = Some((t.version, t.name.clone(), t.items.len()));
            Ok(())
        },
        &cfg,
        "p1",
    )
    .unwrap();
    assert_eq!(seen.into_inner(), Some((TEMPLATE_VERSION, "PVDS".to_string(), 1)));
}

#[test]
fn detect_dir_errors_on_missing_path() {
    let err = detect_dir(&|_: String| false, &|_: String| DetectResult { ecosystems: vec![], suggestions: vec![] }, "X:/nope-xyz")
        .err()
        .unwrap();
    assert!(err.contains("目录不存在"));
}

#[test]
fn scan_with_config_errors_on_missing_path() {
    let cfg = AppConfig::default();
    let err = scan_with_config(&|_: String| false, &|_: String| Vec::new(), "X:/nope-xyz", &cfg).err().unwrap();
    assert!(err.contains("目录不存在"));
}

#[test]
fn scan_with_config_marks_already_imported() {
    let mut cfg = AppConfig::default();
    let mut p = sample_project("p1");
    p.root_dir = r"D:\WORK\APP".into();
    p.items = vec![];
    cfg.projects.push(p);
    let repos = |_: String| {
        vec![
            ScannedRepo { name: "app".into(), root_dir: "d:/work/app".into(), ecosystems: vec![], suggestions: vec![] },
            ScannedRepo { name: "lib".into(), root_dir: "d:/work/lib".into(), ecosystems: vec![], suggestions: vec![] },
        ]
    };
    let got = scan_with_config(&|_: String| true, &repos, "d:/work", &cfg).ok().unwrap();
    assert_eq!(got.len(), 2);
    assert!(got[0].already_imported);
    assert!(!got[1].already_imported);
}

#[test]
fn settings_default_uses_default_hotkey() {
    assert_eq!(Settings::default().hotkey, DEFAULT_HOTKEY);
    assert_eq!(DEFAULT_HOTKEY, "Ctrl+Alt+D");
}

#[test]
fn template_carries_worktree_policy_but_strips_leases() {
    let mut p = sample_project("p1");
    p.worktree = Some(WorktreeSettings {
        root: None,
        copy: vec![".env".into()],
        port_base: Some(3000),
        port_key: Some("WEB_PORT".into()),
        leases: vec![WorktreeLease { branch: "a".into(), port: 3000 }],
    });
    let tpl = ProjectTemplate::from_project(&p);
    let w = tpl.worktree.unwrap();
    assert_eq!(w.copy, vec![".env".to_string()]);
    assert_eq!(w.port_key.as_deref(), Some("WEB_PORT"));
    assert_eq!(w.port_base, Some(3000));
    assert_eq!(w.root, None);
    assert!(w.leases.is_empty());

    let mut lease_only = sample_project("p1");
    lease_only.worktree = Some(WorktreeSettings {
        leases: vec![WorktreeLease { branch: "a".into(), port: 3000 }],
        ..Default::default()
    });
    assert!(ProjectTemplate::from_project(&lease_only).worktree.is_none());
}

#[test]
fn effective_port_key_defaults_to_port() {
    let mut s = WorktreeSettings::default();
    assert_eq!(s.effective_port_key(), "PORT");
    s.port_key = Some("  ".into());
    assert_eq!(s.effective_port_key(), "PORT");
    s.port_key = Some(" WEB ".into());
    assert_eq!(s.effective_port_key(), "WEB");
}

#[test]
fn normalize_theme_keeps_known_names_only() {
    assert_eq!(normalize_theme(" indigo "), "indigo");
    assert_eq!(normalize_theme("neon"), "signal");
    assert_eq!(normalize_theme(""), "signal");
}

#[test]
fn new_config_is_current_and_empty() {
    let cfg = AppConfig::new();
    assert_eq!(cfg.version, devlaunch::config::CONFIG_VERSION);
    assert!(cfg.projects.is_empty());
    assert_eq!(cfg.settings.theme, "signal");
}

#[test]
fn backup_path_adds_bak() {
    assert_eq!(backup_path_of(r"C:\cfg\config.json"), r"C:\cfg\config.json.bak");
}

#[test]
fn apply_config_rolls_back_memory_on_save_failure() {
    let mut state = AppConfig::default();
    let mut next = AppConfig::default();
    next.projects.push(sample_project("p1"));
    let failing = |_c: &AppConfig| -> Result<(), String> { Err("写入失败".to_string()) };
    assert_eq!(apply_config(&mut state, next.clone(), &failing).unwrap_err(), "写入失败");
    assert!(state.projects.is_empty());
    let saved = std::cell::RefCell::new(0usize);
    let ok = |c: &AppConfig| -> Result<(), String> {
        *saved.borrow_mut() = c.projects.len();
        Ok(())
    };
    apply_config(&mut state, next, &ok).unwrap();
    assert_eq!(state.projects.len(), 1);
    assert_eq!(*saved.borrow(), 1);
    let mut dup = AppConfig::default();
    dup.projects.push(sample_project("p1"));
    dup.projects.push(sample_project("p1"));
    assert!(apply_config(&mut state, dup, &ok).unwrap_err().contains("重复"));
    assert_eq!(state.projects.len(), 1);
}

#[test]
fn subdirs_lists_only_directories_sorted() {
    let entries = vec![
        ("web".to_string(), true),
        ("file.txt".to_string(), false),
        ("server".to_string(), true),
    ];
    assert_eq!(subdir_names(&entries), vec!["server", "web"]);
    let more = vec![("b".to_string(), true), ("B".to_string(), true), (".a".to_string(), true), ("b".to_string(), false)];
    assert_eq!(subdir_names(&more), vec![".a", "B", "b"]);
}
