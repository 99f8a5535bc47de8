use devlaunch::config::{AppConfig, Item, Project, Shell, WorktreeLease, WorktreeSettings};
use devlaunch::launcher::{
    build_panes, build_panes_in, item_panes, launch_report, project_panes, resolve_work_dir, worktree_panes,
};
use devlaunch::platform::LaunchMode;

fn project() -> Project {
    Project {
        id: "p1".into(),
        name: "X".into(),
        root_dir: r"D:\proj".into(),
        favorite: false,
        last_launched_at: None,
        items: vec![Item {
            id: "i1".into(),
            name: "后端".into(),
            work_dir: Some("backend".into()),
            shell: Shell::Cmd,
            command: "python app.py".into(),
        }],
        worktree: None,
    }
}

#[test]
fn resolve_work_dir_strips_trailing_separators() {
    let cases = [
        (resolve_work_dir(r"D:\proj\", &None), r"D:\proj"),
        (resolve_work_dir(r"D:\proj", &Some(r"backend\".into())), r"D:\proj\backend"),
        (resolve_work_dir(r"D:\proj", &Some(r"D:\abs\dir\".into())), r"D:\abs\dir"),
        (resolve_work_dir(r"D:\", &None), r"D:\"),
    ];
    for (got, want) in cases {
        assert_eq!(got, want);
    }
}

#[test]
fn build_panes_resolves_workdir_and_maps_fields() {
    let p = project();
    let panes = build_panes(&|_: String| true, &p, &p.items).unwrap();
    assert_eq!(panes[0].work_dir, r"D:\proj\backend");
    assert_eq!(panes[0].title, "后端");
}

#[test]
fn build_panes_errors_on_missing_dir() {
    let mut p = project();
    p.items[0].work_dir = Some("nope-xyz".into());
    let err = build_panes(&|d: String| d != r"D:\proj\nope-xyz", &p, &p.items).unwrap_err();
    assert!(err.contains("目录不存在"));
    assert_eq!(err, r"「后端」目录不存在：D:\proj\nope-xyz");
}

#[test]
fn build_panes_errors_on_empty_command() {
    let mut p = project();
    p.items[0].command = "   \n\t ".into();
    let err = build_panes(&|_: String| true, &p, &p.items).unwrap_err();
    assert!(err.contains("还没有填写命令"), "{err}");
    assert!(err.contains("后端"), "{err}");
}

#[test]
fn build_panes_labels_unnamed_item_in_error() {
    let mut p = project();
    p.items[0].name = "  ".into();
    p.items[0].command = String::new();
    let err = build_panes(&|_: String| true, &p, &p.items).unwrap_err();
    assert!(err.contains("未命名启动项"), "{err}");
}

#[test]
fn build_panes_in_redirects_relative_dirs_and_carries_env() {
    let p = project();
    let mut with_abs = p.clone();
    with_abs.items.push(Item {
        id: "i2".into(),
        name: "共享".into(),
        work_dir: Some(r"E:\shared".into()),
        shell: Shell::Cmd,
        command: "echo hi".into(),
    });
    let env = vec![("PORT".to_string(), "5173".to_string())];
    let panes = build_panes_in(&|_: String| true, &with_abs.items, r"D:\wt\feat", &env).unwrap();
    assert_eq!(panes[0].work_dir, r"D:\wt\feat\backend");
    assert_eq!(panes[1].work_dir, r"E:\shared");
    assert!(panes.iter().all(|pane| pane.env == env));
    assert!(build_panes_in(&|_: String| true, &with_abs.items, r"D:\wt\feat", &vec![("PORT".into(), "5;1|7".into())])
        .unwrap_err()
        .contains("环境注入失败"));
    assert!(build_panes_in(&|_: String| true, &vec![], r"D:\wt\feat", &env).is_err());
}

fn config_with(p: Project) -> AppConfig {
    let mut cfg = AppConfig::default();
    cfg.projects.push(p);
    cfg
}

#[test]
fn launch_report_depends_on_window_and_mode() {
    assert_eq!(
        launch_report(true, LaunchMode::Fallback, "X", 3).unwrap(),
        "未检测到 Windows Terminal，已降级为 3 个独立终端窗口"
    );
    assert_eq!(launch_report(true, LaunchMode::WindowsTerminal, "X", 3), None);
    assert_eq!(
        launch_report(false, LaunchMode::Fallback, "X · feat", 2).unwrap(),
        "未检测到 Windows Terminal，已用 2 个独立终端窗口启动「X · feat」"
    );
    assert_eq!(launch_report(false, LaunchMode::WindowsTerminal, "X", 12).unwrap(), "已启动「X」（12 个窗格）");
}

#[test]
fn project_panes_finds_the_project_or_says_which_is_missing() {
    let cfg = config_with(project());
    let panes = project_panes(&|_: String| true, &cfg, "p1").unwrap();
    assert_eq!(panes.len(), 1);
    assert_eq!(panes[0].work_dir, r"D:\proj\backend");
    assert_eq!(project_panes(&|_: String| true, &cfg, "zz").unwrap_err(), "未找到项目 zz");
    let mut empty = project();
    empty.items.clear();
    let cfg = config_with(empty);
    assert_eq!(project_panes(&|_: String| true, &cfg, "p1").unwrap_err(), "没有可启动的启动项");
}

#[test]
fn item_panes_launches_exactly_one_item() {
    let mut p = project();
    p.items.push(Item {
        id: "i2".into(),
        name: "前端".into(),
        work_dir: None,
        shell: Shell::PowerShell,
        command: "npm run dev".into(),
    });
    let cfg = config_with(p);
    let panes = item_panes(&|_: String| true, &cfg, "p1", "i2").unwrap();
    assert_eq!(panes.len(), 1);
    assert_eq!(panes[0].title, "前端");
    assert_eq!(panes[0].work_dir, r"D:\proj");
    assert_eq!(panes[0].command, "npm run dev");
    assert_eq!(item_panes(&|_: String| true, &cfg, "p1", "i9").unwrap_err(), "未找到启动项 i9");
    assert_eq!(item_panes(&|_: String| true, &cfg, "p9", "i1").unwrap_err(), "未找到项目 p9");
}

fn listing(args: Vec<String>) -> Result<String, String> {
    if args == vec!["worktree", "list", "--porcelain"] {
        Ok("worktree D:/proj\nHEAD 0123abcd\nbranch refs/heads/main\n\nworktree D:/wt/feat\nHEAD 4567abcd\nbranch refs/heads/feat\n\n".into())
    } else {
        Err("unexpected".into())
    }
}

#[test]
fn worktree_panes_run_in_the_environment_with_its_variables() {
    let mut p = project();
    let cfg = config_with(p.clone());
    assert_eq!(
        worktree_panes(&listing, &|_: String| true, &cfg, "p1", "feat").unwrap_err(),
        "项目「X」未启用按任务环境"
    );
    p.worktree = Some(WorktreeSettings {
        root: None,
        copy: vec![],
        port_base: Some(5000),
        port_key: None,
        leases: vec![WorktreeLease { branch: "feat".into(), port: 5001 }],
    });
    let cfg = config_with(p);
    let (label, panes) = worktree_panes(&listing, &|_: String| true, &cfg, "p1", "feat").unwrap();
    assert_eq!(label, "X · feat");
    assert_eq!(panes.len(), 1);
    assert!(panes[0].work_dir.ends_with("backend"), "{}", panes[0].work_dir);
    assert!(panes[0].env.contains(&("PORT".to_string(), "5001".to_string())));
    assert!(panes[0].env.iter().any(|(k, v)| k == "DEVLAUNCH_WORKTREE_BRANCH" && v == "feat"));
    assert!(worktree_panes(&listing, &|_: String| true, &cfg, "p1", "gone").is_err());
    assert_eq!(worktree_panes(&listing, &|_: String| true, &cfg, "p7", "feat").unwrap_err(), "未找到项目 p7");
}
