use devlaunch::config::{WorktreeLease, WorktreeSettings};
use devlaunch::worktree::{
    allocate_port, branch_slug, default_wt_root, lease_port, normalize_rel, pane_env, parse_worktree_list,
    pattern_matches, pattern_prefix, release_lease, resolve_worktree_path, select_copy_files, unique_path,
    upsert_lease, validate_copy_pattern, validate_env_pair, PORT_RANGE,
};
use std::collections::HashSet;

fn lease(branch: &str, port: u16) -> WorktreeLease {
    WorktreeLease { branch: branch.into(), port }
}

const SAMPLE: &str = "worktree D:/Projects/repo\nHEAD 1111111111111111111111111111111111111111\nbranch refs/heads/main\n\n\
    worktree D:/Projects/repo-wt/feature-cart\nHEAD 2222222222222222222222222222222222222222\nbranch refs/heads/feature/cart\n\n";

#[test]
fn parse_worktree_list_marks_main_and_branches() {
    let got = parse_worktree_list(SAMPLE);
    assert_eq!(got.len(), 2);
    assert!(got[0].is_main && !got[1].is_main);
    assert_eq!(got[0].path, "D:/Projects/repo");
    assert_eq!(got[1].path, "D:/Projects/repo-wt/feature-cart");
    assert_eq!(got[1].branch.as_deref(), Some("feature/cart"));
    assert_eq!(got[0].head, "1".repeat(40));
    assert!(!got[1].is_prunable && !got[1].is_detached);
}

#[test]
fn parse_worktree_list_handles_detached_prunable_and_quoted_paths() {
    let text = "worktree \"D:/My Proj/a\\bb\"\nHEAD 333\ndetached\n\n\
        worktree D:/gone\nHEAD 444\nbranch refs/heads/x\nprunable gitdir file points to non-existent location\n";
    let got = parse_worktree_list(text);
    assert_eq!(got[0].path, r"D:/My Proj/a\bb");
    assert!(got[0].is_detached);
    assert_eq!(got[0].branch, None);
    assert!(got[1].is_prunable);
    assert_eq!(got[1].branch.as_deref(), Some("x"));
}

#[test]
fn parse_worktree_list_ignores_foreign_refs() {
    let got = parse_worktree_list("worktree D:/r\nHEAD 555\nbranch refs/remotes/origin/main\n");
    assert_eq!(got[0].branch, None);
}

#[test]
fn parse_worktree_list_ignores_carriage_returns_and_unescapes() {
    let got = parse_worktree_list("worktree \"C:/a\\\"b\\\\c\"\r\nHEAD 1\r\n");
    assert_eq!(got.len(), 1);
    assert_eq!(got[0].path, "C:/a\"b\\c");
    assert_eq!(got[0].head, "1");
}

#[test]
fn branch_slug_matrix() {
    assert_eq!(branch_slug("feature/cart"), "feature-cart");
    assert_eq!(branch_slug("fix\\a:b*c?d\"e<f>g|h."), "fix-a-b-c-d-e-f-g-h");
    assert_eq!(branch_slug("main"), "main");
    assert_eq!(branch_slug("feat/中文/任务"), "feat-中文-任务");
    assert_eq!(branch_slug(".."), "wt");
    assert_eq!(branch_slug("a//b"), "a-b");
    let long = branch_slug(&"x".repeat(200));
    assert_eq!(long.chars().count(), 48);
}

#[test]
fn default_wt_root_matrix() {
    let root = r"D:\Projects\repo";
    assert_eq!(default_wt_root(root, None), r"D:\Projects\repo-wt");
    assert_eq!(default_wt_root(root, Some(".wt")), r"D:\Projects\repo\.wt");
    assert_eq!(default_wt_root(root, Some(r"E:\wt\dir\")), r"E:\wt\dir");
    assert_eq!(default_wt_root(root, Some("   ")), r"D:\Projects\repo-wt");
    assert_eq!(default_wt_root(r"D:\", None), r"D:\wt");
}

#[test]
fn unique_path_avoids_existing_directories() {
    let taken: HashSet<String> = HashSet::from([r"D:\wt\feat".to_string(), r"D:\wt\feat-2".to_string()]);
    let got = unique_path(r"D:\wt", "feat", &|p: String| taken.contains(&p)).unwrap();
    assert_eq!(got, r"D:\wt\feat-3");
}

#[test]
fn unique_path_errors_when_all_names_taken() {
    let got = unique_path(r"D:\wt", "feat", &|_: String| true).unwrap_err();
    assert!(got.contains("全部被占用"), "{got}");
}

#[test]
fn allocate_port_is_stable_and_skips_taken() {
    let leases = vec![lease("a", 5173), lease("b", 5174)];
    assert_eq!(allocate_port(&leases, "a", 5173).unwrap(), 5173);
    assert_eq!(allocate_port(&leases, "c", 5173).unwrap(), 5175);
    assert_eq!(allocate_port(&vec![], "c", 5173).unwrap(), 5173);
}

#[test]
fn allocate_port_errors_when_range_exhausted() {
    let leases: Vec<WorktreeLease> = (0..=PORT_RANGE).map(|i| lease(&format!("b{i}"), 3000 + i)).collect();
    let err = allocate_port(&leases, "new", 3000).unwrap_err();
    assert!(err.contains("端口段") && err.contains("portBase"), "{err}");
    assert_eq!(err, "端口段 3000–3050 已用尽，请在环境设置里改 portBase");
}

#[test]
fn allocate_port_stops_at_the_last_port_number() {
    let leases = vec![lease("a", 65535)];
    let err = allocate_port(&leases, "b", 65535).unwrap_err();
    assert_eq!(err, "端口段 65535–65535 已用尽，请在环境设置里改 portBase");
}

#[test]
fn lease_upsert_and_release() {
    let mut leases = vec![lease("b", 3001), lease("a", 3000)];
    upsert_lease(&mut leases, "c", 3002);
    assert_eq!(leases.iter().map(|l| l.branch.as_str()).collect::<Vec<_>>(), vec!["a", "b", "c"]);
    upsert_lease(&mut leases, "a", 3050);
    assert_eq!(lease_port(&leases, "a"), Some(3050));
    let after = release_lease(&leases, "b");
    assert_eq!(after.len(), 2);
    assert_eq!(lease_port(&after, "b"), None);
}

#[test]
fn validate_env_pair_matrix() {
    assert!(validate_env_pair("PORT", "5173").is_ok());
    assert!(validate_env_pair("DEVLAUNCH_WORKTREE", r"D:\My Proj\wt 中文").is_ok());
    assert!(validate_env_pair("DEVLAUNCH_WORKTREE", r"C:\Program Files (x86)\wt").is_ok());
    assert!(validate_env_pair("_A9", "x").is_ok());
    assert!(validate_env_pair("9PORT", "x").is_err());
    assert!(validate_env_pair("A B", "x").is_err());
    assert!(validate_env_pair("", "x").is_err());
    for bad in ["a%b", "a\"b", "a&b", "a|b", "a<b", "a>b", "a^b", "a$b", "a;b", "a`b", "a{b"] {
        assert!(validate_env_pair("PORT", bad).is_err(), "value {bad}");
    }
    assert!(validate_env_pair("PORT", "5173\nrm -rf").is_err());
    assert!(validate_env_pair("PORT", "it's ok").is_ok());
}

#[test]
fn env_errors_name_the_offender() {
    assert_eq!(validate_env_pair("", "x").unwrap_err(), "环境变量名为空");
    assert_eq!(validate_env_pair("9X", "x").unwrap_err(), "非法环境变量名：9X");
    assert_eq!(validate_env_pair("X", "a\tb").unwrap_err(), "环境变量值含控制字符");
    assert_eq!(validate_env_pair("X", "a;b%c").unwrap_err(), "环境变量值含不支持的字符：;");
}

#[test]
fn pane_env_only_injects_port_with_lease_and_validates() {
    let settings = WorktreeSettings {
        port_base: Some(5173),
        port_key: Some("WEB_PORT".into()),
        leases: vec![lease("feat", 5175)],
        ..Default::default()
    };
    let env = pane_env(&settings, "feat", r"D:\repo-wt\feat").unwrap();
    assert_eq!(
        env,
        vec![
            ("WEB_PORT".to_string(), "5175".to_string()),
            ("DEVLAUNCH_WORKTREE".to_string(), r"D:\repo-wt\feat".to_string()),
            ("DEVLAUNCH_WORKTREE_BRANCH".to_string(), "feat".to_string()),
        ]
    );
    let no_lease = pane_env(&settings, "other", r"D:\repo-wt\other").unwrap();
    assert_eq!(no_lease.len(), 2);
    let mut off = settings.clone();
    off.port_base = None;
    assert!(!pane_env(&off, "feat", "D:/x").unwrap().iter().any(|(k, _)| k == "WEB_PORT"));
    assert!(pane_env(&settings, "feat", r"D:\x%y").is_err());
}

#[test]
fn resolve_worktree_path_only_accepts_known_live_branches() {
    let list = parse_worktree_list(SAMPLE);
    assert_eq!(resolve_worktree_path(&list, "feature/cart").unwrap(), "D:/Projects/repo-wt/feature-cart");
    assert!(resolve_worktree_path(&list, "nope").unwrap_err().contains("未找到环境"));
    let prunable = parse_worktree_list("worktree D:/gone\nHEAD 1\nbranch refs/heads/g\nprunable x\n");
    assert!(resolve_worktree_path(&prunable, "g").unwrap_err().contains("清理失效记录"));
}

#[test]
fn pattern_matches_matrix() {
    assert!(pattern_matches(".env", ".env"));
    assert!(pattern_matches(".ENV", ".env"));
    assert!(pattern_matches(r"config\local.yml", "config/local.yml"));
    assert!(pattern_matches("config/*.yml", "config/local.yml"));
    assert!(!pattern_matches("config/*.yml", "config/sub/local.yml"));
    assert!(!pattern_matches("config/*.yml", "config/local.js"));
    assert!(pattern_matches("seeds/**", "seeds/a.json"));
    assert!(pattern_matches("seeds/**", "seeds/deep/a.json"));
    assert!(!pattern_matches("seeds/**", "seeds"));
    assert!(pattern_matches("local-?", "local-1"));
    assert!(!pattern_matches("local-?", "local-12"));
    assert!(!pattern_matches(".env", ".env.local"));
    assert!(!pattern_matches("", "a"));
}

#[test]
fn validate_copy_pattern_rejects_escapes_and_git() {
    assert!(validate_copy_pattern(".env").is_ok());
    assert!(validate_copy_pattern(r"config\local.*").is_ok());
    assert!(validate_copy_pattern("seeds/**").is_ok());
    assert!(validate_copy_pattern("").is_err());
    assert!(validate_copy_pattern("../secrets").is_err());
    assert!(validate_copy_pattern("config/../../x").is_err());
    assert!(validate_copy_pattern("/etc/passwd").is_err());
    assert!(validate_copy_pattern(r"C:\x\.env").is_err());
    assert!(validate_copy_pattern(".git/config").is_err());
    assert!(validate_copy_pattern("**/secret").is_err());
    assert!(validate_copy_pattern("a\0b").is_err());
    assert!(validate_copy_pattern("a*b*c*d*e").is_err());
    assert!(validate_copy_pattern("a*b*c").is_ok());
}

#[test]
fn pattern_prefix_stops_at_first_wildcard() {
    assert_eq!(pattern_prefix(".env"), ".env");
    assert_eq!(pattern_prefix(r"config\local.*"), "config");
    assert_eq!(pattern_prefix("seeds/**"), "seeds");
    assert_eq!(pattern_prefix("*.txt"), "");
    assert_eq!(pattern_prefix(r"a\b\c.yml"), "a/b/c.yml");
}

#[test]
fn select_copy_files_matches_denies_and_dedups() {
    let candidates = vec![
        ".env".to_string(),
        "./.env".to_string(),
        r"config\local.yml".to_string(),
        ".git/config".to_string(),
        "node_modules/pkg/.env".to_string(),
        "target/debug/.env".to_string(),
        "dist/.env".to_string(),
    ];
    let patterns = vec![".env".to_string(), "config/*.yml".to_string()];
    assert_eq!(select_copy_files(&candidates, &patterns), vec![".env".to_string(), "config/local.yml".to_string()]);
    assert!(select_copy_files(&candidates, &vec![]).is_empty());
}

#[test]
fn normalize_rel_unifies_separators() {
    assert_eq!(normalize_rel(r".\config\\local.yml/"), "config/local.yml");
    assert_eq!(normalize_rel(""), "");
}
