use devlaunch::config::WorktreeSettings;
use devlaunch::copying::{collect_candidates, perform_copy, visit_entries, walk_start, CopyFail, EntryKind, WalkStart};
use devlaunch::worktree::{add, remove, select_to_copy, upsert_lease, CopyOutcome};
use std::cell::RefCell;

/// A repository's work trees as git would list them: (path, branch).
struct FakeRepo {
    trees: RefCell<Vec<(String, String)>>,
}

impl FakeRepo {
    fn new() -> FakeRepo {
        FakeRepo { trees: RefCell::new(vec![("C:\\repo".to_string(), "main".to_string())]) }
    }

    fn git(&self, args: Vec<String>) -> Result<String, String> {
        let a: Vec<&str> = args.iter().map(|s| s.as_str()).collect();
        match a.as_slice() {
            ["worktree", "list", "--porcelain"] => {
                let mut out = String::new();
                for (p, b) in self.trees.borrow().iter() {
                    out.push_str(&format!("worktree {p}\nHEAD 0123abcd\nbranch refs/heads/{b}\n\n"));
                }
                Ok(out)
            }
            ["rev-parse", "--verify", "--quiet", _] => Err(String::new()),
            _ => Err(format!("unexpected: {}", a.join(" "))),
        }
    }

    fn write(&self, args: Vec<String>) -> Result<String, String> {
        let a: Vec<&str> = args.iter().map(|s| s.as_str()).collect();
        match a.as_slice() {
            ["worktree", "add", "-b", branch, target, "HEAD"] => {
                self.trees.borrow_mut().push((target.to_string(), branch.to_string()));
                Ok(String::new())
            }
            ["worktree", "remove", "--force", path] => {
                self.trees.borrow_mut().retain(|(p, _)| p != path);
                Ok(String::new())
            }
            _ => Err(format!("unexpected: {}", a.join(" "))),
        }
    }
}

fn settings() -> WorktreeSettings {
    WorktreeSettings {
        root: Some(".wt".into()),
        copy: vec![".env".into(), "config/*.yml".into()],
        port_base: Some(4000),
        port_key: None,
        leases: vec![],
    }
}

fn no_copy(_target: String, _patterns: Vec<String>) -> Result<CopyOutcome, String> {
    Ok(CopyOutcome { copied: 0, bytes: 0, skipped: Vec::new() })
}

#[test]
fn second_environment_gets_next_port_and_reuses_lease() {
    let repo = FakeRepo::new();
    let git = |a: Vec<String>| repo.git(a);
    let write = |a: Vec<String>| repo.write(a);
    let make_dir = |_p: String| Ok(());
    let probe = |_p: String| false;
    let mut live = settings();
    let first = add(&git, &write, &make_dir, &probe, &no_copy, "C:\\repo", &live, "a-one", None).unwrap();
    upsert_lease(&mut live.leases, "a-one", first.port.unwrap());
    let second = add(&git, &write, &make_dir, &probe, &no_copy, "C:\\repo", &live, "a-two", None).unwrap();
    assert_eq!((first.port, second.port), (Some(4000), Some(4001)));
    let again = add(&git, &write, &make_dir, &probe, &no_copy, "C:\\repo", &live, "a-one", None);
    assert!(again.unwrap_err().contains("已有环境"));
    remove(&git, &write, "a-one", true).unwrap();
    remove(&git, &write, "a-two", true).unwrap();
    assert_eq!(repo.trees.borrow().len(), 1);
}

/// Files of a source tree: (path, kind, size), and the targets already there.
struct Disk {
    entries: Vec<(String, EntryKind, u64)>,
    existing: RefCell<Vec<String>>,
    copied: RefCell<Vec<(String, String)>>,
}

impl Disk {
    fn stat(&self, p: &str) -> Result<(EntryKind, u64), String> {
        self.entries
            .iter()
            .find(|(q, _, _)| q == p)
            .map(|(_, k, z)| (*k, *z))
            .ok_or_else(|| "系统找不到指定的文件。 (os error 2)".to_string())
    }

    fn copy(&self, from: String, to: String) -> Result<(), CopyFail> {
        self.existing.borrow_mut().push(to.clone());
        self.copied.borrow_mut().push((from, to));
        Ok(())
    }
}

#[test]
fn perform_copy_creates_parents_and_never_overwrites() {
    let disk = Disk {
        entries: vec![
            ("C:\\src\\.env".to_string(), EntryKind::File, 3),
            ("C:\\src\\config/local.yml".to_string(), EntryKind::File, 4),
            ("C:\\src\\nested/.env".to_string(), EntryKind::File, 6),
        ],
        existing: RefCell::new(vec!["C:\\dst\\nested/.env".to_string()]),
        copied: RefCell::new(Vec::new()),
    };
    let stat = |p: String| disk.stat(&p);
    let present = |p: String| disk.existing.borrow().contains(&p);
    let copy_file = |a: String, b: String| disk.copy(a, b);
    let files = vec![".env".to_string(), "config/local.yml".to_string(), "nested/.env".to_string()];
    let out = perform_copy(&stat, &present, &copy_file, "C:\\src", "C:\\dst", &files).unwrap();
    assert_eq!(out.copied, 2);
    assert_eq!(out.bytes, 7);
    assert_eq!(out.skipped, vec!["nested/.env".to_string()]);
    assert_eq!(
        disk.copied.borrow()[1],
        ("C:\\src\\config/local.yml".to_string(), "C:\\dst\\config/local.yml".to_string())
    );
}

#[test]
fn perform_copy_errors_on_missing_source() {
    let disk = Disk { entries: vec![], existing: RefCell::new(vec![]), copied: RefCell::new(vec![]) };
    let stat = |p: String| disk.stat(&p);
    let present = |p: String| disk.existing.borrow().contains(&p);
    let copy_file = |a: String, b: String| disk.copy(a, b);
    let err = perform_copy(&stat, &present, &copy_file, "C:\\src", "C:\\dst", &vec!["gone.env".into()]).unwrap_err();
    assert!(err.contains("读取 gone.env 失败"), "{err}");
    assert!(disk.copied.borrow().is_empty());
}

#[test]
fn perform_copy_checks_every_source_before_copying() {
    let disk = Disk {
        entries: vec![
            ("C:\\src\\a".to_string(), EntryKind::File, 1),
            ("C:\\src\\link".to_string(), EntryKind::Link, 0),
            ("C:\\src\\dir".to_string(), EntryKind::Dir, 0),
            ("C:\\src\\big".to_string(), EntryKind::File, 20 * 1024 * 1024 + 1),
        ],
        existing: RefCell::new(vec![]),
        copied: RefCell::new(vec![]),
    };
    let stat = |p: String| disk.stat(&p);
    let present = |p: String| disk.existing.borrow().contains(&p);
    let copy_file = |a: String, b: String| disk.copy(a, b);
    let err = perform_copy(&stat, &present, &copy_file, "C:\\src", "C:\\dst", &vec!["a".into(), "dir".into()]).unwrap_err();
    assert_eq!(err, "dir 不是文件，无法复制");
    let err = perform_copy(&stat, &present, &copy_file, "C:\\src", "C:\\dst", &vec!["a".into(), "big".into()]).unwrap_err();
    assert_eq!(err, "big 超过单文件 20MB 上限，未执行复制");
    assert!(disk.copied.borrow().is_empty());
    let out = perform_copy(&stat, &present, &copy_file, "C:\\src", "C:\\dst", &vec!["link".into(), "a".into()]).unwrap();
    assert_eq!((out.copied, out.skipped.clone()), (1, vec!["link".to_string()]));
    let many: Vec<String> = (0..201).map(|i| format!("f{i}")).collect();
    assert_eq!(
        perform_copy(&stat, &present, &copy_file, "C:\\src", "C:\\dst", &many).unwrap_err(),
        "复制白名单命中 201 个文件，超过 200 上限"
    );
}

#[test]
fn perform_copy_reports_which_step_failed() {
    let disk = Disk {
        entries: vec![("C:\\src\\a".to_string(), EntryKind::File, 1)],
        existing: RefCell::new(vec![]),
        copied: RefCell::new(vec![]),
    };
    let stat = |p: String| disk.stat(&p);
    let present = |_p: String| false;
    let no_dir = |_a: String, _b: String| Err(CopyFail::MakeDir("拒绝访问。".to_string()));
    assert_eq!(
        perform_copy(&stat, &present, &no_dir, "C:\\src", "C:\\dst", &vec!["a".into()]).unwrap_err(),
        "创建目录失败：拒绝访问。"
    );
    let no_copy = |_a: String, _b: String| Err(CopyFail::Copy("磁盘已满".to_string()));
    assert_eq!(
        perform_copy(&stat, &present, &no_copy, "C:\\src", "C:\\dst", &vec!["a".into()]).unwrap_err(),
        "复制 a 失败：磁盘已满"
    );
}

#[test]
fn walk_visits_entries_and_skips_links_and_denied_paths() {
    match walk_start("config", Some(EntryKind::Dir)) {
        WalkStart::Dir(rel) => assert_eq!(rel, "config"),
        other => panic!("{other:?}"),
    }
    match walk_start(".env", Some(EntryKind::File)) {
        WalkStart::File(rel) => assert_eq!(rel, ".env"),
        other => panic!("{other:?}"),
    }
    assert!(matches!(walk_start("x", Some(EntryKind::Link)), WalkStart::Nothing));
    assert!(matches!(walk_start("x", None), WalkStart::Nothing));
    let entries = vec![
        ("local.yml".to_string(), Some(EntryKind::File)),
        ("sub".to_string(), Some(EntryKind::Dir)),
        ("node_modules".to_string(), Some(EntryKind::Dir)),
        ("ln".to_string(), Some(EntryKind::Link)),
        ("gone".to_string(), None),
    ];
    let mut files = Vec::new();
    let mut dirs = Vec::new();
    visit_entries("config", &entries, 0, &mut files, &mut dirs).unwrap();
    assert_eq!(files, vec!["config/local.yml".to_string()]);
    assert_eq!(dirs, vec!["config/sub".to_string()]);
    let mut files = Vec::new();
    let err = visit_entries("", &entries, 2000, &mut files, &mut dirs).unwrap_err();
    assert!(err.contains("2000"), "{err}");
}

#[test]
fn select_to_copy_then_copy_keeps_allowed_files_only() {
    let collect = |prefix: String, _already: usize| -> Result<Vec<String>, String> {
        Ok(match prefix.as_str() {
            ".env" => vec![".env".to_string()],
            "config" => vec!["config/local.yml".to_string(), "config/readme.md".to_string()],
            _ => vec![],
        })
    };
    let picked = select_to_copy(&collect, &vec![".env".into(), "config/*.yml".into()]).unwrap();
    assert_eq!(picked, vec![".env".to_string(), "config/local.yml".to_string()]);
}

/// Directories of a fake tree under `R:\t`: path → entries (name, kind).
fn tree_kind(p: &str) -> Option<EntryKind> {
    match p {
        "R:\\t" | "R:\\t\\src" | "R:\\t\\src/sub" | "R:\\t\\node_modules" => Some(EntryKind::Dir),
        "R:\\t\\.env" | "R:\\t\\src/a.rs" => Some(EntryKind::File),
        "R:\\t\\link" => Some(EntryKind::Link),
        _ => None,
    }
}

fn tree_list(p: &str) -> Option<Vec<(String, Option<EntryKind>)>> {
    let e = |n: &str, k: EntryKind| (n.to_string(), Some(k));
    match p {
        "R:\\t" => Some(vec![
            e(".env", EntryKind::File),
            e("src", EntryKind::Dir),
            e("link", EntryKind::Link),
            e("node_modules", EntryKind::Dir),
        ]),
        "R:\\t\\src" => Some(vec![e("a.rs", EntryKind::File), e("sub", EntryKind::Dir), ("gone".to_string(), None)]),
        "R:\\t\\src/sub" => Some(vec![e("b.rs", EntryKind::File)]),
        _ => None,
    }
}

#[test]
fn collect_candidates_walks_without_links_and_denied_dirs() {
    let kind = |p: String| tree_kind(&p);
    let list = |p: String| tree_list(&p);
    let mut all = collect_candidates(&kind, &list, "R:\\t", "", 0).unwrap();
    all.sort();
    assert!(all.contains(&".env".to_string()));
    assert!(all.contains(&"src/a.rs".to_string()));
    assert!(all.contains(&"src/sub/b.rs".to_string()));
    assert!(!all.iter().any(|f| f.starts_with("link") || f.starts_with("node_modules")));
    assert_eq!(collect_candidates(&kind, &list, "R:\\t", ".env", 0).unwrap(), vec![".env"]);
    assert!(collect_candidates(&kind, &list, "R:\\t", "link", 0).unwrap().is_empty());
    assert!(collect_candidates(&kind, &list, "R:\\t", "missing", 0).unwrap().is_empty());
    assert!(collect_candidates(&kind, &list, "R:\\t", "", 2000).unwrap_err().contains("2000"));
}

#[test]
fn add_reports_each_failure_and_copies_the_allow_list_into_the_new_tree() {
    let repo = FakeRepo::new();
    let git = |a: Vec<String>| repo.git(a);
    let write = |a: Vec<String>| repo.write(a);
    let probe = |_p: String| false;
    let live = settings();
    let bad_dir = |_p: String| Err("拒绝访问".to_string());
    let err = add(&git, &write, &bad_dir, &probe, &no_copy, "C:\\repo", &live, "b-one", None).unwrap_err();
    assert_eq!(err, "创建环境根目录失败：拒绝访问");
    let make_dir = |_p: String| Ok(());
    let seen = RefCell::new(None);
    let copy = |target: String, patterns: Vec<String>| {
        *seen.borrow_mut() = Some((target, patterns));
        Ok(CopyOutcome { copied: 2, bytes: 10, skipped: vec!["config/a.yml".to_string()] })
    };
    let out = add(&git, &write, &make_dir, &probe, &copy, "C:\\repo", &live, "b-one", None).unwrap();
    let (target, patterns) = seen.borrow().clone().unwrap();
    assert_eq!(target, out.path);
    assert_eq!(patterns, live.copy);
    assert_eq!((out.copied, out.skipped.clone()), (2, vec!["config/a.yml".to_string()]));
    let failing_copy = |_t: String, _p: Vec<String>| -> Result<CopyOutcome, String> { Err("复制失败".to_string()) };
    let err = add(&git, &write, &make_dir, &probe, &failing_copy, "C:\\repo", &live, "b-two", None).unwrap_err();
    assert_eq!(err, "复制失败");
    let taken = |_p: String| true;
    assert!(add(&git, &write, &make_dir, &taken, &no_copy, "C:\\repo", &live, "b-three", None).unwrap_err().contains("全部被占用"));
    let broken = |_a: Vec<String>| -> Result<String, String> { Err("fatal: broken".to_string()) };
    assert_eq!(add(&broken, &write, &make_dir, &probe, &no_copy, "C:\\repo", &live, "b-four", None).unwrap_err(), "fatal: broken");
    assert!(add(&git, &write, &make_dir, &probe, &no_copy, "C:\\repo", &live, "b-one", None).unwrap_err().contains("已有环境"));
}
