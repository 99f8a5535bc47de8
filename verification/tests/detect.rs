use devlaunch::detect::{detect, package_manager, visible_subdir_names, DetectResult, ScannedRepo};
use devlaunch::scan::{is_git_repo, scan};

const ROOT: &str = "C:\\p";

/// An in-memory tree under `ROOT`: files with their text, and the
/// directories that hold them.
struct Tree {
    files: Vec<(String, String)>,
    dirs: Vec<String>,
}

impl Tree {
    fn new(files: &[(&str, &str)]) -> Tree {
        let mut t = Tree { files: Vec::new(), dirs: vec![ROOT.to_string()] };
        for (rel, text) in files {
            let parts: Vec<&str> = rel.split('/').collect();
            let mut cur = ROOT.to_string();
            for d in &parts[..parts.len() - 1] {
                cur = format!("{cur}\\{d}");
                if !t.dirs.contains(&cur) {
                    t.dirs.push(cur.clone());
                }
            }
            t.files.push((format!("{cur}\\{}", parts[parts.len() - 1]), text.to_string()));
        }
        t
    }

    fn with_dir(mut self, rel: &str) -> Tree {
        let mut cur = ROOT.to_string();
        for d in rel.split('/') {
            cur = format!("{cur}\\{d}");
            if !self.dirs.contains(&cur) {
                self.dirs.push(cur.clone());
            }
        }
        self
    }

    fn is_file(&self, p: &str) -> bool {
        self.files.iter().any(|(f, _)| f == p)
    }

    fn list(&self, p: &str) -> Option<Vec<(String, bool)>> {
        if !self.dirs.iter().any(|d| d == p) {
            return None;
        }
        let prefix = format!("{p}\\");
        let mut out = Vec::new();
        for d in &self.dirs {
            if let Some(rest) = d.strip_prefix(&prefix) {
                if !rest.contains('\\') {
                    out.push((rest.to_string(), true));
                }
            }
        }
        for (f, _) in &self.files {
            if let Some(rest) = f.strip_prefix(&prefix) {
                if !rest.contains('\\') {
                    out.push((rest.to_string(), false));
                }
            }
        }
        Some(out)
    }

    fn read(&self, p: &str) -> Option<String> {
        self.files.iter().find(|(f, _)| f == p).map(|(_, t)| t.clone())
    }

    fn present(&self, p: &str) -> bool {
        self.is_file(p) || self.dirs.iter().any(|d| d == p)
    }

    fn scan(&self, root: &str) -> Vec<ScannedRepo> {
        let present = |p: String| self.present(&p);
        let is_file = |p: String| self.is_file(&p);
        let list_dir = |p: String| self.list(&p);
        let size_of = |p: String| self.read(&p).map(|t| t.len() as u64);
        let read = |p: String| self.read(&p);
        scan(&present, &is_file, &list_dir, &size_of, &read, root)
    }

    fn detect(&self, root: &str) -> DetectResult {
        let is_file = |p: String| self.is_file(&p);
        let list_dir = |p: String| self.list(&p);
        let size_of = |p: String| self.read(&p).map(|t| t.len() as u64);
        let read = |p: String| self.read(&p);
        detect(&is_file, &list_dir, &size_of, &read, root)
    }
}

#[test]
fn node_scripts_picked_by_priority_and_capped() {
    let t = Tree::new(&[("package.json", r#"{"scripts":{"start":"x","dev":"y","build":"z","serve":"w"}}"#)]);
    let res = t.detect(ROOT);
    let cmds: Vec<&str> = res.suggestions.iter().map(|s| s.command.as_str()).collect();
    assert_eq!(cmds, vec!["npm run dev", "npm run start"]);
    assert_eq!(res.ecosystems, vec!["node"]);
    assert_eq!(res.suggestions[0].name, "dev");
}

#[test]
fn node_package_manager_from_lockfiles() {
    for (lock, pm) in [
        ("pnpm-lock.yaml", "pnpm"),
        ("yarn.lock", "yarn"),
        ("bun.lockb", "bun"),
        ("bun.lock", "bun"),
        ("package-lock.json", "npm"),
    ] {
        let t = Tree::new(&[("package.json", r#"{"scripts":{"dev":"vite"}}"#), (lock, "")]);
        let res = t.detect(ROOT);
        assert_eq!(res.suggestions[0].command, format!("{pm} run dev"), "{lock}");
    }
}

#[test]
fn node_defaults_to_npm_without_lockfile() {
    let t = Tree::new(&[("package.json", r#"{"scripts":{"dev":"vite"}}"#)]);
    assert_eq!(t.detect(ROOT).suggestions[0].command, "npm run dev");
}

#[test]
fn node_bad_json_is_ignored() {
    let t = Tree::new(&[("package.json", "{ not json")]);
    assert!(t.detect(ROOT).suggestions.is_empty());
}

#[test]
fn subdirs_make_items_with_workdir_and_names() {
    let t = Tree::new(&[
        ("frontend/package.json", r#"{"scripts":{"dev":"vite"}}"#),
        ("backend/package.json", r#"{"scripts":{"start":"node ."}}"#),
    ]);
    let res = t.detect(ROOT);
    assert_eq!(res.suggestions.len(), 2);
    assert_eq!(res.suggestions[0].name, "backend");
    assert_eq!(res.suggestions[0].work_dir.as_deref(), Some("backend"));
    assert_eq!(res.suggestions[0].command, "npm run start");
    assert_eq!(res.suggestions[1].name, "frontend");
}

#[test]
fn subdir_second_script_gets_dir_prefix() {
    let t = Tree::new(&[("web/package.json", r#"{"scripts":{"dev":"vite","start":"serve"}}"#)]);
    let res = t.detect(ROOT);
    assert_eq!(res.suggestions[0].name, "web");
    assert_eq!(res.suggestions[1].name, "web: start");
}

#[test]
fn skip_dirs_are_not_scanned() {
    let t = Tree::new(&[
        ("node_modules/pkg/package.json", r#"{"scripts":{"dev":"x"}}"#),
        (".hidden/package.json", r#"{"scripts":{"dev":"x"}}"#),
    ]);
    assert!(t.detect(ROOT).suggestions.is_empty());
}

#[test]
fn empty_dir_yields_empty_result() {
    let t = Tree::new(&[]);
    let res = t.detect(ROOT);
    assert!(res.suggestions.is_empty());
    assert!(res.ecosystems.is_empty());
}

#[test]
fn total_suggestions_capped_at_eight() {
    let mut files = vec![("package.json".to_string(), r#"{"scripts":{"dev":"x","start":"x"}}"#.to_string())];
    for name in ["a", "b", "c", "d", "e"] {
        files.push((format!("{name}/package.json"), r#"{"scripts":{"dev":"x","start":"x"}}"#.to_string()));
    }
    let refs: Vec<(&str, &str)> = files.iter().map(|(a, b)| (a.as_str(), b.as_str())).collect();
    let t = Tree::new(&refs);
    assert_eq!(t.detect(ROOT).suggestions.len(), 8);
}

#[test]
fn rust_package_suggests_cargo_run() {
    let t = Tree::new(&[("Cargo.toml", "[package]\nname = \"app\"\n")]);
    let res = t.detect(ROOT);
    assert_eq!(res.suggestions[0].command, "cargo run");
    assert_eq!(res.suggestions[0].name, "run");
    assert_eq!(res.ecosystems, vec!["rust"]);
}

#[test]
fn rust_workspace_only_is_skipped() {
    let t = Tree::new(&[("Cargo.toml", "[workspace]\nmembers = [\"a\"]\n")]);
    assert!(t.detect(ROOT).suggestions.is_empty());
}

#[test]
fn go_root_main_and_cmd_entry() {
    let t = Tree::new(&[("go.mod", "module app\n"), ("main.go", "package main\n")]);
    assert_eq!(t.detect(ROOT).suggestions[0].command, "go run .");
    let t2 = Tree::new(&[("go.mod", "module app\n"), ("cmd/api/main.go", "package main\n")]);
    assert_eq!(t2.detect(ROOT).suggestions[0].command, "go run ./cmd/api");
}

#[test]
fn go_without_entry_is_skipped() {
    let t = Tree::new(&[("go.mod", "module app\n")]);
    assert!(t.detect(ROOT).suggestions.is_empty());
}

#[test]
fn python_entry_priority() {
    let t = Tree::new(&[("app.py", ""), ("main.py", ""), ("manage.py", "")]);
    let res = t.detect(ROOT);
    assert_eq!(res.suggestions[0].command, "python manage.py runserver");
    assert_eq!(res.suggestions[0].name, "manage");
}

#[test]
fn python_without_entry_is_skipped() {
    let t = Tree::new(&[("requirements.txt", "fastapi\n"), ("pyproject.toml", "[project]\nname = \"app\"\n")]);
    assert!(t.detect(ROOT).suggestions.is_empty());
}

#[test]
fn oversized_manifest_is_not_read() {
    let big = format!("[package]\n{}", "x".repeat(1024 * 1024));
    let t = Tree::new(&[("Cargo.toml", big.as_str())]);
    assert!(t.detect(ROOT).suggestions.is_empty());
}

#[test]
fn go_picks_the_first_command_by_name_and_rust_counts_crlf_lines() {
    let t = Tree::new(&[
        ("go.mod", "module app\n"),
        ("cmd/zeta/main.go", ""),
        ("cmd/beta/main.go", ""),
        ("cmd/alpha/readme.md", ""),
    ]);
    assert_eq!(t.detect(ROOT).suggestions[0].command, "go run ./cmd/beta");
    let t = Tree::new(&[("svc/Cargo.toml", "  [package]  \r\nname = \"svc\"\r\n")]);
    let res = t.detect(ROOT);
    assert_eq!(res.suggestions[0].name, "svc");
    assert_eq!(res.suggestions[0].work_dir.as_deref(), Some("svc"));
}

#[test]
fn package_manager_prefers_pnpm_then_yarn_then_bun() {
    let t = Tree::new(&[("yarn.lock", ""), ("bun.lock", ""), ("pnpm-lock.yaml", "")]);
    let is_file = |p: String| t.is_file(&p);
    assert_eq!(package_manager(&is_file, ROOT), "pnpm");
    let t = Tree::new(&[("yarn.lock", ""), ("bun.lock", "")]);
    let is_file = |p: String| t.is_file(&p);
    assert_eq!(package_manager(&is_file, ROOT), "yarn");
}

#[test]
fn visible_subdir_names_filters_and_sorts() {
    let entries = vec![
        ("web".to_string(), true),
        (".git".to_string(), true),
        ("target".to_string(), true),
        ("api".to_string(), true),
        ("notes.txt".to_string(), false),
        ("venv".to_string(), true),
    ];
    assert_eq!(visible_subdir_names(&entries), vec!["api".to_string(), "web".to_string()]);
    let t = Tree::new(&[]).with_dir("empty");
    assert!(t.detect(ROOT).suggestions.is_empty());
}

#[test]
fn is_git_repo_accepts_dir_or_file() {
    let t = Tree::new(&[("b/.git", "gitdir: ../x")]).with_dir("a/.git");
    let present = |p: String| t.present(&p);
    assert!(is_git_repo(&present, "C:\\p\\a"));
    assert!(is_git_repo(&present, "C:\\p\\b"));
    assert!(!is_git_repo(&present, ROOT));
}

#[test]
fn scan_finds_repos_at_depth_one_and_two() {
    let t = Tree::new(&[]).with_dir("repoA/.git").with_dir("org/repoB/.git").with_dir("org/notrepo");
    let repos = t.scan(ROOT);
    let names: Vec<&str> = repos.iter().map(|r| r.name.as_str()).collect();
    assert_eq!(names, vec!["repoB", "repoA"]);
}

#[test]
fn scan_skips_hidden_dirs() {
    let t = Tree::new(&[]).with_dir(".hidden/repo/.git");
    assert!(t.scan(ROOT).is_empty());
}

#[test]
fn scan_root_is_repo_returns_self() {
    let t = Tree::new(&[]).with_dir(".git").with_dir("inner/.git");
    let repos = t.scan(ROOT);
    assert_eq!(repos.len(), 1);
    assert_eq!(repos[0].root_dir, ROOT);
    assert_eq!(repos[0].name, "p");
}

#[test]
fn scan_caps_results_at_200() {
    let mut t = Tree::new(&[]);
    for i in 0..201 {
        t = t.with_dir(&format!("repo{i:03}/.git"));
    }
    assert_eq!(t.scan(ROOT).len(), 200);
}

#[test]
fn scan_repos_include_detected_suggestions() {
    let t = Tree::new(&[("web/package.json", r#"{"scripts":{"dev":"vite"}}"#)]).with_dir("web/.git");
    let repos = t.scan(ROOT);
    assert_eq!(repos[0].suggestions[0].command, "npm run dev");
    assert_eq!(repos[0].ecosystems, vec!["node"]);
}
