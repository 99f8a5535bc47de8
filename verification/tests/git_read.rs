use devlaunch::git_read::{
    branches, commit_detail, file_diff, git_log, git_log_filtered, in_progress, operation_from_git_dir,
    repo_file_for_read, repo_status_with, untracked_file_diff, LOG_FORMAT,
};
use devlaunch::locate::{resolve_git_effective, resolve_git_with, resolve_wt_with};
use devlaunch::git::{cleanup_killed_index_lock, GitRaw};
use devlaunch::preview::binary_preview;
use std::cell::RefCell;

/// Answers git calls from a table of (arguments, answer); anything else fails.
fn fake_git(table: Vec<(Vec<&'static str>, Result<&'static str, &'static str>)>) -> impl Fn(Vec<String>) -> Result<String, String> {
    move |args: Vec<String>| {
        for (want, answer) in &table {
            if want.len() == args.len() && want.iter().zip(args.iter()).all(|(w, a)| w == a) {
                return match answer {
                    Ok(s) => Ok(s.to_string()),
                    Err(e) => Err(e.to_string()),
                };
            }
        }
        Err(format!("unexpected: {}", args.join(" ")))
    }
}

fn in_set(set: Vec<&'static str>) -> impl Fn(String) -> bool {
    move |p: String| set.iter().any(|s| *s == p)
}

fn never_read(_p: String) -> Result<(Vec<u8>, bool), String> {
    Err("not read".to_string())
}

#[test]
fn untracked_file_diff_builds_add_hunks() {
    let read = |p: String| {
        assert_eq!(p, "new.txt");
        Ok((b"alpha\nbeta\n".to_vec(), false))
    };
    let got = untracked_file_diff(&read, "new.txt").unwrap();
    assert!(got.untracked);
    assert_eq!(got.additions, 2);
    assert_eq!(got.deletions, 0);
    assert_eq!(got.hunks.len(), 1);
    assert_eq!(got.hunks[0].lines[0].kind, "add");
    assert_eq!(got.hunks[0].lines[0].new_no, Some(1));
    assert_eq!(got.hunks[0].header, "@@ 新文件 @@");
    assert_eq!(got.hunks[0].lines[1].text, "beta");
}

#[test]
fn untracked_binary_file_is_not_rendered_as_text() {
    let read = |_p: String| Ok((b"ab\x00cd".to_vec(), false));
    let f = untracked_file_diff(&read, "blob.dat").unwrap();
    assert!(f.binary);
    assert!(f.hunks.is_empty());
    let read = |_p: String| Ok((b"line1\r\nline2".to_vec(), true));
    let f = untracked_file_diff(&read, "note.txt").unwrap();
    assert!(!f.binary);
    assert!(f.truncated);
    assert_eq!(f.hunks[0].lines.len(), 2);
    assert_eq!(f.hunks[0].lines[0].text, "line1");
}

#[test]
fn untracked_empty_file_has_no_hunks_and_read_errors_pass_through() {
    let read = |_p: String| Ok((Vec::new(), false));
    let f = untracked_file_diff(&read, "empty.txt").unwrap();
    assert_eq!(f.additions, 0);
    assert!(f.hunks.is_empty());
    let read = |_p: String| Err("读取文件失败：denied".to_string());
    assert_eq!(untracked_file_diff(&read, "x").unwrap_err(), "读取文件失败：denied");
}

#[test]
fn file_diff_of_tracked_file_parses_and_relabels() {
    let patch = "diff --git a/src/a.rs b/src/a.rs\n--- a/src/a.rs\n+++ b/src/a.rs\n@@ -1,2 +1,2 @@\n-old\n+new\n ctx\n";
    let run = fake_git(vec![
        (vec!["ls-files", "--error-unmatch", "--", "src/a.rs"], Ok("src/a.rs\n")),
        (vec!["diff", "--cached", "-w", "--", "src/a.rs"], Ok(patch)),
    ]);
    let f = file_diff(&run, &never_read, "src/a.rs", true, true, false).unwrap();
    assert_eq!(f.path, "src/a.rs");
    assert!(f.staged);
    assert!(!f.truncated);
    assert_eq!(f.additions, 1);
    assert_eq!(f.deletions, 1);
    assert_eq!(f.hunks[0].lines.len(), 3);
}

#[test]
fn file_diff_without_changes_is_empty_and_untracked_goes_to_the_file() {
    let run = fake_git(vec![
        (vec!["ls-files", "--error-unmatch", "--", "a.txt"], Ok("a.txt\n")),
        (vec!["diff", "--unified=100000", "--", "a.txt"], Ok("")),
    ]);
    let f = file_diff(&run, &never_read, "a.txt", false, false, true).unwrap();
    assert_eq!(f.path, "a.txt");
    assert!(f.hunks.is_empty());
    let run = fake_git(vec![(vec!["ls-files", "--error-unmatch", "--", "n.txt"], Err("error: pathspec"))]);
    let read = |_p: String| Ok((b"x\n".to_vec(), false));
    let f = file_diff(&run, &read, "n.txt", false, false, false).unwrap();
    assert!(f.untracked);
    assert_eq!(f.additions, 1);
}

#[test]
fn git_log_caps_page_and_parses_records() {
    let rec = "h1\x1fs1\x1f\x1fAnn\x1fa@x\x1f2024-01-01\x1fFirst\x1f\x1e";
    let run = fake_git(vec![(vec!["log", "--date-order", "--max-count", "200", "--skip", "5", LOG_FORMAT], Ok(rec))]);
    let got = git_log(&run, 999, 5).unwrap();
    assert_eq!(got.len(), 1);
    assert_eq!(got[0].hash, "h1");
    assert_eq!(got[0].subject, "First");
}

#[test]
fn git_log_unborn_head_is_empty_and_other_errors_pass_through() {
    let run = fake_git(vec![
        (vec!["rev-parse", "--is-inside-work-tree"], Ok("true\n")),
        (vec!["rev-parse", "--verify", "--quiet", "HEAD"], Err("")),
    ]);
    assert!(git_log(&run, 10, 0).unwrap().is_empty());
    let run = fake_git(vec![(vec!["rev-parse", "--is-inside-work-tree"], Err("fatal"))]);
    assert!(git_log(&run, 10, 0).unwrap_err().starts_with("unexpected: log"));
}

#[test]
fn git_log_filtered_passes_each_filter_as_one_argument() {
    let run = fake_git(vec![(
        vec![
            "log", "--date-order", "-i", "--max-count", "50", "--skip", "0", "--grep=fix bug", "--author=Ann", LOG_FORMAT,
            "--", "src/a.rs",
        ],
        Ok(""),
    )]);
    assert!(git_log_filtered(&run, 50, 0, Some("fix bug"), Some("Ann"), Some("src/a.rs")).unwrap().is_empty());
    let run = fake_git(vec![(vec!["log", "--date-order", "-i", "--max-count", "1", "--skip", "2", LOG_FORMAT], Ok(""))]);
    assert!(git_log_filtered(&run, 1, 2, Some("   "), None, None).is_ok());
}

#[test]
fn commit_detail_sums_changes_and_validates_hash() {
    let patch = "diff --git a/a b/a\n--- a/a\n+++ b/a\n@@ -1 +1,2 @@\n-x\n+y\n+z\ndiff --git a/b b/b\n--- a/b\n+++ b/b\n@@ -1 +1 @@\n-p\n+q\n";
    let run = fake_git(vec![
        (vec!["show", "--stat", "--format=%H", "abcd123", "--"], Ok("abcd123\n 2 files changed")),
        (vec!["show", "--format=", "--patch", "abcd123", "--"], Ok(patch)),
    ]);
    let d = commit_detail(&run, "abcd123").unwrap();
    assert_eq!(d.files.len(), 2);
    assert_eq!(d.additions, 3);
    assert_eq!(d.deletions, 2);
    assert!(!d.truncated);
    assert!(d.stat.contains("2 files"));
    assert_eq!(commit_detail(&run, "--all").unwrap_err(), "无效的提交哈希：--all");
}

#[test]
fn branches_lists_locals_then_remotes() {
    let run = fake_git(vec![
        (
            vec!["for-each-ref", "refs/heads", "--format=%(refname:short)\u{1f}%(upstream:short)\u{1f}%(upstream:track)"],
            Ok("main\x1forigin/main\x1f[ahead 1]\nfeat\x1f\x1f\n"),
        ),
        (vec!["symbolic-ref", "--short", "HEAD"], Ok("main\n")),
        (vec!["for-each-ref", "refs/remotes", "--format=%(refname:short)\u{1f}%(symref)"], Ok("origin/main\x1f\norigin\x1frefs/remotes/origin/main\n")),
    ]);
    let bs = branches(&run).unwrap();
    let names: Vec<&str> = bs.iter().map(|b| b.name.as_str()).collect();
    assert_eq!(names, vec!["feat", "main", "origin/main"]);
    assert!(bs[1].current);
    assert_eq!(bs[1].ahead, 1);
    assert!(bs[2].remote);
}

#[test]
fn operation_from_git_dir_detects_markers() {
    let none = in_set(vec![]);
    assert_eq!(operation_from_git_dir(&none, &none, "C:\\r\\.git"), None);
    let merge = in_set(vec!["C:\\r\\.git\\MERGE_HEAD"]);
    assert_eq!(operation_from_git_dir(&none, &merge, "C:\\r\\.git"), Some("merge".into()));
    let rebase = in_set(vec!["C:\\r\\.git\\rebase-merge"]);
    assert_eq!(operation_from_git_dir(&rebase, &merge, "C:\\r\\.git"), Some("rebase".into()));
    let pick = in_set(vec!["C:\\r\\.git\\CHERRY_PICK_HEAD"]);
    assert_eq!(operation_from_git_dir(&none, &pick, "C:\\r\\.git"), Some("cherry-pick".into()));
}

#[test]
fn in_progress_resolves_relative_git_dir_against_the_repo() {
    let run = fake_git(vec![(vec!["rev-parse", "--git-dir"], Ok(".git\n"))]);
    let dirs = in_set(vec!["C:\\repo\\.git\\rebase-apply"]);
    let files = in_set(vec![]);
    assert_eq!(in_progress(&run, &dirs, &files, "C:\\repo"), Some("rebase".into()));
    let run = fake_git(vec![(vec!["rev-parse", "--git-dir"], Ok("D:\\main\\.git\\worktrees\\wt1"))]);
    let files = in_set(vec!["D:\\main\\.git\\worktrees\\wt1\\MERGE_HEAD"]);
    assert_eq!(in_progress(&run, &in_set(vec![]), &files, "C:\\wt1"), Some("merge".into()));
}

fn no_capped(_a: Vec<String>) -> Result<(String, bool), String> {
    Err("not run".to_string())
}

#[test]
fn repo_status_missing_dir_reports_error() {
    let run = fake_git(vec![]);
    let st = repo_status_with("p1", "C:\\nope", true, &run, &no_capped, &in_set(vec![]), &in_set(vec![]));
    assert!(!st.is_repo);
    assert!(st.error.unwrap().contains("目录不存在"));
}

#[test]
fn repo_status_without_git_reports_missing_not_non_repo() {
    let run = fake_git(vec![]);
    let st = repo_status_with("p1", "C:\\r", false, &run, &no_capped, &in_set(vec!["C:\\r"]), &in_set(vec![]));
    assert!(!st.is_repo);
    assert!(st.error.unwrap().contains("未找到 git.exe"));
}

#[test]
fn repo_status_reads_status_cap_flag_and_operation() {
    let run = fake_git(vec![
        (vec!["rev-parse", "--is-inside-work-tree"], Ok("true\n")),
        (vec!["rev-parse", "--git-dir"], Ok(".git\n")),
    ]);
    let capped = |args: Vec<String>| {
        assert_eq!(args, vec!["--no-optional-locks", "status", "--porcelain=v2", "--branch"]);
        Ok(("# branch.head main\n1 .M N... 100644 100644 100644 a b f.txt\n".to_string(), true))
    };
    let dirs = in_set(vec!["C:\\r"]);
    let files = in_set(vec!["C:\\r\\.git\\MERGE_HEAD"]);
    let st = repo_status_with("p1", "C:\\r", true, &run, &capped, &dirs, &files);
    assert!(st.is_repo);
    assert!(st.truncated);
    assert_eq!(st.branch.as_deref(), Some("main"));
    assert_eq!(st.unstaged, 1);
    assert_eq!(st.operation.as_deref(), Some("merge"));
    let run = fake_git(vec![(vec!["rev-parse", "--is-inside-work-tree"], Err("fatal: not a git repository"))]);
    let st = repo_status_with("p1", "C:\\r", true, &run, &no_capped, &dirs, &files);
    assert!(!st.is_repo);
    assert!(st.error.is_none());
}

fn canon_ok(p: String) -> Result<String, String> {
    Ok(p)
}

fn file_yes(_p: String) -> Result<bool, String> {
    Ok(true)
}

#[test]
fn repo_file_rejects_parent_paths() {
    let err = repo_file_for_read(&canon_ok, &file_yes, "C:\\repo", "../outside.txt").unwrap_err();
    assert!(err.contains("非法文件路径"), "{err}");
    assert!(repo_file_for_read(&canon_ok, &file_yes, "C:\\repo", "C:\\x.txt").is_err());
    assert!(repo_file_for_read(&canon_ok, &file_yes, "C:\\repo", "\\x.txt").is_err());
}

#[test]
fn repo_file_accepts_file_inside_root_and_refuses_links_out() {
    assert_eq!(
        repo_file_for_read(&canon_ok, &file_yes, "C:\\repo", "src/a.rs").unwrap(),
        "C:\\repo\\src/a.rs"
    );
    let link_out = |p: String| if p == "C:\\repo" { Ok(p) } else { Ok("C:\\elsewhere\\a.rs".to_string()) };
    let err = repo_file_for_read(&link_out, &file_yes, "C:\\repo", "a.rs").unwrap_err();
    assert_eq!(err, "文件指向仓库外，已拒绝读取：a.rs");
    let dir_kind = |_p: String| Ok(false);
    assert_eq!(repo_file_for_read(&canon_ok, &dir_kind, "C:\\repo", "src").unwrap_err(), "不是文件：src");
}

#[test]
fn resolve_git_prefers_override_file() {
    let probe = in_set(vec!["C:\\t\\git.exe"]);
    assert_eq!(resolve_git_with(Some("C:\\t\\git.exe"), None, None, &probe).as_deref(), Some("C:\\t\\git.exe"));
}

#[test]
fn resolve_git_empty_override_forces_none() {
    let probe = in_set(vec!["C:\\t\\git.exe"]);
    assert_eq!(resolve_git_with(Some(""), Some(vec!["C:\\t".to_string()]), None, &probe), None);
}

#[test]
fn resolve_git_falls_back_to_program_files_cmd_then_bin() {
    let probe = in_set(vec!["C:\\PF\\Git\\cmd\\git.exe", "C:\\PF\\Git\\bin\\git.exe"]);
    assert_eq!(resolve_git_with(None, None, Some("C:\\PF"), &probe).as_deref(), Some("C:\\PF\\Git\\cmd\\git.exe"));
    let probe = in_set(vec!["C:\\PF\\Git\\bin\\git.exe"]);
    assert_eq!(resolve_git_with(None, None, Some("C:\\PF"), &probe).as_deref(), Some("C:\\PF\\Git\\bin\\git.exe"));
}

#[test]
fn resolve_git_path_scan_finds_git_exe() {
    let probe = in_set(vec!["C:\\b\\git.exe"]);
    let dirs = vec!["C:\\a".to_string(), "C:\\b".to_string()];
    assert_eq!(resolve_git_with(None, Some(dirs), None, &probe).as_deref(), Some("C:\\b\\git.exe"));
}

#[test]
fn resolve_git_effective_configured_wins_and_invalid_is_missing() {
    let probe = in_set(vec!["C:\\good\\git.exe", "C:\\other\\git.exe"]);
    let dirs = || Some(vec!["C:\\other".to_string()]);
    assert_eq!(
        resolve_git_effective(Some(" C:\\good\\git.exe "), None, dirs(), None, &probe).as_deref(),
        Some("C:\\good\\git.exe")
    );
    assert_eq!(resolve_git_effective(Some("C:\\good\\nope.exe"), None, dirs(), None, &probe), None);
    assert_eq!(resolve_git_effective(Some("  "), None, dirs(), None, &probe).as_deref(), Some("C:\\other\\git.exe"));
    assert_eq!(resolve_git_effective(None, None, dirs(), None, &probe).as_deref(), Some("C:\\other\\git.exe"));
}

#[test]
fn resolve_wt_prefers_env_override() {
    let probe = in_set(vec!["C:\\t\\wt.exe"]);
    assert_eq!(resolve_wt_with(Some("C:\\t\\wt.exe"), None, None, &probe).as_deref(), Some("C:\\t\\wt.exe"));
}

#[test]
fn resolve_wt_empty_override_forces_none() {
    let probe = in_set(vec!["C:\\t\\wt.exe"]);
    assert_eq!(resolve_wt_with(Some(""), None, None, &probe), None);
}

#[test]
fn resolve_wt_scans_path_entries_in_order() {
    let probe = in_set(vec!["C:\\b\\wt.exe", "C:\\c\\wt.exe"]);
    let dirs = vec!["C:\\gone".to_string(), "C:\\b".to_string(), "C:\\c".to_string()];
    assert_eq!(resolve_wt_with(None, Some(dirs), None, &probe).as_deref(), Some("C:\\b\\wt.exe"));
}

#[test]
fn resolve_wt_falls_back_to_localappdata_windowsapps() {
    let probe = in_set(vec!["C:\\L\\Microsoft\\WindowsApps\\wt.exe"]);
    assert_eq!(
        resolve_wt_with(None, None, Some("C:\\L"), &probe).as_deref(),
        Some("C:\\L\\Microsoft\\WindowsApps\\wt.exe")
    );
}

#[test]
fn resolve_wt_none_when_nowhere_found() {
    let probe = in_set(vec![]);
    assert_eq!(resolve_wt_with(None, Some(vec!["C:\\p".to_string()]), Some("C:\\L"), &probe), None);
}

fn png(w: u32, h: u32) -> Vec<u8> {
    let mut b = vec![0x89, b'P', b'N', b'G', 0x0d, 0x0a, 0x1a, 0x0a, 0, 0, 0, 13, b'I', b'H', b'D', b'R'];
    b.extend_from_slice(&w.to_be_bytes());
    b.extend_from_slice(&h.to_be_bytes());
    b.extend_from_slice(&[8, 6, 0, 0, 0]);
    b
}

#[test]
fn binary_preview_reads_both_object_sides_of_a_commit() {
    let run = fake_git(vec![
        (vec!["rev-parse", "--verify", "--quiet", "abcd^:img/a.png"], Ok("1111aaaa\n")),
        (vec!["rev-parse", "--verify", "--quiet", "abcd:img/a.png"], Ok("2222bbbb\n")),
        (vec!["cat-file", "-s", "1111aaaa"], Ok("29\n")),
        (vec!["cat-file", "-s", "2222bbbb"], Ok("29\n")),
    ]);
    let asked = RefCell::new(Vec::new());
    let run_bytes = |args: Vec<String>| {
        asked.borrow_mut().push(args[2].clone());
        Ok(Some(if args[2] == "1111aaaa" { png(2, 3) } else { png(4, 5) }))
    };
    let size_of = |_p: String| None;
    let p = binary_preview(true, &run, &run_bytes, &size_of, &never_read_limited, "img\\a.png", false, Some("abcd"), 1000)
        .unwrap();
    assert!(p.image);
    let old = p.old.unwrap();
    let new = p.new.unwrap();
    assert_eq!((old.width, old.height), (Some(2), Some(3)));
    assert_eq!((new.width, new.height), (Some(4), Some(5)));
    assert!(new.data_url.unwrap().starts_with("data:image/png;base64,"));
    assert_eq!(asked.borrow().len(), 2);
}

fn never_read_limited(_p: String, _n: usize) -> Result<(Vec<u8>, bool), String> {
    Err("not read".to_string())
}

#[test]
fn binary_preview_worktree_side_and_refusals() {
    let run = fake_git(vec![
        (vec!["rev-parse", "--verify", "--quiet", ":a.bin"], Err("")),
        (vec!["rev-parse", "--verify", "--quiet", "HEAD:a.bin"], Ok("zz\n")),
    ]);
    let run_bytes = |_a: Vec<String>| Ok(None);
    let size_of = |_p: String| Some(7u64);
    let p = binary_preview(true, &run, &run_bytes, &size_of, &never_read_limited, "a.bin", false, None, 100).unwrap();
    assert!(!p.image);
    assert!(p.old.is_none());
    let new = p.new.unwrap();
    assert_eq!(new.size, 7);
    assert!(new.data_url.is_none());
    assert!(binary_preview(true, &run, &run_bytes, &size_of, &never_read_limited, "c:a", false, None, 100)
        .unwrap_err()
        .contains("非法字符"));
    assert!(binary_preview(false, &run, &run_bytes, &size_of, &never_read_limited, "a", false, None, 100)
        .unwrap_err()
        .contains("未找到 git.exe"));
    assert_eq!(
        binary_preview(true, &run, &run_bytes, &size_of, &never_read_limited, "a", false, Some("xyz!"), 100).unwrap_err(),
        "无效的提交哈希：xyz!"
    );
}

#[test]
fn binary_preview_reports_a_worktree_file_that_grew_past_the_limit() {
    let run = fake_git(vec![]);
    let run_bytes = |_a: Vec<String>| Ok(None);
    let size_of = |_p: String| Some(10u64);
    let read = |_p: String, n: usize| {
        assert_eq!(n, 50);
        Ok((vec![0u8; 50], true))
    };
    let p = binary_preview(true, &run, &run_bytes, &size_of, &read, "x.png", false, None, 50).unwrap();
    let new = p.new.unwrap();
    assert_eq!(new.size, 51);
    assert!(new.too_big);
}

#[test]
fn killed_git_lock_is_removed_only_when_ours_and_free() {
    let git = |a: Vec<String>| -> Result<String, String> {
        assert_eq!(a, vec!["rev-parse", "--absolute-git-dir"]);
        Ok("C:\\repo\\.git\n".to_string())
    };
    let no_git = |_a: Vec<String>| -> Result<String, String> { Err("not a repo".to_string()) };
    let lock = "C:\\repo\\.git\\index.lock";
    let at = |t: u128| move |p: String| if p == lock { Some(t) } else { None };
    let free = |_p: String| true;
    let busy = |_p: String| false;
    let removed = |_p: String| true;
    let stuck = |_p: String| false;
    assert_eq!(cleanup_killed_index_lock(&no_git, &at(10), &free, &removed, 5), None);
    assert_eq!(cleanup_killed_index_lock(&git, &|_p: String| None, &free, &removed, 5), None);
    assert_eq!(
        cleanup_killed_index_lock(&git, &at(4), &free, &removed, 5).unwrap(),
        "索引锁由其他 Git 操作持有，未清理"
    );
    assert_eq!(cleanup_killed_index_lock(&git, &at(5), &busy, &removed, 5).unwrap(), "索引锁仍被占用，未清理");
    assert_eq!(cleanup_killed_index_lock(&git, &at(9), &free, &removed, 5).unwrap(), "已清理中断残留的 index.lock");
    assert_eq!(
        cleanup_killed_index_lock(&git, &at(9), &free, &stuck, 5).unwrap(),
        "索引锁未释放，请手动删除：C:\\repo\\.git\\index.lock"
    );
}

#[test]
fn raw_bytes_result_keeps_content_and_flags_a_cut() {
    let raw = |out: &[u8], capped: bool, exit_ok: bool, timed_out: bool| GitRaw {
        out: out.to_vec(),
        err: b"fatal: bad object HEAD:x\n".to_vec(),
        capped,
        exit_ok,
        timed_out,
    };
    assert_eq!(raw(b"\x89PNG", false, true, false).into_bytes_result().unwrap(), Some(b"\x89PNG".to_vec()));
    assert_eq!(raw(b"\x89PNG", true, true, false).into_bytes_result().unwrap(), None);
    assert_eq!(raw(b"", false, false, false).into_bytes_result().unwrap_err(), "fatal: bad object HEAD:x");
    assert_eq!(raw(b"", false, true, true).into_bytes_result().unwrap_err(), "git 执行超时（已强制结束 Git 进程）");
}
