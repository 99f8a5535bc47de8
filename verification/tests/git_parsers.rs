use base64::Engine;
use devlaunch::diff::parse_unified_diff;
use devlaunch::git::{
    capped_result, friendly_git_error, is_not_repo, parse_branches, parse_remote_branches, parse_status,
    truncate_patch, validate_hash, GitRaw, RepoStatus, MAX_OUTPUT_BYTES,
};
use devlaunch::image::{has_image_extension, image_dimensions, make_side, sniff_image, MAX_PREVIEW_BYTES};
use devlaunch::log::{assign_lanes, log_result, parse_log, Commit};

#[test]
fn write_limit_and_timeout_errors_mark_result_uncertain() {
    let capped = GitRaw { out: vec![b'x'; 8], err: Vec::new(), capped: true, exit_ok: false, timed_out: false }
        .into_write_result(None)
        .unwrap_err();
    assert!(capped.contains("结果可能已部分生效"), "{capped}");

    let timed_out = GitRaw { out: Vec::new(), err: Vec::new(), capped: false, exit_ok: false, timed_out: true }
        .into_write_result(None)
        .unwrap_err();
    assert!(timed_out.contains("结果可能已部分生效"), "{timed_out}");
}

fn png_header(w: u32, h: u32) -> Vec<u8> {
    let mut v = vec![0x89, b'P', b'N', b'G', 0x0d, 0x0a, 0x1a, 0x0a, 0, 0, 0, 13];
    v.extend(b"IHDR");
    v.extend(w.to_be_bytes());
    v.extend(h.to_be_bytes());
    v.extend([0u8; 16]);
    v
}

#[test]
fn image_dimensions_matrix() {
    assert_eq!(image_dimensions(&png_header(800, 600)), Some((800, 600)));

    let mut gif = b"GIF89a".to_vec();
    gif.extend(320u16.to_le_bytes());
    gif.extend(240u16.to_le_bytes());
    assert_eq!(image_dimensions(&gif), Some((320, 240)));

    let mut bmp = b"BM".to_vec();
    bmp.extend([0u8; 16]);
    bmp.extend(100i32.to_le_bytes());
    bmp.extend((-50i32).to_le_bytes());
    assert_eq!(image_dimensions(&bmp), Some((100, 50)));

    let jpeg = vec![
        0xff, 0xd8, 0xff, 0xc0, 0x00, 0x11, 0x08, 0x01, 0x2c, 0x01, 0xf4, 0x03, 0x01, 0x11, 0x00, 0x02, 0x11, 0x00,
        0x03, 0x11, 0x00,
    ];
    assert_eq!(image_dimensions(&jpeg), Some((500, 300)));

    assert_eq!(image_dimensions(&[0, 0, 1, 0, 1, 0, 0, 0]), Some((256, 256)));

    assert_eq!(image_dimensions(b"not an image at all"), None);
    assert_eq!(image_dimensions(&png_header(0, 600)), None);
}

#[test]
fn make_side_drops_data_url_when_pixels_are_too_many() {
    let big = png_header(9000, 9000);
    let side = make_side(big.len() as u64, MAX_PREVIEW_BYTES, Some(big));
    assert_eq!(side.mime.as_deref(), Some("image/png"));
    assert_eq!((side.width, side.height), (Some(9000), Some(9000)));
    assert!(side.over_pixels);
    assert!(side.too_big);
    assert!(side.data_url.is_none());

    let ok = png_header(64, 64);
    let small = make_side(ok.len() as u64, MAX_PREVIEW_BYTES, Some(ok));
    assert!(!small.over_pixels);
    assert!(!small.too_big);
    assert!(small.data_url.is_some());
    assert_eq!((small.width, small.height), (Some(64), Some(64)));
}

#[test]
fn make_side_data_url_is_base64_of_the_bytes() {
    let ok = png_header(1, 1);
    let side = make_side(ok.len() as u64, MAX_PREVIEW_BYTES, Some(ok.clone()));
    let want = format!("data:image/png;base64,{}", base64::engine::general_purpose::STANDARD.encode(&ok));
    assert_eq!(side.data_url.as_deref(), Some(want.as_str()));
}

#[test]
fn friendly_error_detects_non_repo() {
    assert!(is_not_repo("fatal: not a git repository (or any of the parent directories): .git"));
    assert_eq!(
        friendly_git_error("fatal: not a git repository (or any of the parent directories): .git"),
        "不是 git 仓库"
    );
}

#[test]
fn friendly_error_falls_back_to_last_line() {
    let err = friendly_git_error("warning: x\nfatal: bad revision 'abc'");
    assert_eq!(err, "fatal: bad revision 'abc'");
}

#[test]
fn parse_status_branch_and_counts() {
    let text = "\
# branch.oid 1111111111111111111111111111111111111111
# branch.head main
# branch.upstream origin/main
# branch.ab +2 -1
1 .M N... 100644 100644 100644 aaaaaaa bbbbbbb src/app.ts
1 M. N... 100644 100644 100644 aaaaaaa bbbbbbb README.md
? notes.txt
! build/out.exe
";
    let st = parse_status("p1", text);
    assert!(st.is_repo);
    assert_eq!(st.branch.as_deref(), Some("main"));
    assert!(!st.detached);
    assert_eq!((st.ahead, st.behind), (2, 1));
    assert_eq!(st.staged, 1);
    assert_eq!(st.unstaged, 1);
    assert_eq!(st.untracked, 1);
    assert_eq!(st.files.len(), 4);
    assert_eq!(st.files[0].path, "src/app.ts");
    assert_eq!(st.files[0].status, "修改");
    assert_eq!(st.files[3].status, "忽略");
}

#[test]
fn parse_status_detached() {
    let text = "# branch.head (detached)\n# branch.oid abc\n";
    let st = parse_status("p1", text);
    assert!(st.detached);
    assert_eq!(st.branch, None);
    assert_eq!((st.ahead, st.behind), (0, 0));
}

#[test]
fn parse_status_rename_uses_new_path() {
    let text = "2 R. N... 100644 100644 100644 aaaaaaa bbbbbbb R100 new name.ts\told name.ts\n";
    let st = parse_status("p1", text);
    assert_eq!(st.files[0].path, "new name.ts");
    assert_eq!(st.files[0].status, "重命名");
}

#[test]
fn parse_status_keeps_spaces_in_path() {
    let text = "1 .M N... 100644 100644 100644 aaaaaaa bbbbbbb my dir/app.ts\n";
    let st = parse_status("p1", text);
    assert_eq!(st.files[0].path, "my dir/app.ts");
    assert_eq!(st.files[0].status, "修改");
}

#[test]
fn parse_status_unmerged_is_conflict_and_counted_both() {
    let text = "u UU N... 100644 100644 100644 100644 a b c conflicted.txt\n";
    let st = parse_status("p1", text);
    assert_eq!(st.files[0].status, "冲突");
    assert_eq!(st.files[0].index, 'U');
    assert_eq!(st.files[0].worktree, 'U');
    assert_eq!(st.staged, 1);
    assert_eq!(st.unstaged, 1);
}

#[test]
fn parse_status_unmerged_added_combo_is_conflict() {
    let text = "u AA N... 100644 100644 100644 100644 a b c conflicted.txt\n";
    let st = parse_status("p1", text);
    assert_eq!(st.files[0].status, "冲突");
    assert_eq!(st.staged, 1);
    assert_eq!(st.unstaged, 1);
}

#[test]
fn parse_status_counts_conflicts() {
    let text = "u UU N... 100644 100644 100644 100644 a b c both.txt\n1 M. N... 100644 100644 100644 a b staged.txt\n";
    let st = parse_status("p1", text);
    assert_eq!(st.conflicts, 1);
    assert_eq!(st.staged, 2);
    assert_eq!(st.unstaged, 1);
}

#[test]
fn not_repo_status_is_not_truncated() {
    let st = RepoStatus::not_repo("p1");
    assert!(!st.truncated);
    assert!(!st.is_repo);
    let e = RepoStatus::errored("p1", "目录不存在：x".to_string());
    assert!(e.error.unwrap().contains("目录不存在"));
}

#[test]
fn parse_log_splits_records_and_parents() {
    let us = '\u{1f}';
    let rs = '\u{1e}';
    let text = format!(
        "H1{us}h1{us}P1 P2{us}Alice{us}a@x.com{us}2026-09-13T10:00:00+08:00{us}fix: 中文 主题{us}HEAD -> main, origin/main{rs}\n\
         H2{us}h2{us}{us}Bob{us}b@x.com{us}2026-09-12T10:00:00+08:00{us}init{us}{rs}\n"
    );
    let commits = parse_log(&text);
    assert_eq!(commits.len(), 2);
    assert_eq!(commits[0].hash, "H1");
    assert_eq!(commits[0].parents, vec!["P1", "P2"]);
    assert_eq!(commits[0].subject, "fix: 中文 主题");
    assert_eq!(commits[0].refs, vec!["HEAD -> main", "origin/main"]);
    assert!(commits[1].parents.is_empty());
    assert!(commits[1].refs.is_empty());
}

#[test]
fn git_log_unborn_head_is_empty_ok() {
    assert!(log_result(Err("fatal: bad default revision 'HEAD'".into()), true, false).unwrap().is_empty());
}

#[test]
fn git_log_real_error_propagates() {
    assert_eq!(log_result(Err("不是 git 仓库".to_string()), false, false).unwrap_err(), "不是 git 仓库");
    assert_eq!(log_result(Err("fatal: bad revision".to_string()), true, true).unwrap_err(), "fatal: bad revision");
}

#[test]
fn capped_result_truncates_instead_of_erroring() {
    let mut buf = vec![b'a'; MAX_OUTPUT_BYTES + 1];
    buf[..3].copy_from_slice(b"abc");
    let got = capped_result(buf, true, false, false, "fatal: broken pipe", None).unwrap();
    assert_eq!(got.len(), MAX_OUTPUT_BYTES);
    assert!(got.starts_with("abc"));
}

#[test]
fn capped_result_passes_through_success_timeout_and_error() {
    assert_eq!(capped_result(b"ok".to_vec(), false, true, false, "", None).unwrap(), "ok");
    assert!(capped_result(Vec::new(), false, false, true, "", None).unwrap_err().contains("超时"));
    assert_eq!(capped_result(Vec::new(), false, false, false, "fatal: boom", None).unwrap_err(), "fatal: boom");
}

#[test]
fn timeout_error_carries_lock_cleanup_note() {
    let err =
        capped_result(Vec::new(), false, false, true, "", Some("已清理中断残留的 index.lock".into())).unwrap_err();
    assert!(err.contains("超时"), "{err}");
    assert!(err.contains("index.lock"), "{err}");
}

#[test]
fn friendly_error_prefers_last_error_line_over_hook_noise() {
    let stderr =
        "fatal: needed a message\nerror: There was a problem with the pre-commit hook.\nhint: disable the hook\n";
    assert_eq!(friendly_git_error(stderr), "error: There was a problem with the pre-commit hook.");
    assert_eq!(friendly_git_error("some noise\nfatal: bad object"), "fatal: bad object");
    assert_eq!(friendly_git_error("plain words only"), "plain words only");
    assert_eq!(friendly_git_error(""), "git 执行失败");
}

#[test]
fn sniffs_image_magic_and_rejects_lookalikes() {
    assert_eq!(sniff_image(&[0x89, b'P', b'N', b'G', 0x0d, 0x0a, 0x1a, 0x0a]).as_deref(), Some("image/png"));
    assert_eq!(sniff_image(&[0xff, 0xd8, 0xff, 0xe0]).as_deref(), Some("image/jpeg"));
    assert_eq!(sniff_image(b"GIF89a....").as_deref(), Some("image/gif"));
    assert_eq!(sniff_image(b"GIF87a....").as_deref(), Some("image/gif"));
    assert_eq!(sniff_image(b"RIFF\x04\x00\x00\x00WEBPVP8 ").as_deref(), Some("image/webp"));
    assert_eq!(sniff_image(b"\x00\x00\x00\x1cftypavif").as_deref(), Some("image/avif"));
    assert_eq!(sniff_image(&[0, 0, 1, 0, 1, 0]).as_deref(), Some("image/x-icon"));
    let mut bmp = b"BM".to_vec();
    bmp.extend_from_slice(&14u32.to_le_bytes());
    bmp.extend_from_slice(&[0u8; 8]);
    assert_eq!(sniff_image(&bmp).as_deref(), Some("image/bmp"));
    let mut fake_bmp = b"BM".to_vec();
    fake_bmp.extend_from_slice(&4096u32.to_le_bytes());
    fake_bmp.extend_from_slice(&[0u8; 8]);
    assert_eq!(sniff_image(&fake_bmp), None);
    assert_eq!(sniff_image(&[0, 0, 1, 0, 0, 0]), None);
    assert_eq!(sniff_image(b"GIF88a...."), None);
    assert_eq!(sniff_image(b"just a plain text file"), None);
    assert_eq!(sniff_image(&[]), None);
}

#[test]
fn image_extension_gate_decides_fetching_only() {
    assert!(has_image_extension("art/Player.PNG"));
    assert!(has_image_extension("icon.ico"));
    assert!(has_image_extension("a\\b\\c.jpeg"));
    assert!(!has_image_extension("README.md"));
    assert!(!has_image_extension("LICENSE"));
    assert!(!has_image_extension(".pngrc"));
    assert!(!has_image_extension("scene.svg"));
}

fn commit(hash: &str, parents: &[&str]) -> Commit {
    Commit {
        hash: hash.into(),
        short: hash.into(),
        parents: parents.iter().map(|p| p.to_string()).collect(),
        author: "a".into(),
        email: "a@x".into(),
        date: "d".into(),
        subject: "s".into(),
        refs: vec![],
    }
}

#[test]
fn lanes_linear_history_single_lane() {
    let commits = vec![commit("C", &["B"]), commit("B", &["A"]), commit("A", &[])];
    let rows = assign_lanes(&commits);
    assert!(rows.iter().all(|r| r.lane == 0));
    assert_eq!(rows[0].passes, vec![0]);
    assert_eq!(rows[2].passes, Vec::<u16>::new());
    assert!(rows.iter().all(|r| r.edges.is_empty()));
}

#[test]
fn lanes_merge_has_cross_edge() {
    let commits = vec![commit("M", &["P1", "P2"]), commit("P1", &["A"]), commit("P2", &["A"]), commit("A", &[])];
    let rows = assign_lanes(&commits);
    assert_eq!(rows[0].lane, 0);
    assert_eq!(rows[0].edges.len(), 1);
    assert_ne!(rows[0].edges[0].from_lane, rows[0].edges[0].to_lane);
    assert_eq!(rows[0].edges[0].parent_hash, "P2");
    assert_eq!(rows[0].passes, vec![0, 1]);
}

#[test]
fn lanes_root_releases_lane() {
    let commits = vec![commit("A", &[])];
    let rows = assign_lanes(&commits);
    assert_eq!(rows[0].lane, 0);
    assert!(rows[0].passes.is_empty());
}

#[test]
fn validate_hash_accepts_hex_and_rejects_options() {
    assert!(validate_hash("abc123").is_ok());
    assert!(validate_hash(&"a".repeat(40)).is_ok());
    assert!(validate_hash("--all").is_err());
    assert!(validate_hash("abc").is_err());
    assert!(validate_hash("gggg").is_err());
}

#[test]
fn truncate_patch_marks_and_respects_utf8() {
    let small = "diff --git a b".to_string();
    assert_eq!(truncate_patch(small.clone()), (small, false));
    let big = "中".repeat(200_000);
    let (out, truncated) = truncate_patch(big);
    assert!(truncated);
    assert!(out.len() <= 256 * 1024);
    assert!(out.chars().all(|c| c == '中'));
}

#[test]
fn parse_branches_reads_upstream_track() {
    let text = "main\x1forigin/main\x1f[ahead 2, behind 1]\nfeature\x1f\x1f\ndev\x1forigin/dev\x1f[gone]\n";
    let got = parse_branches(text, Some("main"));
    assert_eq!(got.len(), 3);
    let find = |n: &str| got.iter().find(|b| b.name == n).unwrap();
    let main = find("main");
    assert!(main.current);
    assert!(!main.remote);
    assert_eq!(main.upstream.as_deref(), Some("origin/main"));
    assert_eq!((main.ahead, main.behind), (2, 1));
    let feature = find("feature");
    assert_eq!(feature.upstream, None);
    assert!(!feature.current);
    let dev = find("dev");
    assert_eq!((dev.ahead, dev.behind), (0, 0));
}

#[test]
fn parse_remote_branches_filters_head() {
    let got = parse_remote_branches("origin/main\u{1f}\norigin/HEAD\u{1f}refs/remotes/origin/main\nupstream/dev\u{1f}\n");
    assert_eq!(got.len(), 2);
    assert!(got.iter().all(|b| b.remote));
    assert!(got.iter().any(|b| b.name == "origin/main"));
    assert!(got.iter().all(|b| b.name != "origin/HEAD"));
}

#[test]
fn parse_remote_branches_drops_bare_remote_head_ref() {
    let got = parse_remote_branches("origin\u{1f}refs/remotes/origin/main\norigin/main\u{1f}\n");
    assert_eq!(got.iter().map(|b| b.name.as_str()).collect::<Vec<_>>(), vec!["origin/main"]);
    assert!(parse_remote_branches("").is_empty());
}

#[test]
fn parse_branches_detached_has_no_current() {
    let text = "main\x1f\x1f\n";
    let got = parse_branches(text, None);
    assert!(got.iter().all(|b| !b.current));
}

#[test]
fn parse_unified_diff_multi_file_with_numbers() {
    let text = r#"diff --git a/a.txt b/a.txt
--- a/a.txt
+++ b/a.txt
@@ -1,3 +1,4 @@
 line1
-old2
+new2
+extra
 line3
diff --git a/new.txt b/new.txt
new file mode 100644
--- /dev/null
+++ b/new.txt
@@ -0,0 +1,2 @@
+alpha
+beta
"#;
    let files = parse_unified_diff(text);
    assert_eq!(files.len(), 2);
    assert_eq!(files[0].path, "a.txt");
    assert_eq!(files[0].additions, 2);
    assert_eq!(files[0].deletions, 1);
    let lines = &files[0].hunks[0].lines;
    assert_eq!(lines[0].kind, "context");
    assert_eq!(lines[0].old_no, Some(1));
    assert_eq!(lines[0].new_no, Some(1));
    assert_eq!(lines[1].kind, "del");
    assert_eq!(lines[1].old_no, Some(2));
    assert_eq!(lines[1].new_no, None);
    assert_eq!(files[1].path, "new.txt");
    assert_eq!(files[1].additions, 2);
    assert_eq!(files[1].deletions, 0);
    assert_eq!(files[1].hunks[0].lines[0].new_no, Some(1));
}

#[test]
fn parse_unified_diff_binary_and_no_newline() {
    let bin = "diff --git a/x.bin b/x.bin\nBinary files a/x.bin and b/x.bin differ\n";
    let files = parse_unified_diff(bin);
    assert_eq!(files.len(), 1);
    assert!(files[0].binary);
    assert!(files[0].hunks.is_empty());

    let noeol = "diff --git a/a b/a\n--- a/a\n+++ b/a\n@@ -1 +1 @@\n-old\n+new\n\\ No newline at end of file\n";
    let files2 = parse_unified_diff(noeol);
    assert_eq!(files2[0].hunks[0].lines.len(), 2);
}
