//! Reading a repository: which git commands to run for a diff, a history page,
//! a commit or the branch list, and how their answers become results. The
//! processes and the file reads are done by the functions passed in.

use vstd::prelude::*;
use vstd::utf8::encode_utf8;
use crate::config::strs;
use crate::diff::{
    adds_sum, dels_sum, lemma_changes_within_lines, parse_unified_diff, parse_unified_diff_spec, DiffLine,
    DiffLineV, FileDiff, FileDiffV, Hunk, HunkV,
};
use crate::git::{
    branches_view, lemma_chars_le_bytes, lossy_string, parse_branches, parse_branches_spec,
    parse_remote_branches, patch_cut, patch_too_long, ref_lines, remote_fold, truncate_patch, text_of,
    valid_hash, validate_hash, BranchInfo,
};
use crate::git::{not_repo_view, parse_status, parse_status_spec, RepoStatus, RepoStatusV, MAX_OUTPUT_BYTES};
use crate::paths::{
    has_drive, has_root, is_absolute_chars, is_absolute_path, join_raw, join_raw_chars, split_path, split_path_exec,
};
use crate::worktree::answered;
use crate::log::{commits_view, log_result, parse_log, parse_log_spec, Commit};
use crate::runner::{call, callable, ran, ran_ok, str_result, Args};
use crate::text::{
    blank, chars_of, decimal, decimal_string, extend_chars, is_blank, lemma_split_len_le, lines, owned, split,
    split_by, string_of, trim, trim_end_char, trim_end_char_vec, trimmed,
};

verus! {

// ---------------------------------------------------------------------------
// Reading a file of the work tree

pub open spec fn bytes_result(o: Result<(Vec<u8>, bool), String>) -> Result<(Seq<u8>, bool), Seq<char>> {
    match o {
        Ok((b, big)) => Ok((b@, big)),
        Err(e) => Err(e@),
    }
}

/// `read` was asked for the repository file `path` and answered `out`: at most
/// `MAX_PATCH_BYTES` bytes of it, and whether there were more.
pub open spec fn file_read<R: Fn(String) -> Result<(Vec<u8>, bool), String>>(
    read: R,
    path: Seq<char>,
    out: Result<(Seq<u8>, bool), Seq<char>>,
) -> bool {
    exists|p: String, o: Result<(Vec<u8>, bool), String>|
        #[trigger] read.ensures((p,), o) && p@ == path && bytes_result(o) == out
}

pub open spec fn readable<R: Fn(String) -> Result<(Vec<u8>, bool), String>>(read: R) -> bool {
    forall|p: String| read.requires((p,))
}

/// git's own test for binary content: a NUL among the first 8000 bytes.
pub open spec fn looks_binary_spec(b: Seq<u8>) -> bool {
    exists|k: int| 0 <= k < b.len() && k < 8000 && b[k] == 0
}

pub fn looks_binary(bytes: &[u8]) -> (r: bool)
    ensures
        r == looks_binary_spec(bytes@),
{
    let n = if bytes.len() < 8000 {
        bytes.len()
    } else {
        8000
    };
    for i in 0..n
        invariant
            n <= bytes@.len(),
            n <= 8000,
            n == bytes@.len() || n == 8000,
            forall|k: int| 0 <= k < i ==> bytes@[k] != 0,
    {
        if bytes[i] == 0 {
            assert(0 <= i < bytes@.len() && i < 8000 && bytes@[i as int] == 0);
            return true;
        }
    }
    false
}

/// The pieces of a new file that become added lines: those between `\n`,
/// without the empty one after a final `\n`.
pub open spec fn added_pieces(text: Seq<char>) -> Seq<Seq<char>> {
    let p = split(text, '\n');
    if p.last().len() == 0 {
        p.drop_last()
    } else {
        p
    }
}

pub open spec fn added_line(piece: Seq<char>, k: int) -> DiffLineV {
    DiffLineV { kind: "add"@, old_no: None, new_no: Some((k + 1) as u32), text: trim_end_char(piece, '\r') }
}

pub open spec fn added_lines(text: Seq<char>) -> Seq<DiffLineV> {
    let p = added_pieces(text);
    Seq::new(p.len(), |k: int| added_line(p[k], k))
}

pub open spec fn new_file_hunks(text: Seq<char>) -> Seq<HunkV> {
    let ls = added_lines(text);
    if ls.len() == 0 {
        seq![]
    } else {
        seq![HunkV { header: "@@ 新文件 @@"@, old_start: 0, new_start: 1, lines: ls }]
    }
}

/// The diff of an untracked file: all of it added, or only its size class when
/// it is binary.
pub open spec fn untracked_diff_spec(path: Seq<char>, bytes: Seq<u8>, oversized: bool) -> FileDiffV {
    if looks_binary_spec(bytes) {
        FileDiffV {
            path,
            staged: false,
            untracked: true,
            binary: true,
            truncated: oversized,
            additions: 0,
            deletions: 0,
            hunks: seq![],
        }
    } else {
        let full = text_of(bytes);
        let text = patch_cut(full);
        FileDiffV {
            path,
            staged: false,
            untracked: true,
            binary: false,
            truncated: oversized || patch_too_long(full),
            additions: added_pieces(text).len() as u32,
            deletions: 0,
            hunks: new_file_hunks(text),
        }
    }
}

fn added_hunks(text: &String) -> (r: (Vec<Hunk>, u32))
    requires
        encode_utf8(text@).len() <= crate::git::MAX_PATCH_BYTES,
    ensures
        r.0@.map_values(|h: Hunk| h@) == new_file_hunks(text@),
        r.1 == added_pieces(text@).len(),
{
    let pieces = split_by(&chars_of(text.as_str()), '\n');
    let ghost sp = split(text@, '\n');
    proof {
        crate::text::lemma_split_nonempty(text@, '\n');
        lemma_split_len_le(text@, '\n');
        lemma_chars_le_bytes(text@);
    }
    let total = pieces.len();
    let count = if pieces[total - 1].len() == 0 {
        total - 1
    } else {
        total
    };
    assert(count == added_pieces(text@).len());
    let mut lines: Vec<DiffLine> = Vec::new();
    let mut n: u32 = 0;
    for i in 0..count
        invariant
            count <= total,
            total == pieces@.len(),
            total == sp.len(),
            sp == split(text@, '\n'),
            total <= 262145,
            count == added_pieces(text@).len(),
            forall|k: int| 0 <= k < total ==> #[trigger] pieces@[k]@ == sp[k],
            n == i,
            lines@.map_values(|l: DiffLine| l@) == added_lines(text@).take(i as int),
    {
        n = n + 1;
        let t = trim_end_char_vec(&pieces[i], '\r');
        let l = DiffLine { kind: owned("add"), old_no: None, new_no: Some(n), text: string_of(&t) };
        let ghost before = lines@.map_values(|l: DiffLine| l@);
        assert(added_pieces(text@)[i as int] == sp[i as int]);
        assert(l@ == added_line(added_pieces(text@)[i as int], i as int));
        assert(l@ == added_lines(text@)[i as int]);
        lines.push(l);
        assert(lines@.map_values(|l: DiffLine| l@) =~= before.push(l@));
        assert(added_lines(text@).take(i + 1) =~= added_lines(text@).take(i as int).push(l@));
    }
    assert(added_lines(text@).take(count as int) =~= added_lines(text@));
    if lines.len() == 0 {
        let v: Vec<Hunk> = Vec::new();
        assert(v@.map_values(|h: Hunk| h@) =~= new_file_hunks(text@));
        (v, n)
    } else {
        let h = Hunk { header: owned("@@ 新文件 @@"), old_start: 0, new_start: 1, lines };
        let v = vec![h];
        assert(v@.map_values(|h: Hunk| h@) =~= new_file_hunks(text@));
        (v, n)
    }
}

/// Builds the diff of an untracked file from what was read of it.
pub fn untracked_diff_from(path: &str, bytes: Vec<u8>, oversized: bool) -> (r: FileDiff)
    ensures
        r@ == untracked_diff_spec(path@, bytes@, oversized),
{
    if looks_binary(bytes.as_slice()) {
        let f = FileDiff {
            path: owned(path),
            staged: false,
            untracked: true,
            binary: true,
            truncated: oversized,
            additions: 0,
            deletions: 0,
            hunks: Vec::new(),
        };
        assert(f@.hunks =~= Seq::<HunkV>::empty());
        return f;
    }
    let (text, cut) = truncate_patch(lossy_string(bytes.as_slice()));
    let (hunks, n) = added_hunks(&text);
    FileDiff {
        path: owned(path),
        staged: false,
        untracked: true,
        binary: false,
        truncated: oversized || cut,
        additions: n,
        deletions: 0,
        hunks,
    }
}

/// What reading an untracked file gives: its diff when the read succeeded,
/// else the read's error.
pub open spec fn untracked_outcome<R: Fn(String) -> Result<(Vec<u8>, bool), String>>(
    read: R,
    path: Seq<char>,
    r: Result<FileDiff, String>,
) -> bool {
    match r {
        Ok(f) => exists|b: Seq<u8>, big: bool|
            #[trigger] file_read(read, path, Ok((b, big))) && f@ == untracked_diff_spec(path, b, big),
        Err(e) => file_read(read, path, Err(e@)),
    }
}

/// The "diff" of an untracked file: the whole file as added lines (at most
/// `MAX_PATCH_BYTES` of it); binary content is not rendered as text.
/// `read` reads the repository file, refusing paths that leave the repository.
pub fn untracked_file_diff<R: Fn(String) -> Result<(Vec<u8>, bool), String>>(read: &R, path: &str) -> (r: Result<
    FileDiff,
    String,
>)
    requires
        readable(*read),
    ensures
        untracked_outcome(*read, path@, r),
{
    let p = owned(path);
    let ghost pv = p;
    let got = read(p);
    assert(read.ensures((pv,), got));
    match got {
        Ok((bytes, big)) => {
            let ghost bv = bytes@;
            assert(file_read(*read, path@, Ok((bv, big))));
            Ok(untracked_diff_from(path, bytes, big))
        },
        Err(e) => {
            assert(file_read(*read, path@, Err(e@)));
            Err(e)
        },
    }
}

// ---------------------------------------------------------------------------
// Which file may be read

/// A repository-relative path that could leave the repository: it has a
/// drive, starts at a root, or climbs with `..`.
pub open spec fn escapes_repo(path: Seq<char>) -> bool {
    has_drive(path) || has_root(path) || split_path(path).2.contains(".."@)
}

/// `Path::starts_with` on Windows paths: same drive and root, and the
/// parts of `base` lead the parts of `p`.
pub open spec fn path_starts_with(p: Seq<char>, base: Seq<char>) -> bool {
    let a = split_path(p);
    let b = split_path(base);
    a.0 == b.0 && a.1 == b.1 && b.2.len() <= a.2.len() && a.2.take(b.2.len() as int) == b.2
}

pub open spec fn canon_view(o: Result<String, String>) -> Result<Seq<char>, Seq<char>> {
    match o {
        Ok(s) => Ok(s@),
        Err(e) => Err(e@),
    }
}

/// `canon` was asked to resolve `p` (links followed) and answered `out`.
pub open spec fn resolved<C: Fn(String) -> Result<String, String>>(
    canon: C,
    p: Seq<char>,
    out: Result<Seq<char>, Seq<char>>,
) -> bool {
    exists|x: String, o: Result<String, String>| #[trigger] canon.ensures((x,), o) && x@ == p && canon_view(o) == out
}

pub open spec fn kind_view(o: Result<bool, String>) -> Result<bool, Seq<char>> {
    match o {
        Ok(b) => Ok(b),
        Err(e) => Err(e@),
    }
}

/// `is_file` was asked whether `p` is a file and answered `out`.
pub open spec fn kind_answer<K: Fn(String) -> Result<bool, String>>(
    is_file: K,
    p: Seq<char>,
    out: Result<bool, Seq<char>>,
) -> bool {
    exists|x: String, o: Result<bool, String>| #[trigger] is_file.ensures((x,), o) && x@ == p && kind_view(o) == out
}

/// A file of the repository at `dir` that may be read: a relative path that
/// stays inside, resolving (links followed) under the resolved repository,
/// to a file.
pub open spec fn repo_file_outcome<C: Fn(String) -> Result<String, String>, K: Fn(String) -> Result<bool, String>>(
    canon: C,
    is_file: K,
    dir: Seq<char>,
    path: Seq<char>,
    r: Result<Seq<char>, Seq<char>>,
) -> bool {
    if escapes_repo(path) {
        r == Err::<Seq<char>, Seq<char>>("非法文件路径："@ + path)
    } else {
        ||| exists|e: Seq<char>| #[trigger] resolved(canon, dir, Err(e)) && r == Err::<Seq<char>, Seq<char>>("解析仓库目录失败："@ + e)
        ||| exists|root: Seq<char>| #[trigger] resolved(canon, dir, Ok(root)) && {
            ||| exists|e: Seq<char>|
                #[trigger] resolved(canon, join_raw(dir, path), Err(e)) && r == Err::<Seq<char>, Seq<char>>(
                    "解析仓库文件失败："@ + e,
                )
            ||| exists|t: Seq<char>| #[trigger] resolved(canon, join_raw(dir, path), Ok(t)) && if !path_starts_with(t, root) {
                r == Err::<Seq<char>, Seq<char>>("文件指向仓库外，已拒绝读取："@ + path)
            } else {
                ||| exists|e: Seq<char>| #[trigger] kind_answer(is_file, t, Err(e)) && r == Err::<Seq<char>, Seq<char>>("读取文件属性失败："@ + e)
                ||| kind_answer(is_file, t, Ok(false)) && r == Err::<Seq<char>, Seq<char>>("不是文件："@ + path)
                ||| kind_answer(is_file, t, Ok(true)) && r == Ok::<Seq<char>, Seq<char>>(t)
            }
        }
    }
}

fn contains_dotdot(ps: &Vec<Vec<char>>) -> (r: bool)
    ensures
        r == ps@.map_values(|x: Vec<char>| x@).contains(".."@),
{
    let ghost pv = ps@.map_values(|x: Vec<char>| x@);
    let dd = chars_of("..");
    for i in 0..ps.len()
        invariant
            pv == ps@.map_values(|x: Vec<char>| x@),
            dd@ == ".."@,
            forall|k: int| 0 <= k < i ==> pv[k] != ".."@,
    {
        if crate::text::vec_eq(&ps[i], &dd) {
            assert(pv[i as int] == ".."@);
            return true;
        }
    }
    false
}

fn starts_with_path(p: &[char], base: &[char]) -> (r: bool)
    ensures
        r == path_starts_with(p@, base@),
{
    let (ad, ar, ap) = split_path_exec(p);
    let (bd, br, bp) = split_path_exec(base);
    if !crate::text::vec_eq(&ad, &bd) || ar != br || bp.len() > ap.len() {
        return false;
    }
    let ghost av = ap@.map_values(|x: Vec<char>| x@);
    let ghost bv = bp@.map_values(|x: Vec<char>| x@);
    for i in 0..bp.len()
        invariant
            bp@.len() <= ap@.len(),
            av == ap@.map_values(|x: Vec<char>| x@),
            bv == bp@.map_values(|x: Vec<char>| x@),
            av == split_path(p@).2,
            bv == split_path(base@).2,
            forall|k: int| 0 <= k < i ==> av[k] == bv[k],
    {
        if !crate::text::vec_eq(&ap[i], &bp[i]) {
            assert(av[i as int] != bv[i as int]);
            assert(av.take(bv.len() as int)[i as int] == av[i as int]);
            return false;
        }
    }
    assert(av.take(bv.len() as int) =~= bv);
    true
}

fn prefixed(prefix: &str, tail: &[char]) -> (r: String)
    ensures
        r@ == prefix@ + tail@,
{
    let mut m = chars_of(prefix);
    extend_chars(&mut m, tail);
    string_of(&m)
}

pub open spec fn str_res(r: Result<String, String>) -> Result<Seq<char>, Seq<char>> {
    match r {
        Ok(s) => Ok(s@),
        Err(e) => Err(e@),
    }
}

/// The file of the repository at `dir` that `path` names, resolved, when it
/// may be read. `canon` resolves a path (following links); `is_file` says
/// whether a path is a file.
pub fn repo_file_for_read<C: Fn(String) -> Result<String, String>, K: Fn(String) -> Result<bool, String>>(
    canon: &C,
    is_file: &K,
    dir: &str,
    path: &str,
) -> (r: Result<String, String>)
    requires
        forall|x: String| canon.requires((x,)),
        forall|x: String| is_file.requires((x,)),
    ensures
        repo_file_outcome(*canon, *is_file, dir@, path@, str_res(r)),
{
    let pc = chars_of(path);
    let (d, rooted, names) = split_path_exec(&pc);
    if d.len() > 0 || rooted || contains_dotdot(&names) {
        return Err(prefixed("非法文件路径：", &pc));
    }
    assert(!escapes_repo(path@));
    let ds = owned(dir);
    let ghost dsv = ds;
    let root = canon(ds);
    assert(canon.ensures((dsv,), root));
    let root = match root {
        Ok(x) => x,
        Err(e) => {
            assert(resolved(*canon, dir@, Err(e@)));
            return Err(prefixed("解析仓库目录失败：", &chars_of(e.as_str())));
        },
    };
    let ghost rootv = root@;
    assert(resolved(*canon, dir@, Ok(rootv)));
    let joined = string_of(&join_raw_chars(&chars_of(dir), &pc));
    let ghost jv = joined;
    let target = canon(joined);
    assert(canon.ensures((jv,), target));
    let target = match target {
        Ok(x) => x,
        Err(e) => {
            assert(resolved(*canon, join_raw(dir@, path@), Err(e@)));
            return Err(prefixed("解析仓库文件失败：", &chars_of(e.as_str())));
        },
    };
    let ghost tv = target@;
    assert(resolved(*canon, join_raw(dir@, path@), Ok(tv)));
    if !starts_with_path(&chars_of(target.as_str()), &chars_of(root.as_str())) {
        return Err(prefixed("文件指向仓库外，已拒绝读取：", &pc));
    }
    let t2 = owned(target.as_str());
    let ghost t2v = t2;
    let k = is_file(t2);
    assert(is_file.ensures((t2v,), k));
    match k {
        Err(e) => {
            assert(kind_answer(*is_file, tv, Err(e@)));
            Err(prefixed("读取文件属性失败：", &chars_of(e.as_str())))
        },
        Ok(false) => {
            assert(kind_answer(*is_file, tv, Ok(false)));
            Err(prefixed("不是文件：", &pc))
        },
        Ok(true) => {
            assert(kind_answer(*is_file, tv, Ok(true)));
            Ok(target)
        },
    }
}

// ---------------------------------------------------------------------------
// The diff of one file

/// `run` was asked `args` and failed.
pub open spec fn ran_err<F: Fn(Vec<String>) -> Result<String, String>>(run: F, args: Seq<Seq<char>>) -> bool {
    exists|e: Seq<char>| #[trigger] ran(run, args, Err(e))
}

/// `ls-files --error-unmatch` fails for a file git does not track.
pub open spec fn tracked_args(path: Seq<char>) -> Seq<Seq<char>> {
    seq!["ls-files"@, "--error-unmatch"@, "--"@, path]
}

pub open spec fn flag_arg(on: bool, a: Seq<char>) -> Seq<Seq<char>> {
    if on {
        seq![a]
    } else {
        seq![]
    }
}

pub open spec fn diff_args(path: Seq<char>, staged: bool, ignore_whitespace: bool, full_context: bool) -> Seq<
    Seq<char>,
> {
    seq!["diff"@] + flag_arg(staged, "--cached"@) + flag_arg(ignore_whitespace, "-w"@) + flag_arg(
        full_context,
        "--unified=100000"@,
    ) + seq!["--"@, path]
}

/// The diff of a tracked file from `git diff` output: the last file parsed
/// (an empty diff when there is none), under the asked path and side.
pub open spec fn tracked_diff_spec(path: Seq<char>, staged: bool, raw: Seq<char>) -> FileDiffV {
    let parsed = parse_unified_diff_spec(patch_cut(raw));
    let untracked = if parsed.len() > 0 {
        parsed.last().untracked
    } else {
        false
    };
    let binary = if parsed.len() > 0 {
        parsed.last().binary
    } else {
        false
    };
    let additions = if parsed.len() > 0 {
        parsed.last().additions
    } else {
        0
    };
    let deletions = if parsed.len() > 0 {
        parsed.last().deletions
    } else {
        0
    };
    let hunks = if parsed.len() > 0 {
        parsed.last().hunks
    } else {
        seq![]
    };
    FileDiffV { path, staged, untracked, binary, truncated: patch_too_long(raw), additions, deletions, hunks }
}

pub open spec fn tracked_outcome<F: Fn(Vec<String>) -> Result<String, String>>(
    run: F,
    path: Seq<char>,
    staged: bool,
    ignore_whitespace: bool,
    full_context: bool,
    r: Result<FileDiff, String>,
) -> bool {
    let args = diff_args(path, staged, ignore_whitespace, full_context);
    match r {
        Ok(f) => exists|raw: Seq<char>| #[trigger] ran(run, args, Ok(raw)) && f@ == tracked_diff_spec(path, staged, raw),
        Err(e) => ran(run, args, Err(e@)),
    }
}

/// The diff of one file: `git diff` for a tracked file (the index against
/// HEAD when `staged`, else the work tree against the index), the whole file
/// as added lines for an untracked one.
pub fn file_diff<F: Fn(Vec<String>) -> Result<String, String>, R: Fn(String) -> Result<(Vec<u8>, bool), String>>(
    run: &F,
    read: &R,
    path: &str,
    staged: bool,
    ignore_whitespace: bool,
    full_context: bool,
) -> (r: Result<FileDiff, String>)
    requires
        callable(*run),
        readable(*read),
    ensures
        (ran_ok(*run, tracked_args(path@)) && tracked_outcome(*run, path@, staged, ignore_whitespace, full_context, r))
            || (ran_err(*run, tracked_args(path@)) && untracked_outcome(*read, path@, r)),
{
    let mut a = Args::new();
    a.lit("ls-files");
    a.lit("--error-unmatch");
    a.lit("--");
    a.lit(path);
    assert(strs(a.v@) =~= tracked_args(path@));
    match call(run, a.v) {
        Ok(o) => {
            assert(ran(*run, tracked_args(path@), Ok(o@)));
        },
        Err(e) => {
            assert(ran(*run, tracked_args(path@), Err(e@)));
            return untracked_file_diff(read, path);
        },
    }
    let mut d = Args::new();
    d.lit("diff");
    if staged {
        d.lit("--cached");
    }
    if ignore_whitespace {
        d.lit("-w");
    }
    if full_context {
        d.lit("--unified=100000");
    }
    d.lit("--");
    d.lit(path);
    let ghost args = diff_args(path@, staged, ignore_whitespace, full_context);
    assert(strs(d.v@) =~= args);
    let raw = match call(run, d.v) {
        Ok(raw) => raw,
        Err(e) => {
            return Err(e);
        },
    };
    let ghost rawv = raw@;
    assert(ran(*run, args, Ok(rawv)));
    let (text, cut) = truncate_patch(raw);
    let mut parsed = parse_unified_diff(text.as_str());
    let ghost pv = parsed@.map_values(|f: FileDiff| f@);
    let f = match parsed.pop() {
        Some(mut f) => {
            assert(pv.last() == f@);
            f.path = owned(path);
            f.staged = staged;
            f.truncated = cut;
            f
        },
        None => {
            let f = FileDiff {
                path: owned(path),
                staged,
                untracked: false,
                binary: false,
                truncated: cut,
                additions: 0,
                deletions: 0,
                hunks: Vec::new(),
            };
            assert(f@.hunks =~= Seq::<HunkV>::empty());
            f
        },
    };
    assert(f@ == tracked_diff_spec(path@, staged, rawv));
    Ok(f)
}

// ---------------------------------------------------------------------------
// History

/// The `git log` record format `parse_log` reads.
pub const LOG_FORMAT: &'static str = "--pretty=format:%H%x1f%h%x1f%P%x1f%an%x1f%ae%x1f%aI%x1f%s%x1f%D%x1e";

/// At most this many commits per page.
pub const MAX_LOG_PAGE: u32 = 200;

pub open spec fn page_size(limit: u32) -> nat {
    if limit < MAX_LOG_PAGE {
        limit as nat
    } else {
        MAX_LOG_PAGE as nat
    }
}

pub open spec fn worktree_args() -> Seq<Seq<char>> {
    seq!["rev-parse"@, "--is-inside-work-tree"@]
}

pub open spec fn head_args() -> Seq<Seq<char>> {
    seq!["rev-parse"@, "--verify"@, "--quiet"@, "HEAD"@]
}

pub open spec fn log_args(limit: u32, skip: u32) -> Seq<Seq<char>> {
    seq![
        "log"@,
        "--date-order"@,
        "--max-count"@,
        decimal(page_size(limit)),
        "--skip"@,
        decimal(skip as nat),
        LOG_FORMAT@,
    ]
}

/// The outcome of a history query run with `args`: the parsed records; or,
/// when it failed inside a work tree whose HEAD does not exist yet, an empty
/// history; or else its error.
pub open spec fn log_outcome<F: Fn(Vec<String>) -> Result<String, String>>(
    run: F,
    args: Seq<Seq<char>>,
    r: Result<Vec<Commit>, String>,
) -> bool {
    match r {
        Ok(cs) => (exists|t: Seq<char>| #[trigger] ran(run, args, Ok(t)) && commits_view(cs@) == parse_log_spec(t))
            || (ran_err(run, args) && ran_ok(run, worktree_args()) && ran_err(run, head_args()) && cs@.len() == 0),
        Err(e) => ran(run, args, Err(e@)) && (ran_err(run, worktree_args()) || (ran_ok(run, worktree_args())
            && ran_ok(run, head_args()))),
    }
}

fn lit_args(a: &[&str]) -> (r: Vec<String>)
    ensures
        strs(r@) == a@.map_values(|x: &str| x@),
{
    let mut v: Vec<String> = Vec::new();
    for i in 0..a.len()
        invariant
            strs(v@) == a@.take(i as int).map_values(|x: &str| x@),
    {
        let ghost before = strs(v@);
        v.push(owned(a[i]));
        assert(strs(v@) =~= before.push(a@[i as int]@));
        assert(a@.take(i + 1).map_values(|x: &str| x@) =~= a@.take(i as int).map_values(|x: &str| x@).push(
            a@[i as int]@,
        ));
    }
    assert(a@.take(a@.len() as int) == a@);
    v
}

fn ok_of<F: Fn(Vec<String>) -> Result<String, String>>(run: &F, args: Vec<String>) -> (r: bool)
    requires
        callable(*run),
    ensures
        r ==> ran_ok(*run, strs(args@)),
        !r ==> ran_err(*run, strs(args@)),
{
    let ghost av = strs(args@);
    match call(run, args) {
        Ok(o) => {
            assert(ran(*run, av, Ok(o@)));
            true
        },
        Err(e) => {
            assert(ran(*run, av, Err(e@)));
            false
        },
    }
}

fn run_log<F: Fn(Vec<String>) -> Result<String, String>>(run: &F, args: Vec<String>) -> (r: Result<
    Vec<Commit>,
    String,
>)
    requires
        callable(*run),
    ensures
        log_outcome(*run, strs(args@), r),
{
    let ghost av = strs(args@);
    match call(run, args) {
        Ok(t) => {
            assert(ran(*run, av, Ok(t@)));
            Ok(parse_log(t.as_str()))
        },
        Err(e) => {
            let ghost ev = e@;
            assert(ran(*run, av, Err(ev)));
            let wt = lit_args(&["rev-parse", "--is-inside-work-tree"]);
            assert(strs(wt@) =~= worktree_args());
            let in_work_tree = ok_of(run, wt);
            let head_exists = if in_work_tree {
                let h = lit_args(&["rev-parse", "--verify", "--quiet", "HEAD"]);
                assert(strs(h@) =~= head_args());
                ok_of(run, h)
            } else {
                false
            };
            log_result(Err(e), in_work_tree, head_exists)
        },
    }
}

/// A page of history, newest first: at most `MAX_LOG_PAGE` commits after
/// skipping `skip`. A repository without commits has an empty history.
pub fn git_log<F: Fn(Vec<String>) -> Result<String, String>>(run: &F, limit: u32, skip: u32) -> (r: Result<
    Vec<Commit>,
    String,
>)
    requires
        callable(*run),
    ensures
        log_outcome(*run, log_args(limit, skip), r),
{
    let lim = if limit < MAX_LOG_PAGE {
        limit
    } else {
        MAX_LOG_PAGE
    };
    let mut a = Args::new();
    a.lit("log");
    a.lit("--date-order");
    a.lit("--max-count");
    a.val(decimal_string(lim as u64));
    a.lit("--skip");
    a.val(decimal_string(skip as u64));
    a.lit(LOG_FORMAT);
    assert(strs(a.v@) =~= log_args(limit, skip));
    run_log(run, a.v)
}

/// A filter value that is given and not blank.
pub open spec fn filter_value(v: Option<Seq<char>>) -> Option<Seq<char>> {
    match v {
        Some(x) => if is_blank(x) {
            None
        } else {
            Some(x)
        },
        None => None,
    }
}

pub open spec fn opt_arg(prefix: Seq<char>, v: Option<Seq<char>>) -> Seq<Seq<char>> {
    match filter_value(v) {
        Some(x) => seq![prefix + x],
        None => seq![],
    }
}

pub open spec fn path_args(path: Option<Seq<char>>) -> Seq<Seq<char>> {
    match path {
        Some(p) => seq!["--"@, p],
        None => seq![],
    }
}

pub open spec fn opt_str(o: Option<&str>) -> Option<Seq<char>> {
    match o {
        Some(s) => Some(s@),
        None => None,
    }
}

pub open spec fn filtered_log_args(
    limit: u32,
    skip: u32,
    query: Option<Seq<char>>,
    author: Option<Seq<char>>,
    path: Option<Seq<char>>,
) -> Seq<Seq<char>> {
    seq![
        "log"@,
        "--date-order"@,
        "-i"@,
        "--max-count"@,
        decimal(page_size(limit)),
        "--skip"@,
        decimal(skip as nat),
    ] + opt_arg("--grep="@, query) + opt_arg("--author="@, author) + seq![LOG_FORMAT@] + path_args(path)
}

/// A blank message or author filter asks git the same as no filter.
pub proof fn lemma_blank_filters_are_none(
    limit: u32,
    skip: u32,
    query: Seq<char>,
    author: Seq<char>,
    path: Option<Seq<char>>,
)
    requires
        is_blank(query),
        is_blank(author),
    ensures
        filtered_log_args(limit, skip, Some(query), Some(author), path) == filtered_log_args(limit, skip, None, None, path),
{
}

fn push_filter(a: &mut Args, prefix: &str, v: Option<&str>)
    ensures
        strs(final(a).v@) == strs(old(a).v@) + opt_arg(prefix@, opt_str(v)),
{
    match v {
        Some(x) => {
            if !blank(&chars_of(x)) {
                let mut c = chars_of(prefix);
                extend_chars(&mut c, &chars_of(x));
                a.val(string_of(&c));
                return;
            }
        },
        None => {},
    }
    assert(strs(a.v@) =~= strs(a.v@) + Seq::<Seq<char>>::empty());
}

/// A page of history filtered by message (`--grep`, case-insensitive), by
/// author and by file. Blank filters are left out; each value is one argument.
pub fn git_log_filtered<F: Fn(Vec<String>) -> Result<String, String>>(
    run: &F,
    limit: u32,
    skip: u32,
    query: Option<&str>,
    author: Option<&str>,
    path: Option<&str>,
) -> (r: Result<Vec<Commit>, String>)
    requires
        callable(*run),
    ensures
        log_outcome(*run, filtered_log_args(limit, skip, opt_str(query), opt_str(author), opt_str(path)), r),
{
    let lim = if limit < MAX_LOG_PAGE {
        limit
    } else {
        MAX_LOG_PAGE
    };
    let mut a = Args::new();
    a.lit("log");
    a.lit("--date-order");
    a.lit("-i");
    a.lit("--max-count");
    a.val(decimal_string(lim as u64));
    a.lit("--skip");
    a.val(decimal_string(skip as u64));
    push_filter(&mut a, "--grep=", query);
    push_filter(&mut a, "--author=", author);
    a.lit(LOG_FORMAT);
    match path {
        Some(p) => {
            a.lit("--");
            a.lit(p);
        },
        None => {},
    }
    assert(strs(a.v@) =~= filtered_log_args(limit, skip, opt_str(query), opt_str(author), opt_str(path)));
    run_log(run, a.v)
}

// ---------------------------------------------------------------------------
// One commit

#[derive(Debug)]
pub struct CommitDetail {
    pub hash: String,
    pub stat: String,
    pub additions: u32,
    pub deletions: u32,
    pub truncated: bool,
    pub files: Vec<FileDiff>,
}

pub struct CommitDetailV {
    pub hash: Seq<char>,
    pub stat: Seq<char>,
    pub additions: int,
    pub deletions: int,
    pub truncated: bool,
    pub files: Seq<FileDiffV>,
}

impl View for CommitDetail {
    type V = CommitDetailV;

    open spec fn view(&self) -> CommitDetailV {
        CommitDetailV {
            hash: self.hash@,
            stat: self.stat@,
            additions: self.additions as int,
            deletions: self.deletions as int,
            truncated: self.truncated,
            files: self.files@.map_values(|f: FileDiff| f@),
        }
    }
}

pub open spec fn stat_args(hash: Seq<char>) -> Seq<Seq<char>> {
    seq!["show"@, "--stat"@, "--format=%H"@, hash, "--"@]
}

pub open spec fn patch_args(hash: Seq<char>) -> Seq<Seq<char>> {
    seq!["show"@, "--format="@, "--patch"@, hash, "--"@]
}

/// A commit's detail from its `--stat` text and its patch (cut at
/// `MAX_PATCH_BYTES`): the files parsed and their totals.
pub open spec fn detail_spec(hash: Seq<char>, stat: Seq<char>, patch: Seq<char>) -> CommitDetailV {
    let files = parse_unified_diff_spec(patch_cut(patch));
    CommitDetailV {
        hash,
        stat,
        additions: adds_sum(files),
        deletions: dels_sum(files),
        truncated: patch_too_long(patch),
        files,
    }
}

pub open spec fn detail_outcome<F: Fn(Vec<String>) -> Result<String, String>>(
    run: F,
    hash: Seq<char>,
    r: Result<CommitDetail, String>,
) -> bool {
    if !valid_hash(hash) {
        r matches Err(e) && e@ == crate::git_write::hash_error(hash)
    } else {
        match r {
            Ok(d) => exists|st: Seq<char>, p: Seq<char>|
                #[trigger] ran(run, stat_args(hash), Ok(st)) && #[trigger] ran(run, patch_args(hash), Ok(p))
                    && d@ == detail_spec(hash, st, p),
            Err(e) => ran(run, stat_args(hash), Err(e@)) || (ran_ok(run, stat_args(hash)) && ran(
                run,
                patch_args(hash),
                Err(e@),
            )),
        }
    }
}

proof fn lemma_adds_prefix(fs: Seq<FileDiffV>, i: int)
    requires
        0 <= i <= fs.len(),
    ensures
        adds_sum(fs.take(i)) <= adds_sum(fs),
        dels_sum(fs.take(i)) <= dels_sum(fs),
        adds_sum(fs.take(i)) >= 0,
        dels_sum(fs.take(i)) >= 0,
    decreases fs.len(),
{
    if i < fs.len() {
        assert(fs.drop_last().take(i) == fs.take(i));
        lemma_adds_prefix(fs.drop_last(), i);
    } else {
        assert(fs.take(i) == fs);
        lemma_sums_nonneg(fs);
    }
}

proof fn lemma_sums_nonneg(fs: Seq<FileDiffV>)
    ensures
        adds_sum(fs) >= 0,
        dels_sum(fs) >= 0,
    decreases fs.len(),
{
    if fs.len() > 0 {
        lemma_sums_nonneg(fs.drop_last());
    }
}

/// A commit's `--stat` summary and its files with their line changes.
pub fn commit_detail<F: Fn(Vec<String>) -> Result<String, String>>(run: &F, hash: &str) -> (r: Result<
    CommitDetail,
    String,
>)
    requires
        callable(*run),
    ensures
        detail_outcome(*run, hash@, r),
{
    validate_hash(hash)?;
    let mut a = Args::new();
    a.lit("show");
    a.lit("--stat");
    a.lit("--format=%H");
    a.lit(hash);
    a.lit("--");
    assert(strs(a.v@) =~= stat_args(hash@));
    let stat = call(run, a.v)?;
    let ghost sv = stat@;
    assert(ran(*run, stat_args(hash@), Ok(sv)));
    let mut b = Args::new();
    b.lit("show");
    b.lit("--format=");
    b.lit("--patch");
    b.lit(hash);
    b.lit("--");
    assert(strs(b.v@) =~= patch_args(hash@));
    let raw = call(run, b.v)?;
    let ghost pv = raw@;
    assert(ran(*run, patch_args(hash@), Ok(pv)));
    let (text, truncated) = truncate_patch(raw);
    let files = parse_unified_diff(text.as_str());
    let ghost fv = files@.map_values(|f: FileDiff| f@);
    proof {
        lemma_split_len_le(text@, '\n');
        crate::text::lemma_split_nonempty(text@, '\n');
        lemma_chars_le_bytes(text@);
        assert(lines(text@).len() == crate::text::lines_count(text@));
        assert(lines(text@).len() <= 262145);
        lemma_changes_within_lines(text@);
    }
    let mut additions: u32 = 0;
    let mut deletions: u32 = 0;
    for i in 0..files.len()
        invariant
            fv == files@.map_values(|f: FileDiff| f@),
            adds_sum(fv) + dels_sum(fv) <= 262145,
            additions == adds_sum(fv.take(i as int)),
            deletions == dels_sum(fv.take(i as int)),
    {
        proof {
            assert(fv.take(i + 1).drop_last() == fv.take(i as int));
            lemma_adds_prefix(fv, i + 1);
        }
        additions = additions + files[i].additions;
        deletions = deletions + files[i].deletions;
    }
    assert(fv.take(files.len() as int) == fv);
    Ok(CommitDetail { hash: owned(hash), stat, additions, deletions, truncated, files })
}

// ---------------------------------------------------------------------------
// Branches

pub open spec fn local_refs_args() -> Seq<Seq<char>> {
    seq!["for-each-ref"@, "refs/heads"@, "--format=%(refname:short)\u{1f}%(upstream:short)\u{1f}%(upstream:track)"@]
}

pub open spec fn current_args() -> Seq<Seq<char>> {
    seq!["symbolic-ref"@, "--short"@, "HEAD"@]
}

pub open spec fn remote_refs_args() -> Seq<Seq<char>> {
    seq!["for-each-ref"@, "refs/remotes"@, "--format=%(refname:short)\u{1f}%(symref)"@]
}

/// What asking for the current branch gave: its name, or a failure (a
/// detached HEAD).
pub open spec fn current_answer<F: Fn(Vec<String>) -> Result<String, String>>(run: F, cur: Option<Seq<char>>) -> bool {
    match cur {
        Some(c) => ran(run, current_args(), Ok(c)),
        None => ran_err(run, current_args()),
    }
}

/// The branch list: local branches (the current one marked, sorted), then
/// the remote ones when listing them succeeded.
pub open spec fn branches_outcome<F: Fn(Vec<String>) -> Result<String, String>>(
    run: F,
    r: Result<Vec<BranchInfo>, String>,
) -> bool {
    match r {
        Err(e) => ran(run, local_refs_args(), Err(e@)),
        Ok(bs) => exists|l: Seq<char>, cur: Option<Seq<char>>|
            #![trigger ran(run, local_refs_args(), Ok(l)), current_answer(run, cur)]
            ran(run, local_refs_args(), Ok(l)) && current_answer(run, cur) && {
                let locals = parse_branches_spec(
                    l,
                    match cur {
                        Some(c) => Some(trim(c)),
                        None => None,
                    },
                );
                (exists|rt: Seq<char>| #[trigger] ran(run, remote_refs_args(), Ok(rt)) && branches_view(bs@)
                    == locals + remote_fold(ref_lines(rt))) || (ran_err(run, remote_refs_args())
                    && branches_view(bs@) == locals)
            },
    }
}

pub fn branches<F: Fn(Vec<String>) -> Result<String, String>>(run: &F) -> (r: Result<Vec<BranchInfo>, String>)
    requires
        callable(*run),
    ensures
        branches_outcome(*run, r),
{
    let la = lit_args(&["for-each-ref", "refs/heads", "--format=%(refname:short)\u{1f}%(upstream:short)\u{1f}%(upstream:track)"]);
    assert(strs(la@) =~= local_refs_args());
    let locals = call(run, la)?;
    let ghost lv = locals@;
    assert(ran(*run, local_refs_args(), Ok(lv)));
    let ca = lit_args(&["symbolic-ref", "--short", "HEAD"]);
    assert(strs(ca@) =~= current_args());
    let current = match call(run, ca) {
        Ok(c) => {
            assert(ran(*run, current_args(), Ok(c@)));
            Some(c)
        },
        Err(e) => {
            assert(ran(*run, current_args(), Err(e@)));
            None
        },
    };
    let ghost curv = match &current {
        Some(c) => Some(c@),
        None => None::<Seq<char>>,
    };
    let cur_t: Option<String> = match &current {
        Some(c) => Some(string_of(&trimmed(&chars_of(c.as_str())))),
        None => None,
    };
    let cur_ref: Option<&str> = match &cur_t {
        Some(c) => Some(c.as_str()),
        None => None,
    };
    let mut out = parse_branches(locals.as_str(), cur_ref);
    let ghost localsv = branches_view(out@);
    let ra = lit_args(&["for-each-ref", "refs/remotes", "--format=%(refname:short)\u{1f}%(symref)"]);
    assert(strs(ra@) =~= remote_refs_args());
    match call(run, ra) {
        Ok(rt) => {
            assert(ran(*run, remote_refs_args(), Ok(rt@)));
            let mut rs = parse_remote_branches(rt.as_str());
            let ghost rsv = branches_view(rs@);
            out.append(&mut rs);
            assert(branches_view(out@) =~= localsv + rsv);
        },
        Err(e) => {
            assert(ran(*run, remote_refs_args(), Err(e@)));
        },
    }
    assert(ran(*run, local_refs_args(), Ok(lv)) && current_answer(*run, curv));
    Ok(out)
}

// ---------------------------------------------------------------------------
// Repository status

/// `probe` may be asked about any path.
pub open spec fn probe_ready<D: Fn(String) -> bool>(probe: D) -> bool {
    forall|x: String| probe.requires((x,))
}

fn ask_path<D: Fn(String) -> bool>(probe: &D, p: Vec<char>) -> (r: bool)
    requires
        probe_ready(*probe),
    ensures
        answered(*probe, p@, r),
{
    let s = string_of(&p);
    let ghost sv = s;
    let r = probe(s);
    assert(probe.ensures((sv,), r));
    r
}

/// The operation in progress, from the marker files of a git directory.
pub open spec fn operation_outcome<D: Fn(String) -> bool, E: Fn(String) -> bool>(
    is_dir: D,
    is_file: E,
    git_dir: Seq<char>,
    r: Option<Seq<char>>,
) -> bool {
    let rm = join_raw(git_dir, "rebase-merge"@);
    let ra = join_raw(git_dir, "rebase-apply"@);
    let mh = join_raw(git_dir, "MERGE_HEAD"@);
    let cp = join_raw(git_dir, "CHERRY_PICK_HEAD"@);
    let no_rebase = answered(is_dir, rm, false) && answered(is_dir, ra, false);
    match r {
        Some(op) => (op == "rebase"@ && (answered(is_dir, rm, true) || (answered(is_dir, rm, false) && answered(
            is_dir,
            ra,
            true,
        )))) || (op == "merge"@ && no_rebase && answered(is_file, mh, true)) || (op == "cherry-pick"@ && no_rebase
            && answered(is_file, mh, false) && answered(is_file, cp, true)),
        None => no_rebase && answered(is_file, mh, false) && answered(is_file, cp, false),
    }
}

pub open spec fn opt_seq(o: Option<String>) -> Option<Seq<char>> {
    match o {
        Some(s) => Some(s@),
        None => None,
    }
}

/// The operation in progress in a git directory: a rebase, a merge or a
/// cherry-pick, by their marker files.
pub fn operation_from_git_dir<D: Fn(String) -> bool, E: Fn(String) -> bool>(
    is_dir: &D,
    is_file: &E,
    git_dir: &str,
) -> (r: Option<String>)
    requires
        probe_ready(*is_dir),
        probe_ready(*is_file),
    ensures
        operation_outcome(*is_dir, *is_file, git_dir@, opt_seq(r)),
{
    let g = chars_of(git_dir);
    if ask_path(is_dir, join_raw_chars(&g, &chars_of("rebase-merge"))) {
        return Some(owned("rebase"));
    }
    if ask_path(is_dir, join_raw_chars(&g, &chars_of("rebase-apply"))) {
        return Some(owned("rebase"));
    }
    if ask_path(is_file, join_raw_chars(&g, &chars_of("MERGE_HEAD"))) {
        return Some(owned("merge"));
    }
    if ask_path(is_file, join_raw_chars(&g, &chars_of("CHERRY_PICK_HEAD"))) {
        return Some(owned("cherry-pick"));
    }
    None
}

pub open spec fn git_dir_args() -> Seq<Seq<char>> {
    seq!["rev-parse"@, "--git-dir"@]
}

/// The git directory named by `rev-parse --git-dir`, relative to `dir` unless
/// absolute.
pub open spec fn git_dir_of(dir: Seq<char>, answer: Seq<char>) -> Seq<char> {
    let p = trim(answer);
    if is_absolute_path(p) {
        p
    } else {
        join_raw(dir, p)
    }
}

pub open spec fn in_progress_outcome<F: Fn(Vec<String>) -> Result<String, String>, D: Fn(String) -> bool, E: Fn(
    String,
) -> bool>(run: F, is_dir: D, is_file: E, dir: Seq<char>, r: Option<Seq<char>>) -> bool {
    (ran_err(run, git_dir_args()) && r is None) || exists|g: Seq<char>|
        #[trigger] ran(run, git_dir_args(), Ok(g)) && operation_outcome(is_dir, is_file, git_dir_of(dir, g), r)
}

/// The operation in progress in the repository at `dir` (also from a linked
/// work tree or a subdirectory, through `rev-parse --git-dir`).
pub fn in_progress<F: Fn(Vec<String>) -> Result<String, String>, D: Fn(String) -> bool, E: Fn(String) -> bool>(
    run: &F,
    is_dir: &D,
    is_file: &E,
    dir: &str,
) -> (r: Option<String>)
    requires
        callable(*run),
        probe_ready(*is_dir),
        probe_ready(*is_file),
    ensures
        in_progress_outcome(*run, *is_dir, *is_file, dir@, opt_seq(r)),
{
    let a = lit_args(&["rev-parse", "--git-dir"]);
    assert(strs(a@) =~= git_dir_args());
    let g = match call(run, a) {
        Ok(g) => g,
        Err(e) => {
            assert(ran(*run, git_dir_args(), Err(e@)));
            return None;
        },
    };
    let ghost gv = g@;
    assert(ran(*run, git_dir_args(), Ok(gv)));
    let p = trimmed(&chars_of(g.as_str()));
    let abs = if is_absolute_chars(&p) {
        p
    } else {
        join_raw_chars(&chars_of(dir), &p)
    };
    let s = string_of(&abs);
    operation_from_git_dir(is_dir, is_file, s.as_str())
}

/// Every text `run_capped` answers holds at most `MAX_OUTPUT_BYTES` chars:
/// the output cap cuts it there before decoding.
pub open spec fn capped_output<C: Fn(Vec<String>) -> Result<(String, bool), String>>(run: C) -> bool {
    forall|a: Vec<String>, o: Result<(String, bool), String>|
        #[trigger] run.ensures((a,), o) ==> (o is Ok ==> o->Ok_0.0@.len() <= MAX_OUTPUT_BYTES)
}

pub open spec fn capped_view(o: Result<(String, bool), String>) -> Result<(Seq<char>, bool), Seq<char>> {
    match o {
        Ok((t, c)) => Ok((t@, c)),
        Err(e) => Err(e@),
    }
}

/// `run_capped` was asked `args` and answered `out` (text, and whether the
/// output hit the cap).
pub open spec fn ran_capped<C: Fn(Vec<String>) -> Result<(String, bool), String>>(
    run: C,
    args: Seq<Seq<char>>,
    out: Result<(Seq<char>, bool), Seq<char>>,
) -> bool {
    exists|a: Vec<String>, o: Result<(String, bool), String>|
        #[trigger] run.ensures((a,), o) && strs(a@) == args && capped_view(o) == out
}

pub open spec fn status_args() -> Seq<Seq<char>> {
    seq!["--no-optional-locks"@, "status"@, "--porcelain=v2"@, "--branch"@]
}

pub open spec fn missing_dir_msg(dir: Seq<char>) -> Seq<char> {
    "目录不存在："@ + dir
}

pub open spec fn no_git_msg() -> Seq<char> {
    "未找到 git.exe；请在「设置 → Git 可执行文件」指定路径，或安装 Git for Windows"@
}

pub open spec fn errored_view(project_id: Seq<char>, msg: Seq<char>) -> RepoStatusV {
    RepoStatusV { error: Some(msg), ..not_repo_view(project_id) }
}

/// The status badge of a project directory: an error when the directory or
/// git is missing (never "not a repository" for those), "not a repository"
/// when git says so, else the parsed status with the cap flag and the
/// operation in progress.
pub open spec fn status_outcome<
    F: Fn(Vec<String>) -> Result<String, String>,
    C: Fn(Vec<String>) -> Result<(String, bool), String>,
    D: Fn(String) -> bool,
    E: Fn(String) -> bool,
>(
    project_id: Seq<char>,
    dir: Seq<char>,
    git_found: bool,
    run: F,
    run_capped: C,
    is_dir: D,
    is_file: E,
    r: RepoStatusV,
) -> bool {
    ||| answered(is_dir, dir, false) && r == errored_view(project_id, missing_dir_msg(dir))
    ||| answered(is_dir, dir, true) && !git_found && r == errored_view(project_id, no_git_msg())
    ||| answered(is_dir, dir, true) && git_found && ran_err(run, worktree_args()) && r == not_repo_view(project_id)
    ||| answered(is_dir, dir, true) && git_found && ran_ok(run, worktree_args()) && exists|e: Seq<char>|
        #[trigger] ran_capped(run_capped, status_args(), Err(e)) && r == errored_view(project_id, e)
    ||| answered(is_dir, dir, true) && git_found && ran_ok(run, worktree_args()) && exists|
        t: Seq<char>,
        capped: bool,
        op: Option<Seq<char>>,
    |
        #![trigger ran_capped(run_capped, status_args(), Ok((t, capped))), in_progress_outcome(run, is_dir, is_file, dir, op)]
        ran_capped(run_capped, status_args(), Ok((t, capped))) && in_progress_outcome(run, is_dir, is_file, dir, op)
            && r == RepoStatusV { truncated: capped, operation: op, ..parse_status_spec(project_id, t) }
}

/// A status always names its project, and a status with an error is no
/// repository and lists no file and no change.
pub proof fn lemma_status_error_is_empty<
    F: Fn(Vec<String>) -> Result<String, String>,
    C: Fn(Vec<String>) -> Result<(String, bool), String>,
    D: Fn(String) -> bool,
    E: Fn(String) -> bool,
>(
    project_id: Seq<char>,
    dir: Seq<char>,
    git_found: bool,
    run: F,
    run_capped: C,
    is_dir: D,
    is_file: E,
    r: RepoStatusV,
)
    requires
        status_outcome(project_id, dir, git_found, run, run_capped, is_dir, is_file, r),
    ensures
        r.project_id == project_id,
        r.error is Some ==> !r.is_repo && r.files.len() == 0 && r.staged + r.unstaged + r.untracked + r.conflicts == 0,
{
    if exists|t: Seq<char>, capped: bool, op: Option<Seq<char>>|
        #![trigger ran_capped(run_capped, status_args(), Ok((t, capped))), in_progress_outcome(run, is_dir, is_file, dir, op)]
        ran_capped(run_capped, status_args(), Ok((t, capped))) && in_progress_outcome(run, is_dir, is_file, dir, op) && r
            == (RepoStatusV { truncated: capped, operation: op, ..parse_status_spec(project_id, t) }) {
        let (t, capped, op) = choose|t: Seq<char>, capped: bool, op: Option<Seq<char>>|
            #![trigger ran_capped(run_capped, status_args(), Ok((t, capped))), in_progress_outcome(run, is_dir, is_file, dir, op)]
            ran_capped(run_capped, status_args(), Ok((t, capped))) && in_progress_outcome(run, is_dir, is_file, dir, op) && r
                == (RepoStatusV { truncated: capped, operation: op, ..parse_status_spec(project_id, t) });
        crate::git::lemma_status_shape(project_id, t);
    }
}

/// The status of the project directory `dir`. `git_found` says whether a git
/// executable was found; `run_capped` runs git with the output cap.
pub fn repo_status_with<
    F: Fn(Vec<String>) -> Result<String, String>,
    C: Fn(Vec<String>) -> Result<(String, bool), String>,
    D: Fn(String) -> bool,
    E: Fn(String) -> bool,
>(
    project_id: &str,
    dir: &str,
    git_found: bool,
    run: &F,
    run_capped: &C,
    is_dir: &D,
    is_file: &E,
) -> (r: RepoStatus)
    requires
        callable(*run),
        forall|a: Vec<String>| run_capped.requires((a,)),
        capped_output(*run_capped),
        probe_ready(*is_dir),
        probe_ready(*is_file),
    ensures
        status_outcome(project_id@, dir@, git_found, *run, *run_capped, *is_dir, *is_file, r@),
{
    if !ask_path(is_dir, chars_of(dir)) {
        let mut m = chars_of("目录不存在：");
        extend_chars(&mut m, &chars_of(dir));
        return RepoStatus::errored(project_id, string_of(&m));
    }
    if !git_found {
        return RepoStatus::errored(
            project_id,
            owned("未找到 git.exe；请在「设置 → Git 可执行文件」指定路径，或安装 Git for Windows"),
        );
    }
    let wt = lit_args(&["rev-parse", "--is-inside-work-tree"]);
    assert(strs(wt@) =~= worktree_args());
    if !ok_of(run, wt) {
        return RepoStatus::not_repo(project_id);
    }
    let sa = lit_args(&["--no-optional-locks", "status", "--porcelain=v2", "--branch"]);
    assert(strs(sa@) =~= status_args());
    let ghost sav = sa;
    let got = run_capped(sa);
    assert(run_capped.ensures((sav,), got));
    match got {
        Ok((text, capped)) => {
            let ghost tv = text@;
            assert(ran_capped(*run_capped, status_args(), Ok((tv, capped))));
            proof {
                lemma_split_len_le(text@, '\n');
                crate::text::lemma_split_nonempty(text@, '\n');
                assert(lines(text@).len() == crate::text::lines_count(text@));
            }
            let mut st = parse_status(project_id, text.as_str());
            st.truncated = capped;
            let op = in_progress(run, is_dir, is_file, dir);
            let ghost opv = opt_seq(op);
            st.operation = op;
            assert(in_progress_outcome(*run, *is_dir, *is_file, dir@, opv));
            st
        },
        Err(e) => {
            assert(ran_capped(*run_capped, status_args(), Err(e@)));
            RepoStatus::errored(project_id, e)
        },
    }
}

} // verus!
