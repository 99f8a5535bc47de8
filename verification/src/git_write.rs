//! Changing a repository: what to check, which git command to run, and what
//! its answer means. The process itself is started by the function passed in.

use vstd::prelude::*;
use crate::config::strs;
use crate::git::{valid_hash, validate_hash};
use crate::runner::{
    ask, call, call_with_input, callable, callable_with_input, probe_callable, probed, ran,
    ran_ok, ran_with_input, str_result, Args,
};
use crate::text::{
    chars_of, contains_seq, ends_with, extend_chars, has_char, has_prefix, has_seq, has_suffix,
    is_ctrl, is_control, is_whitespace, is_ws, owned, starts_with, string_of, trim, trimmed,
};

verus! {

pub open spec fn unit_view(r: Result<(), String>) -> Result<(), Seq<char>> {
    match r {
        Ok(()) => Ok(()),
        Err(e) => Err(e@),
    }
}

/// The first problem with the paths, in order.
pub open spec fn paths_problem(ps: Seq<Seq<char>>) -> Option<Seq<char>>
    decreases ps.len(),
{
    if ps.len() == 0 {
        None
    } else {
        match paths_problem(ps.drop_last()) {
            Some(e) => Some(e),
            None => {
                let t = trim(ps.last());
                if t.len() == 0 {
                    Some("文件路径为空"@)
                } else if t.contains('\0') {
                    Some("非法路径："@ + t)
                } else {
                    None
                }
            },
        }
    }
}

pub open spec fn validate_paths_spec(ps: Seq<Seq<char>>) -> Result<(), Seq<char>> {
    if ps.len() == 0 {
        Err("没有选择文件"@)
    } else {
        match paths_problem(ps) {
            Some(e) => Err(e),
            None => Ok(()),
        }
    }
}

proof fn lemma_paths_problem_prefix(ps: Seq<Seq<char>>, j: int)
    requires
        0 <= j <= ps.len(),
        paths_problem(ps.take(j)) is Some,
    ensures
        paths_problem(ps) == paths_problem(ps.take(j)),
    decreases ps.len() - j,
{
    if j < ps.len() {
        assert(ps.drop_last().take(j) == ps.take(j));
        lemma_paths_problem_prefix(ps.drop_last(), j);
    } else {
        assert(ps.take(j) == ps);
    }
}

/// Refuses an empty selection, a blank path and a path holding NUL.
pub fn validate_paths(paths: &Vec<String>) -> (r: Result<(), String>)
    ensures
        unit_view(r) == validate_paths_spec(strs(paths@)),
{
    if paths.len() == 0 {
        return Err(owned("没有选择文件"));
    }
    let ghost pv = strs(paths@);
    let n = paths.len();
    for i in 0..n
        invariant
            n == paths@.len(),
            n > 0,
            pv == strs(paths@),
            paths_problem(pv.take(i as int)) is None,
    {
        assert(pv.take(i + 1).drop_last() == pv.take(i as int));
        assert(pv.take(i + 1).last() == paths@[i as int]@);
        let t = trimmed(&chars_of(paths[i].as_str()));
        if t.len() == 0 {
            proof {
                lemma_paths_problem_prefix(pv, i + 1);
            }
            return Err(owned("文件路径为空"));
        }
        if has_char(&t, '\0') {
            proof {
                lemma_paths_problem_prefix(pv, i + 1);
            }
            let mut m = chars_of("非法路径：");
            extend_chars(&mut m, &t);
            return Err(string_of(&m));
        }
    }
    assert(pv.take(n as int) == pv);
    Ok(())
}

/// Outcome of one git run whose output is not used.
pub open spec fn plain_outcome<F: Fn(Vec<String>) -> Result<String, String>>(
    run: F,
    args: Seq<Seq<char>>,
    r: Result<(), String>,
) -> bool {
    match r {
        Ok(()) => ran_ok(run, args),
        Err(e) => ran(run, args, Err(e@)),
    }
}

fn run_plain<F: Fn(Vec<String>) -> Result<String, String>>(run: &F, args: Vec<String>) -> (r: Result<(), String>)
    requires
        callable(*run),
    ensures
        plain_outcome(*run, strs(args@), r),
{
    let ghost av = strs(args@);
    match call(run, args) {
        Ok(o) => {
            assert(ran(*run, av, Ok(o@)));
            Ok(())
        },
        Err(e) => Err(e),
    }
}

/// `head` followed by the paths.
fn with_paths(head: Args, paths: &Vec<String>) -> (r: Vec<String>)
    ensures
        strs(r@) == strs(head.v@) + strs(paths@),
{
    let mut v = head.v;
    let ghost h = strs(v@);
    for i in 0..paths.len()
        invariant
            strs(v@) == h + strs(paths@).take(i as int),
    {
        let ghost ov = strs(v@);
        let s = crate::config::copy_string(&paths[i]);
        let ghost sv = s@;
        v.push(s);
        assert(strs(v@) =~= ov.push(sv));
        assert(strs(paths@).take(i + 1) =~= strs(paths@).take(i as int).push(paths@[i as int]@));
    }
    assert(strs(paths@).take(paths@.len() as int) == strs(paths@));
    v
}

pub open spec fn stage_args(ps: Seq<Seq<char>>) -> Seq<Seq<char>> {
    seq!["add"@, "--"@] + ps
}

/// Stages the paths (`git add -- <paths>`).
pub fn stage<F: Fn(Vec<String>) -> Result<String, String>>(run: &F, paths: &Vec<String>) -> (r: Result<(), String>)
    requires
        callable(*run),
    ensures
        match validate_paths_spec(strs(paths@)) {
            Err(e) => unit_view(r) == Err::<(), Seq<char>>(e),
            Ok(()) => plain_outcome(*run, stage_args(strs(paths@)), r),
        },
{
    validate_paths(paths)?;
    let mut a = Args::new();
    a.lit("add");
    a.lit("--");
    let args = with_paths(a, paths);
    assert(strs(args@) =~= stage_args(strs(paths@)));
    run_plain(run, args)
}

pub open spec fn unstage_args(ps: Seq<Seq<char>>) -> Seq<Seq<char>> {
    seq!["restore"@, "--staged"@, "--"@] + ps
}

/// Takes the paths out of the index (`git restore --staged -- <paths>`).
pub fn unstage<F: Fn(Vec<String>) -> Result<String, String>>(run: &F, paths: &Vec<String>) -> (r: Result<(), String>)
    requires
        callable(*run),
    ensures
        match validate_paths_spec(strs(paths@)) {
            Err(e) => unit_view(r) == Err::<(), Seq<char>>(e),
            Ok(()) => plain_outcome(*run, unstage_args(strs(paths@)), r),
        },
{
    validate_paths(paths)?;
    let mut a = Args::new();
    a.lit("restore");
    a.lit("--staged");
    a.lit("--");
    let args = with_paths(a, paths);
    assert(strs(args@) =~= unstage_args(strs(paths@)));
    run_plain(run, args)
}

pub open spec fn tracked_args(p: Seq<char>) -> Seq<Seq<char>> {
    seq!["ls-files"@, "--error-unmatch"@, "--"@, trim(p)]
}

pub open spec fn restore_args(ps: Seq<Seq<char>>) -> Seq<Seq<char>> {
    seq!["restore"@, "--"@] + ps
}

/// Throws away the working-tree changes of tracked paths (`git restore`);
/// refuses as soon as one path is not tracked.
pub fn discard<F: Fn(Vec<String>) -> Result<String, String>>(run: &F, paths: &Vec<String>) -> (r: Result<(), String>)
    requires
        callable(*run),
    ensures
        match validate_paths_spec(strs(paths@)) {
            Err(e) => unit_view(r) == Err::<(), Seq<char>>(e),
            Ok(()) => match r {
                Ok(()) => (forall|i: int| 0 <= i < paths@.len() ==> ran_ok(*run, #[trigger] tracked_args(paths@[i]@)))
                    && ran_ok(*run, restore_args(strs(paths@))),
                Err(e) => (exists|i: int, o: Seq<char>|
                    0 <= i < paths@.len() && #[trigger] ran(*run, tracked_args(paths@[i]@), Err(o)) && e@
                        == "未跟踪文件不会被丢弃："@ + paths@[i]@) || ran(*run, restore_args(strs(paths@)), Err(e@)),
            },
        },
{
    validate_paths(paths)?;
    let n = paths.len();
    for i in 0..n
        invariant
            n == paths@.len(),
            callable(*run),
            validate_paths_spec(strs(paths@)) == Ok::<(), Seq<char>>(()),
            forall|k: int| 0 <= k < i ==> ran_ok(*run, #[trigger] tracked_args(paths@[k]@)),
    {
        let mut a = Args::new();
        a.lit("ls-files");
        a.lit("--error-unmatch");
        a.lit("--");
        let t = trimmed(&chars_of(paths[i].as_str()));
        a.val(string_of(&t));
        assert(strs(a.v@) =~= tracked_args(paths@[i as int]@));
        match call(run, a.v) {
            Ok(o) => {
                assert(ran(*run, tracked_args(paths@[i as int]@), Ok(o@)));
            },
            Err(o) => {
                let mut m = chars_of("未跟踪文件不会被丢弃：");
                extend_chars(&mut m, &chars_of(paths[i].as_str()));
                let e = string_of(&m);
                assert(ran(*run, tracked_args(paths@[i as int]@), Err(o@)));
                return Err(e);
            },
        }
    }
    let mut a = Args::new();
    a.lit("restore");
    a.lit("--");
    let args = with_paths(a, paths);
    assert(strs(args@) =~= restore_args(strs(paths@)));
    run_plain(run, args)
}

pub open spec fn commit_args(amend: bool) -> Seq<Seq<char>> {
    if amend {
        seq!["commit"@, "--amend"@, "-F"@, "-"@]
    } else {
        seq!["commit"@, "-F"@, "-"@]
    }
}

pub open spec fn head_args() -> Seq<Seq<char>> {
    seq!["rev-parse"@, "HEAD"@]
}

/// Commits with the trimmed message on git's standard input (amending the last
/// commit when asked) and gives the new commit's hash.
pub fn commit<F: Fn(Vec<String>) -> Result<String, String>, G: Fn(Vec<String>, String) -> Result<String, String>>(
    run: &F,
    run_input: &G,
    message: &str,
    amend: bool,
) -> (r: Result<String, String>)
    requires
        callable(*run),
        callable_with_input(*run_input),
    ensures
        trim(message@).len() == 0 && !amend ==> (r matches Err(e) && e@ == "提交信息不能为空"@),
        !(trim(message@).len() == 0 && !amend) ==> match r {
            Ok(h) => (exists|o: Seq<char>| #[trigger] ran_with_input(*run_input, commit_args(amend), trim(message@), Ok(o)))
                && exists|o: Seq<char>| #[trigger] ran(*run, head_args(), Ok(o)) && h@ == trim(o),
            Err(e) => ran_with_input(*run_input, commit_args(amend), trim(message@), Err(e@)) || ((exists|o: Seq<char>|
                #[trigger] ran_with_input(*run_input, commit_args(amend), trim(message@), Ok(o))) && ran(*run, head_args(), Err(e@))),
        },
{
    let msg = trimmed(&chars_of(message));
    if msg.len() == 0 && !amend {
        return Err(owned("提交信息不能为空"));
    }
    let mut a = Args::new();
    a.lit("commit");
    if amend {
        a.lit("--amend");
    }
    a.lit("-F");
    a.lit("-");
    assert(strs(a.v@) =~= commit_args(amend));
    match call_with_input(run_input, a.v, string_of(&msg)) {
        Err(e) => Err(e),
        Ok(o) => {
            assert(ran_with_input(*run_input, commit_args(amend), trim(message@), Ok(o@)));
            let mut b = Args::new();
            b.lit("rev-parse");
            b.lit("HEAD");
            assert(strs(b.v@) =~= head_args());
            match call(run, b.v) {
                Err(e) => Err(e),
                Ok(h) => {
                    assert(ran(*run, head_args(), Ok(h@)));
                    Ok(string_of(&trimmed(&chars_of(h.as_str()))))
                },
            }
        },
    }
}

/// A character that may not appear in a branch name.
pub open spec fn ref_bad_char(c: char) -> bool {
    is_ws(c) || is_ctrl(c) || c == '~' || c == '^' || c == ':' || c == '?' || c == '*' || c == '['
        || c == '\\'
}

/// The core rules of `git check-ref-format`, which also keep a name from being
/// read as an option.
pub open spec fn ref_name_bad(n: Seq<char>) -> bool {
    starts_with(n, "-"@) || starts_with(n, "."@) || ends_with(n, "."@) || ends_with(n, ".lock"@)
        || contains_seq(n, ".."@) || contains_seq(n, "@{"@) || exists|i: int|
        0 <= i < n.len() && ref_bad_char(#[trigger] n[i])
}

pub open spec fn validate_ref_spec(name: Seq<char>) -> Result<(), Seq<char>> {
    let n = trim(name);
    if n.len() == 0 {
        Err("分支名为空"@)
    } else if ref_name_bad(n) {
        Err("非法分支名："@ + n)
    } else {
        Ok(())
    }
}

pub fn validate_ref_name(name: &str) -> (r: Result<(), String>)
    ensures
        unit_view(r) == validate_ref_spec(name@),
{
    let n = trimmed(&chars_of(name));
    if n.len() == 0 {
        return Err(owned("分支名为空"));
    }
    let mut bad = has_prefix(&n, &chars_of("-")) || has_prefix(&n, &chars_of(".")) || has_suffix(
        &n,
        &chars_of("."),
    ) || has_suffix(&n, &chars_of(".lock")) || has_seq(&n, &chars_of("..")) || has_seq(
        &n,
        &chars_of("@{"),
    );
    let k = n.len();
    for i in 0..k
        invariant
            k == n@.len(),
            bad == ((starts_with(n@, "-"@) || starts_with(n@, "."@) || ends_with(n@, "."@) || ends_with(
                n@,
                ".lock"@,
            ) || contains_seq(n@, ".."@) || contains_seq(n@, "@{"@)) || exists|j: int|
                0 <= j < i && ref_bad_char(#[trigger] n@[j])),
    {
        let c = n[i];
        if is_whitespace(c) || is_control(c) || c == '~' || c == '^' || c == ':' || c == '?' || c == '*'
            || c == '[' || c == '\\' {
            assert(ref_bad_char(n@[i as int]));
            bad = true;
        }
    }
    if bad {
        let mut m = chars_of("非法分支名：");
        extend_chars(&mut m, &n);
        Err(string_of(&m))
    } else {
        Ok(())
    }
}

/// The trimmed name as an argument.
fn trimmed_arg(s: &str) -> (r: String)
    ensures
        r@ == trim(s@),
{
    string_of(&trimmed(&chars_of(s)))
}

pub open spec fn switch_args(name: Seq<char>) -> Seq<Seq<char>> {
    seq!["switch"@, trim(name)]
}

pub fn switch_branch<F: Fn(Vec<String>) -> Result<String, String>>(run: &F, name: &str) -> (r: Result<(), String>)
    requires
        callable(*run),
    ensures
        match validate_ref_spec(name@) {
            Err(e) => unit_view(r) == Err::<(), Seq<char>>(e),
            Ok(()) => plain_outcome(*run, switch_args(name@), r),
        },
{
    validate_ref_name(name)?;
    let mut a = Args::new();
    a.lit("switch");
    a.val(trimmed_arg(name));
    assert(strs(a.v@) =~= switch_args(name@));
    run_plain(run, a.v)
}

pub open spec fn create_branch_args(name: Seq<char>, checkout: bool) -> Seq<Seq<char>> {
    if checkout {
        seq!["switch"@, "-c"@, trim(name)]
    } else {
        seq!["branch"@, trim(name)]
    }
}

/// Creates a branch, switching to it when `checkout`.
pub fn create_branch<F: Fn(Vec<String>) -> Result<String, String>>(run: &F, name: &str, checkout: bool) -> (r: Result<
    (),
    String,
>)
    requires
        callable(*run),
    ensures
        match validate_ref_spec(name@) {
            Err(e) => unit_view(r) == Err::<(), Seq<char>>(e),
            Ok(()) => plain_outcome(*run, create_branch_args(name@, checkout), r),
        },
{
    validate_ref_name(name)?;
    let mut a = Args::new();
    if checkout {
        a.lit("switch");
        a.lit("-c");
    } else {
        a.lit("branch");
    }
    a.val(trimmed_arg(name));
    assert(strs(a.v@) =~= create_branch_args(name@, checkout));
    run_plain(run, a.v)
}

pub open spec fn delete_branch_args(name: Seq<char>, force: bool) -> Seq<Seq<char>> {
    seq!["branch"@, if force { "-D"@ } else { "-d"@ }, trim(name)]
}

pub fn delete_branch<F: Fn(Vec<String>) -> Result<String, String>>(run: &F, name: &str, force: bool) -> (r: Result<
    (),
    String,
>)
    requires
        callable(*run),
    ensures
        match validate_ref_spec(name@) {
            Err(e) => unit_view(r) == Err::<(), Seq<char>>(e),
            Ok(()) => plain_outcome(*run, delete_branch_args(name@, force), r),
        },
{
    validate_ref_name(name)?;
    let mut a = Args::new();
    a.lit("branch");
    if force {
        a.lit("-D");
    } else {
        a.lit("-d");
    }
    a.val(trimmed_arg(name));
    assert(strs(a.v@) =~= delete_branch_args(name@, force));
    run_plain(run, a.v)
}

pub open spec fn rename_args(old: Seq<char>, new: Seq<char>) -> Seq<Seq<char>> {
    seq!["branch"@, "-m"@, trim(old), trim(new)]
}

/// Renaming asks git to move the old name to the new one: `branch -m`, then
/// the old name, then the new name, each trimmed.
pub proof fn lemma_rename_old_before_new(old: Seq<char>, new: Seq<char>)
    ensures
        rename_args(old, new).len() == 4,
        rename_args(old, new)[0] == "branch"@,
        rename_args(old, new)[1] == "-m"@,
        rename_args(old, new)[2] == trim(old),
        rename_args(old, new)[3] == trim(new),
{
}

pub fn rename_branch<F: Fn(Vec<String>) -> Result<String, String>>(run: &F, old_name: &str, new_name: &str) -> (r: Result<
    (),
    String,
>)
    requires
        callable(*run),
    ensures
        match validate_ref_spec(old_name@) {
            Err(e) => unit_view(r) == Err::<(), Seq<char>>(e),
            Ok(()) => match validate_ref_spec(new_name@) {
                Err(e) => unit_view(r) == Err::<(), Seq<char>>(e),
                Ok(()) => plain_outcome(*run, rename_args(old_name@, new_name@), r),
            },
        },
{
    validate_ref_name(old_name)?;
    validate_ref_name(new_name)?;
    let mut a = Args::new();
    a.lit("branch");
    a.lit("-m");
    a.val(trimmed_arg(old_name));
    a.val(trimmed_arg(new_name));
    assert(strs(a.v@) =~= rename_args(old_name@, new_name@));
    run_plain(run, a.v)
}

pub open spec fn conflict_msg() -> Seq<char> {
    "操作产生冲突，请在终端解决后再回到这里（未完成的合并/rebase 会在这里提示）"@
}

/// Outcome of a run that can leave the repository in a conflict: a failure is
/// reported as a conflict when the probe finds a merge or rebase under way.
pub open spec fn conflict_outcome<F: Fn(Vec<String>) -> Result<String, String>, H: Fn() -> bool>(
    run: F,
    in_conflict: H,
    args: Seq<Seq<char>>,
    r: Result<(), String>,
) -> bool {
    match r {
        Ok(()) => ran_ok(run, args),
        Err(e) => exists|o: Seq<char>|
            #[trigger] ran(run, args, Err(o)) && ((probed(in_conflict, true) && e@ == conflict_msg()) || (probed(
                in_conflict,
                false,
            ) && e@ == o)),
    }
}

fn run_conflicting<F: Fn(Vec<String>) -> Result<String, String>, H: Fn() -> bool>(
    run: &F,
    in_conflict: &H,
    args: Vec<String>,
) -> (r: Result<(), String>)
    requires
        callable(*run),
        probe_callable(*in_conflict),
    ensures
        conflict_outcome(*run, *in_conflict, strs(args@), r),
{
    let ghost av = strs(args@);
    match call(run, args) {
        Ok(o) => {
            assert(ran(*run, av, Ok(o@)));
            Ok(())
        },
        Err(e) => {
            assert(ran(*run, av, Err(e@)));
            if ask(in_conflict) {
                Err(owned("操作产生冲突，请在终端解决后再回到这里（未完成的合并/rebase 会在这里提示）"))
            } else {
                Err(e)
            }
        },
    }
}

fn name_args(verb: &str, name: &str) -> (r: Vec<String>)
    ensures
        strs(r@) == seq![verb@, trim(name@)],
{
    let mut a = Args::new();
    a.lit(verb);
    a.val(trimmed_arg(name));
    assert(strs(a.v@) =~= seq![verb@, trim(name@)]);
    a.v
}

/// Merges the branch into the current one.
pub fn merge<F: Fn(Vec<String>) -> Result<String, String>, H: Fn() -> bool>(run: &F, in_conflict: &H, name: &str) -> (r: Result<
    (),
    String,
>)
    requires
        callable(*run),
        probe_callable(*in_conflict),
    ensures
        match validate_ref_spec(name@) {
            Err(e) => unit_view(r) == Err::<(), Seq<char>>(e),
            Ok(()) => conflict_outcome(*run, *in_conflict, seq!["merge"@, trim(name@)], r),
        },
{
    validate_ref_name(name)?;
    run_conflicting(run, in_conflict, name_args("merge", name))
}

/// Rebases the current branch onto `onto`.
pub fn rebase<F: Fn(Vec<String>) -> Result<String, String>, H: Fn() -> bool>(run: &F, in_conflict: &H, onto: &str) -> (r: Result<
    (),
    String,
>)
    requires
        callable(*run),
        probe_callable(*in_conflict),
    ensures
        match validate_ref_spec(onto@) {
            Err(e) => unit_view(r) == Err::<(), Seq<char>>(e),
            Ok(()) => conflict_outcome(*run, *in_conflict, seq!["rebase"@, trim(onto@)], r),
        },
{
    validate_ref_name(onto)?;
    run_conflicting(run, in_conflict, name_args("rebase", onto))
}

pub open spec fn hash_error(hash: Seq<char>) -> Seq<char> {
    "无效的提交哈希："@ + hash
}

/// Reverts the commit.
pub fn revert<F: Fn(Vec<String>) -> Result<String, String>, H: Fn() -> bool>(run: &F, in_conflict: &H, hash: &str) -> (r: Result<
    (),
    String,
>)
    requires
        callable(*run),
        probe_callable(*in_conflict),
    ensures
        !valid_hash(hash@) ==> (r matches Err(e) && e@ == hash_error(hash@)),
        valid_hash(hash@) ==> conflict_outcome(*run, *in_conflict, seq!["revert"@, "--no-edit"@, trim(hash@)], r),
{
    validate_hash(hash)?;
    let mut a = Args::new();
    a.lit("revert");
    a.lit("--no-edit");
    a.val(trimmed_arg(hash));
    assert(strs(a.v@) =~= seq!["revert"@, "--no-edit"@, trim(hash@)]);
    run_conflicting(run, in_conflict, a.v)
}

/// Applies the commit on top of the current branch.
pub fn cherry_pick<F: Fn(Vec<String>) -> Result<String, String>, H: Fn() -> bool>(run: &F, in_conflict: &H, hash: &str) -> (r: Result<
    (),
    String,
>)
    requires
        callable(*run),
        probe_callable(*in_conflict),
    ensures
        !valid_hash(hash@) ==> (r matches Err(e) && e@ == hash_error(hash@)),
        valid_hash(hash@) ==> conflict_outcome(*run, *in_conflict, seq!["cherry-pick"@, trim(hash@)], r),
{
    validate_hash(hash)?;
    run_conflicting(run, in_conflict, name_args("cherry-pick", hash))
}

/// The reset flag for a mode: only `soft` and `mixed`, never `hard`.
pub open spec fn reset_flag(mode: Seq<char>) -> Option<Seq<char>> {
    if mode == "soft"@ {
        Some("--soft"@)
    } else if mode == "mixed"@ {
        Some("--mixed"@)
    } else {
        None
    }
}

pub fn reset<F: Fn(Vec<String>) -> Result<String, String>>(run: &F, hash: &str, mode: &str) -> (r: Result<(), String>)
    requires
        callable(*run),
    ensures
        !valid_hash(hash@) ==> (r matches Err(e) && e@ == hash_error(hash@)),
        valid_hash(hash@) ==> match reset_flag(mode@) {
            None => r matches Err(e) && e@ == "不支持的 reset 模式（仅 soft / mixed）"@,
            Some(f) => plain_outcome(*run, seq!["reset"@, f, trim(hash@)], r),
        },
{
    validate_hash(hash)?;
    let m = chars_of(mode);
    let mut a = Args::new();
    a.lit("reset");
    if crate::text::vec_eq(&m, &chars_of("soft")) {
        a.lit("--soft");
    } else if crate::text::vec_eq(&m, &chars_of("mixed")) {
        a.lit("--mixed");
    } else {
        return Err(owned("不支持的 reset 模式（仅 soft / mixed）"));
    }
    a.val(trimmed_arg(hash));
    assert(strs(a.v@) =~= seq!["reset"@, reset_flag(mode@)->0, trim(hash@)]);
    run_plain(run, a.v)
}

/// Fetches from the remotes (`net` may ask for credentials and waits longer).
pub fn fetch<F: Fn(Vec<String>) -> Result<String, String>>(net: &F) -> (r: Result<(), String>)
    requires
        callable(*net),
    ensures
        plain_outcome(*net, seq!["fetch"@], r),
{
    let mut a = Args::new();
    a.lit("fetch");
    assert(strs(a.v@) =~= seq!["fetch"@]);
    run_plain(net, a.v)
}

/// Pulls into the current branch.
pub fn pull<F: Fn(Vec<String>) -> Result<String, String>, H: Fn() -> bool>(net: &F, in_conflict: &H) -> (r: Result<(), String>)
    requires
        callable(*net),
        probe_callable(*in_conflict),
    ensures
        conflict_outcome(*net, *in_conflict, seq!["pull"@], r),
{
    let mut a = Args::new();
    a.lit("pull");
    assert(strs(a.v@) =~= seq!["pull"@]);
    run_conflicting(net, in_conflict, a.v)
}

#[derive(Debug)]
pub struct PushOutcome {
    pub branch: String,
    /// The branch had no upstream and was pushed with `-u origin`.
    pub set_upstream: bool,
}

/// The error text of a push that failed for want of an upstream branch.
pub open spec fn lacks_upstream(e: Seq<char>) -> bool {
    contains_seq(e, "no upstream branch"@) || contains_seq(e, "has no upstream branch"@) || contains_seq(
        e,
        "set-upstream"@,
    )
}

pub open spec fn symref_args() -> Seq<Seq<char>> {
    seq!["symbolic-ref"@, "--short"@, "HEAD"@]
}

pub open spec fn origin_args() -> Seq<Seq<char>> {
    seq!["remote"@, "get-url"@, "origin"@]
}

pub open spec fn upstream_push_args(branch: Seq<char>) -> Seq<Seq<char>> {
    seq!["push"@, "-u"@, "origin"@, branch]
}

/// Pushes the current branch; when it has no upstream and `origin` exists, pushes
/// again setting `origin` as its upstream.
pub fn push<F: Fn(Vec<String>) -> Result<String, String>, N: Fn(Vec<String>) -> Result<String, String>>(
    run: &F,
    net: &N,
) -> (r: Result<PushOutcome, String>)
    requires
        callable(*run),
        callable(*net),
    ensures
        r matches Ok(p) ==> exists|s: Seq<char>|
            #[trigger] ran(*run, symref_args(), Ok(s)) && p.branch@ == trim(s) && if p.set_upstream {
                (exists|e: Seq<char>| #[trigger] ran(*net, seq!["push"@], Err(e)) && lacks_upstream(e))
                    && ran_ok(*run, origin_args()) && ran_ok(*net, upstream_push_args(trim(s)))
            } else {
                ran_ok(*net, seq!["push"@])
            },
        r matches Err(e) ==> (exists|o: Seq<char>|
            #[trigger] ran(*run, symref_args(), Err(o)) && e@ == "当前处于 detached HEAD，无法推送"@) || exists|s: Seq<char>|
            #[trigger] ran(*run, symref_args(), Ok(s)) && ((ran(*net, seq!["push"@], Err(e@)) && (!lacks_upstream(e@)
                || exists|o: Seq<char>| #[trigger] ran(*run, origin_args(), Err(o)))) || ((exists|e1: Seq<char>|
                #[trigger] ran(*net, seq!["push"@], Err(e1)) && lacks_upstream(e1)) && ran_ok(*run, origin_args()) && ran(
                *net,
                upstream_push_args(trim(s)),
                Err(e@),
            ))),
{
    let mut a = Args::new();
    a.lit("symbolic-ref");
    a.lit("--short");
    a.lit("HEAD");
    assert(strs(a.v@) =~= symref_args());
    let ghost mut ghost_sym: Seq<char> = Seq::empty();
    let branch = match call(run, a.v) {
        Err(o) => {
            assert(ran(*run, symref_args(), Err(o@)));
            return Err(owned("当前处于 detached HEAD，无法推送"));
        },
        Ok(s) => {
            assert(ran(*run, symref_args(), Ok(s@)));
            let b = trimmed_arg(s.as_str());
            proof {
                ghost_sym = s@;
            }
            b
        },
    };
    let mut p = Args::new();
    p.lit("push");
    assert(strs(p.v@) =~= seq!["push"@]);
    match call(net, p.v) {
        Ok(o) => {
            assert(ran(*net, seq!["push"@], Ok(o@)));
            Ok(PushOutcome { branch, set_upstream: false })
        },
        Err(e) => {
            assert(ran(*net, seq!["push"@], Err(e@)));
            let ec = chars_of(e.as_str());
            let no_upstream = has_seq(&ec, &chars_of("no upstream branch")) || has_seq(
                &ec,
                &chars_of("has no upstream branch"),
            ) || has_seq(&ec, &chars_of("set-upstream"));
            if no_upstream {
                let mut q = Args::new();
                q.lit("remote");
                q.lit("get-url");
                q.lit("origin");
                assert(strs(q.v@) =~= origin_args());
                match call(run, q.v) {
                    Ok(o) => {
                        assert(ran(*run, origin_args(), Ok(o@)));
                        let mut u = Args::new();
                        u.lit("push");
                        u.lit("-u");
                        u.lit("origin");
                        u.val(crate::config::copy_string(&branch));
                        assert(strs(u.v@) =~= upstream_push_args(branch@));
                        match call(net, u.v) {
                            Err(e2) => Err(e2),
                            Ok(o2) => {
                                assert(ran(*net, upstream_push_args(branch@), Ok(o2@)));
                                Ok(PushOutcome { branch, set_upstream: true })
                            },
                        }
                    },
                    Err(o) => {
                        assert(ran(*run, origin_args(), Err(o@)));
                        Err(e)
                    },
                }
            } else {
                Err(e)
            }
        },
    }
}

} // verus!
