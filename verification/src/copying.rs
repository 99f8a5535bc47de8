//! Copying the allow-listed files into a new environment, and walking the
//! source work tree for candidates. The file system is reached through the
//! functions passed in; the rules (limits, links, never overwriting) are here.

use vstd::prelude::*;
use crate::config::strs;
use crate::paths::{join_raw, join_raw_chars};
use crate::text::{chars_of, decimal, decimal_string, extend_chars, owned, string_of};
use crate::worktree::{
    denied_spec, is_denied_copy_path, normalize_rel, normalize_rel_spec, CopyOutcome, MAX_COPY_FILES,
    MAX_COPY_FILE_BYTES, MAX_COPY_TOTAL_BYTES, MAX_SCAN_FILES,
};

verus! {

/// What a path is, without following links.
#[derive(Debug, Clone, Copy, PartialEq, Eq, Structural)]
pub enum EntryKind {
    Link,
    File,
    Dir,
    Other,
}

/// Why copying one file failed.
#[derive(Debug)]
pub enum CopyFail {
    /// Creating the target's parent directories failed.
    MakeDir(String),
    /// Copying the bytes failed.
    Copy(String),
}

pub open spec fn stat_view(o: Result<(EntryKind, u64), String>) -> Result<(EntryKind, u64), Seq<char>> {
    match o {
        Ok(x) => Ok(x),
        Err(e) => Err(e@),
    }
}

/// `stat` was asked about `p` and answered `out`.
pub open spec fn stat_answer<S: Fn(String) -> Result<(EntryKind, u64), String>>(
    stat: S,
    p: Seq<char>,
    out: Result<(EntryKind, u64), Seq<char>>,
) -> bool {
    exists|x: String, o: Result<(EntryKind, u64), String>| #[trigger] stat.ensures((x,), o) && x@ == p && stat_view(o) == out
}

pub open spec fn source_of(src: Seq<char>, rel: Seq<char>) -> Seq<char> {
    join_raw(src, normalize_rel_spec(rel))
}

pub open spec fn read_fail_msg(rel: Seq<char>, e: Seq<char>) -> Seq<char> {
    "读取 "@ + rel + " 失败："@ + e
}

/// The first pass over the files' metadata answers: links are skipped, files
/// are declared with their sizes; a missing, non-file or oversized source
/// ends it with an error before anything is copied.
pub open spec fn declare_fold(
    rels: Seq<Seq<char>>,
    ans: Seq<Result<(EntryKind, u64), Seq<char>>>,
) -> Result<(Seq<Seq<char>>, Seq<(Seq<char>, u64)>), Seq<char>>
    decreases ans.len(),
{
    if ans.len() == 0 {
        Ok((seq![], seq![]))
    } else {
        match declare_fold(rels, ans.drop_last()) {
            Err(e) => Err(e),
            Ok((sk, dc)) => {
                let rel = rels[ans.len() - 1];
                match ans.last() {
                    Err(e) => Err(read_fail_msg(rel, e)),
                    Ok((k, len)) => if k == EntryKind::Link {
                        Ok((sk.push(rel), dc))
                    } else if k != EntryKind::File {
                        Err(rel + " 不是文件，无法复制"@)
                    } else if len > MAX_COPY_FILE_BYTES {
                        Err(rel + " 超过单文件 20MB 上限，未执行复制"@)
                    } else {
                        Ok((sk, dc.push((rel, len))))
                    },
                }
            },
        }
    }
}

pub open spec fn total_bytes(dc: Seq<(Seq<char>, u64)>) -> int
    decreases dc.len(),
{
    if dc.len() == 0 {
        0
    } else {
        total_bytes(dc.drop_last()) + dc.last().1
    }
}

pub open spec fn fail_view(o: Result<(), CopyFail>) -> Result<(), Result<Seq<char>, Seq<char>>> {
    match o {
        Ok(()) => Ok(()),
        Err(CopyFail::MakeDir(e)) => Err(Ok(e@)),
        Err(CopyFail::Copy(e)) => Err(Err(e@)),
    }
}

/// `copy_file` copied (or failed to copy) `from` to `to`.
/// A failure is `Ok(e)` for the parent directories, `Err(e)` for the copy.
pub open spec fn copy_answer<C: Fn(String, String) -> Result<(), CopyFail>>(
    copy_file: C,
    from: Seq<char>,
    to: Seq<char>,
    out: Result<(), Result<Seq<char>, Seq<char>>>,
) -> bool {
    exists|x: String, y: String, o: Result<(), CopyFail>|
        #[trigger] copy_file.ensures((x, y), o) && x@ == from && y@ == to && fail_view(o) == out
}

/// `exists` was asked about `p` and answered `b`.
pub open spec fn exists_answer<E: Fn(String) -> bool>(present: E, p: Seq<char>, b: bool) -> bool {
    exists|x: String| #[trigger] present.ensures((x,), b) && x@ == p
}

pub struct CopyOutcomeV {
    pub copied: nat,
    pub bytes: nat,
    pub skipped: Seq<Seq<char>>,
}

pub open spec fn copy_outcome_view(c: CopyOutcome) -> CopyOutcomeV {
    CopyOutcomeV { copied: c.copied as nat, bytes: c.bytes as nat, skipped: strs(c.skipped@) }
}

/// The second pass: a target that already exists is skipped (never
/// overwritten); otherwise the file is copied; the first failure ends it.
/// Each answer is `None` for an existing target, else the copy's outcome.
pub open spec fn copy_fold(
    dc: Seq<(Seq<char>, u64)>,
    ans: Seq<Option<Result<(), Result<Seq<char>, Seq<char>>>>>,
    skipped: Seq<Seq<char>>,
) -> Result<CopyOutcomeV, Seq<char>>
    decreases ans.len(),
{
    if ans.len() == 0 {
        Ok(CopyOutcomeV { copied: 0, bytes: 0, skipped })
    } else {
        match copy_fold(dc, ans.drop_last(), skipped) {
            Err(e) => Err(e),
            Ok(out) => {
                let d = dc[ans.len() - 1];
                match ans.last() {
                    None => Ok(CopyOutcomeV { skipped: out.skipped.push(d.0), ..out }),
                    Some(Ok(())) => Ok(CopyOutcomeV { copied: out.copied + 1, bytes: (out.bytes + d.1) as nat, ..out }),
                    Some(Err(Ok(e))) => Err("创建目录失败："@ + e),
                    Some(Err(Err(e))) => Err("复制 "@ + d.0 + " 失败："@ + e),
                }
            },
        }
    }
}

pub open spec fn target_of(dst: Seq<char>, rel: Seq<char>) -> Seq<char> {
    join_raw(dst, normalize_rel_spec(rel))
}

/// The answers of the second pass came from `exists` and `copy_file`.
pub open spec fn copy_answers<E: Fn(String) -> bool, C: Fn(String, String) -> Result<(), CopyFail>>(
    present: E,
    copy_file: C,
    src: Seq<char>,
    dst: Seq<char>,
    dc: Seq<(Seq<char>, u64)>,
    ans: Seq<Option<Result<(), Result<Seq<char>, Seq<char>>>>>,
) -> bool {
    &&& ans.len() <= dc.len()
    &&& forall|i: int|
        0 <= i < ans.len() ==> match #[trigger] ans[i] {
            None => exists_answer(present, target_of(dst, dc[i].0), true),
            Some(o) => exists_answer(present, target_of(dst, dc[i].0), false) && copy_answer(
                copy_file,
                source_of(src, dc[i].0),
                target_of(dst, dc[i].0),
                o,
            ),
        }
}

/// The answers of the first pass came from `stat`.
pub open spec fn stat_answers<S: Fn(String) -> Result<(EntryKind, u64), String>>(
    stat: S,
    src: Seq<char>,
    rels: Seq<Seq<char>>,
    ans: Seq<Result<(EntryKind, u64), Seq<char>>>,
) -> bool {
    &&& ans.len() <= rels.len()
    &&& forall|i: int| 0 <= i < ans.len() ==> stat_answer(stat, source_of(src, rels[i]), #[trigger] ans[i])
}

/// A fold that ran to the end, or stopped at its first error.
pub open spec fn ran_to_end_or_failed<A, T>(n: nat, ans: Seq<A>, all: Result<T, Seq<char>>, before: Result<T, Seq<char>>) -> bool {
    (ans.len() == n && all is Ok) || (ans.len() > 0 && all is Err && before is Ok)
}

pub open spec fn too_many_msg(n: nat) -> Seq<char> {
    "复制白名单命中 "@ + decimal(n) + " 个文件，超过 200 上限"@
}

pub open spec fn copy_result_view(r: Result<CopyOutcome, String>) -> Result<CopyOutcomeV, Seq<char>> {
    match r {
        Ok(c) => Ok(copy_outcome_view(c)),
        Err(e) => Err(e@),
    }
}

/// What copying `files` from `src` to `dst` gives, for the answers the file
/// system gave: nothing is copied unless every source is a file (or a link,
/// skipped) within the size limits.
pub open spec fn perform_copy_outcome<
    S: Fn(String) -> Result<(EntryKind, u64), String>,
    E: Fn(String) -> bool,
    C: Fn(String, String) -> Result<(), CopyFail>,
>(stat: S, present: E, copy_file: C, src: Seq<char>, dst: Seq<char>, rels: Seq<Seq<char>>, r: Result<CopyOutcomeV, Seq<char>>) -> bool {
    if rels.len() > MAX_COPY_FILES {
        r == Err::<CopyOutcomeV, Seq<char>>(too_many_msg(rels.len()))
    } else {
        exists|a1: Seq<Result<(EntryKind, u64), Seq<char>>>|
            #[trigger] stat_answers(stat, src, rels, a1) && ran_to_end_or_failed(
                rels.len(),
                a1,
                declare_fold(rels, a1),
                declare_fold(rels, a1.drop_last()),
            ) && match declare_fold(rels, a1) {
                Err(e) => r == Err::<CopyOutcomeV, Seq<char>>(e),
                Ok(declared) => copy_phase(present, copy_file, src, dst, declared.0, declared.1, r),
            }
    }
}

/// The second pass over the declared files, once every source checked out.
pub open spec fn copy_phase<E: Fn(String) -> bool, C: Fn(String, String) -> Result<(), CopyFail>>(
    present: E,
    copy_file: C,
    src: Seq<char>,
    dst: Seq<char>,
    sk: Seq<Seq<char>>,
    dc: Seq<(Seq<char>, u64)>,
    r: Result<CopyOutcomeV, Seq<char>>,
) -> bool {
    if total_bytes(dc) > MAX_COPY_TOTAL_BYTES {
        r == Err::<CopyOutcomeV, Seq<char>>("白名单合计超过 200MB，未执行复制"@)
    } else {
        exists|a2: Seq<Option<Result<(), Result<Seq<char>, Seq<char>>>>>|
            #[trigger] copy_answers(present, copy_file, src, dst, dc, a2) && ran_to_end_or_failed(
                dc.len(),
                a2,
                copy_fold(dc, a2, sk),
                copy_fold(dc, a2.drop_last(), sk),
            ) && r == copy_fold(dc, a2, sk)
    }
}

proof fn lemma_declare_sizes(rels: Seq<Seq<char>>, ans: Seq<Result<(EntryKind, u64), Seq<char>>>)
    requires
        ans.len() <= rels.len(),
        declare_fold(rels, ans) is Ok,
    ensures
        declare_fold(rels, ans)->Ok_0.1.len() <= ans.len(),
        total_bytes(declare_fold(rels, ans)->Ok_0.1) <= ans.len() * MAX_COPY_FILE_BYTES,
        forall|i: int|
            0 <= i < declare_fold(rels, ans)->Ok_0.1.len() ==> #[trigger] declare_fold(rels, ans)->Ok_0.1[i].1
                <= MAX_COPY_FILE_BYTES,
    decreases ans.len(),
{
    if ans.len() > 0 {
        lemma_declare_sizes(rels, ans.drop_last());
        let prev = declare_fold(rels, ans.drop_last())->Ok_0.1;
        let cur = declare_fold(rels, ans)->Ok_0.1;
        if cur.len() > prev.len() {
            assert(cur.drop_last() == prev);
        }
    }
}

proof fn lemma_copy_fold_bounds(
    dc: Seq<(Seq<char>, u64)>,
    ans: Seq<Option<Result<(), Result<Seq<char>, Seq<char>>>>>,
    sk: Seq<Seq<char>>,
)
    requires
        ans.len() <= dc.len(),
        copy_fold(dc, ans, sk) is Ok,
    ensures
        copy_fold(dc, ans, sk)->Ok_0.copied <= ans.len(),
        copy_fold(dc, ans, sk)->Ok_0.bytes <= total_bytes(dc.take(ans.len() as int)),
    decreases ans.len(),
{
    if ans.len() > 0 {
        lemma_copy_fold_bounds(dc, ans.drop_last(), sk);
        assert(dc.take(ans.len() as int).drop_last() == dc.take(ans.len() - 1));
        lemma_total_nonneg(dc.take(ans.len() - 1));
    }
}

proof fn lemma_total_nonneg(dc: Seq<(Seq<char>, u64)>)
    ensures
        total_bytes(dc) >= 0,
    decreases dc.len(),
{
    if dc.len() > 0 {
        lemma_total_nonneg(dc.drop_last());
    }
}

proof fn lemma_total_prefix(dc: Seq<(Seq<char>, u64)>, i: int)
    requires
        0 <= i <= dc.len(),
    ensures
        total_bytes(dc.take(i)) <= total_bytes(dc),
    decreases dc.len() - i,
{
    if i < dc.len() {
        assert(dc.take(i + 1).drop_last() == dc.take(i));
        lemma_total_prefix(dc, i + 1);
    } else {
        assert(dc.take(i) == dc);
    }
}

fn too_many(n: usize) -> (r: String)
    ensures
        r@ == too_many_msg(n as nat),
{
    let mut m = chars_of("复制白名单命中 ");
    extend_chars(&mut m, &chars_of(decimal_string(n as u64).as_str()));
    extend_chars(&mut m, &chars_of(" 个文件，超过 200 上限"));
    string_of(&m)
}

fn cat2(a: &str, b: &str) -> (r: String)
    ensures
        r@ == a@ + b@,
{
    let mut m = chars_of(a);
    extend_chars(&mut m, &chars_of(b));
    string_of(&m)
}

/// Copies the allow-listed files from the source work tree `src` into the new
/// environment `dst`: links and files already present are skipped, never
/// overwritten; nothing is copied when a source is missing, not a file, over
/// 20 MB, or the files together exceed 200 MB. `stat` reads a path's kind and
/// size without following links; `copy_file` creates the target's parent
/// directories and copies.
pub fn perform_copy<
    S: Fn(String) -> Result<(EntryKind, u64), String>,
    E: Fn(String) -> bool,
    C: Fn(String, String) -> Result<(), CopyFail>,
>(stat: &S, present: &E, copy_file: &C, src: &str, dst: &str, files: &Vec<String>) -> (r: Result<CopyOutcome, String>)
    requires
        forall|x: String| stat.requires((x,)),
        forall|x: String| present.requires((x,)),
        forall|x: String, y: String| copy_file.requires((x, y)),
    ensures
        perform_copy_outcome(*stat, *present, *copy_file, src@, dst@, strs(files@), copy_result_view(r)),
{
    let ghost rels = strs(files@);
    if files.len() > MAX_COPY_FILES {
        return Err(too_many(files.len()));
    }
    let mut skipped: Vec<String> = Vec::new();
    let mut declared: Vec<(String, String, String, u64)> = Vec::new();
    let mut total: u64 = 0;
    let ghost mut a1: Seq<Result<(EntryKind, u64), Seq<char>>> = seq![];
    let n = files.len();
    for i in 0..n
        invariant
            n == files@.len(),
            n <= MAX_COPY_FILES,
            rels == strs(files@),
            forall|x: String| stat.requires((x,)),
            a1.len() == i,
            stat_answers(*stat, src@, rels, a1),
            declare_fold(rels, a1) is Ok,
            strs(skipped@) == declare_fold(rels, a1)->Ok_0.0,
            declared@.len() == declare_fold(rels, a1)->Ok_0.1.len(),
            forall|k: int|
                0 <= k < declared@.len() ==> {
                    let d = #[trigger] declared@[k];
                    &&& d.0@ == declare_fold(rels, a1)->Ok_0.1[k].0
                    &&& d.3 == declare_fold(rels, a1)->Ok_0.1[k].1
                    &&& d.1@ == source_of(src@, d.0@)
                    &&& d.2@ == target_of(dst@, d.0@)
                },
            total == total_bytes(declare_fold(rels, a1)->Ok_0.1),
    {
        proof {
            lemma_declare_sizes(rels, a1);
        }
        let rel = &files[i];
        let nr = normalize_rel(rel.as_str());
        let source = string_of(&join_raw_chars(&chars_of(src), &chars_of(nr.as_str())));
        let s2 = owned(source.as_str());
        let ghost s2v = s2;
        let got = stat(s2);
        assert(stat.ensures((s2v,), got));
        let ghost gv = stat_view(got);
        assert(stat_answer(*stat, source_of(src@, rels[i as int]), gv));
        proof {
            let old_a1 = a1;
            a1 = a1.push(gv);
            assert(a1.drop_last() == old_a1);
            assert forall|k: int| 0 <= k < a1.len() implies stat_answer(*stat, source_of(src@, rels[k]), #[trigger] a1[k]) by {
                if k < i {
                    assert(a1[k] == old_a1[k]);
                }
            }
        }
        match got {
            Err(e) => {
                let mut m = chars_of("读取 ");
                extend_chars(&mut m, &chars_of(rel.as_str()));
                extend_chars(&mut m, &chars_of(" 失败："));
                extend_chars(&mut m, &chars_of(e.as_str()));
                let msg = string_of(&m);
                assert(msg@ =~= read_fail_msg(rels[i as int], e@));
                assert(declare_fold(rels, a1) == Err::<(Seq<Seq<char>>, Seq<(Seq<char>, u64)>), Seq<char>>(msg@));
                assert(stat_answers(*stat, src@, rels, a1));
                return Err(msg);
            },
            Ok((kind, len)) => {
                if kind == EntryKind::Link {
                    let ghost before = strs(skipped@);
                    skipped.push(owned(rel.as_str()));
                    assert(strs(skipped@) =~= before.push(rels[i as int]));
                    assert(declare_fold(rels, a1.drop_last())->Ok_0.1 == declare_fold(rels, a1)->Ok_0.1);
                } else if kind != EntryKind::File {
                    let msg = cat2(rel.as_str(), " 不是文件，无法复制");
                    assert(msg@ =~= rels[i as int] + " 不是文件，无法复制"@);
                    assert(stat_answers(*stat, src@, rels, a1));
                    return Err(msg);
                } else if len > MAX_COPY_FILE_BYTES {
                    let msg = cat2(rel.as_str(), " 超过单文件 20MB 上限，未执行复制");
                    assert(msg@ =~= rels[i as int] + " 超过单文件 20MB 上限，未执行复制"@);
                    assert(stat_answers(*stat, src@, rels, a1));
                    return Err(msg);
                } else {
                    let target = string_of(&join_raw_chars(&chars_of(dst), &chars_of(nr.as_str())));
                    let ghost dv = declare_fold(rels, a1.drop_last())->Ok_0.1;
                    assert(declare_fold(rels, a1)->Ok_0.1 == dv.push((rels[i as int], len)));
                    assert(dv.push((rels[i as int], len)).drop_last() == dv);
                    assert(total + len <= (i + 1) * MAX_COPY_FILE_BYTES) by (nonlinear_arith)
                        requires
                            total <= i * MAX_COPY_FILE_BYTES,
                            len <= MAX_COPY_FILE_BYTES,
                    ;
                    total = total + len;
                    declared.push((owned(rel.as_str()), source, target, len));
                }
            },
        }
    }
    assert(a1.len() == rels.len());
    let ghost sk = declare_fold(rels, a1)->Ok_0.0;
    let ghost dcv = declare_fold(rels, a1)->Ok_0.1;
    if total > MAX_COPY_TOTAL_BYTES {
        assert(stat_answers(*stat, src@, rels, a1));
        return Err(owned("白名单合计超过 200MB，未执行复制"));
    }
    let mut out = CopyOutcome { copied: 0, bytes: 0, skipped };
    let ghost mut a2: Seq<Option<Result<(), Result<Seq<char>, Seq<char>>>>> = seq![];
    let m = declared.len();
    for j in 0..m
        invariant
            m == declared@.len(),
            m == dcv.len(),
            total_bytes(dcv) <= MAX_COPY_TOTAL_BYTES,
            forall|x: String| present.requires((x,)),
            forall|x: String, y: String| copy_file.requires((x, y)),
            forall|k: int|
                0 <= k < declared@.len() ==> {
                    let d = #[trigger] declared@[k];
                    &&& d.0@ == dcv[k].0
                    &&& d.3 == dcv[k].1
                    &&& d.1@ == source_of(src@, d.0@)
                    &&& d.2@ == target_of(dst@, d.0@)
                },
            a2.len() == j,
            rels == strs(files@),
            rels.len() <= MAX_COPY_FILES,
            stat_answers(*stat, src@, rels, a1),
            a1.len() == rels.len(),
            declare_fold(rels, a1) == Ok::<(Seq<Seq<char>>, Seq<(Seq<char>, u64)>), Seq<char>>((sk, dcv)),
            copy_answers(*present, *copy_file, src@, dst@, dcv, a2),
            copy_fold(dcv, a2, sk) is Ok,
            copy_outcome_view(out) == copy_fold(dcv, a2, sk)->Ok_0,
    {
        proof {
            lemma_copy_fold_bounds(dcv, a2, sk);
            lemma_total_prefix(dcv, j as int);
        }
        let d = &declared[j];
        let t = owned(d.2.as_str());
        let ghost tv = t;
        let there = present(t);
        assert(present.ensures((tv,), there));
        let ghost old_a2 = a2;
        if there {
            proof {
                a2 = a2.push(None);
                assert(a2.drop_last() == old_a2);
                assert forall|k: int| 0 <= k < a2.len() implies match #[trigger] a2[k] {
                    None => exists_answer(*present, target_of(dst@, dcv[k].0), true),
                    Some(o) => exists_answer(*present, target_of(dst@, dcv[k].0), false) && copy_answer(
                        *copy_file,
                        source_of(src@, dcv[k].0),
                        target_of(dst@, dcv[k].0),
                        o,
                    ),
                } by {
                    if k < j {
                        assert(a2[k] == old_a2[k]);
                    }
                }
            }
            let ghost before = strs(out.skipped@);
            out.skipped.push(owned(d.0.as_str()));
            assert(strs(out.skipped@) =~= before.push(dcv[j as int].0));
        } else {
            let x = owned(d.1.as_str());
            let y = owned(d.2.as_str());
            let ghost xv = x;
            let ghost yv = y;
            let c = copy_file(x, y);
            assert(copy_file.ensures((xv, yv), c));
            let ghost cv = fail_view(c);
            proof {
                a2 = a2.push(Some(cv));
                assert(a2.drop_last() == old_a2);
                assert forall|k: int| 0 <= k < a2.len() implies match #[trigger] a2[k] {
                    None => exists_answer(*present, target_of(dst@, dcv[k].0), true),
                    Some(o) => exists_answer(*present, target_of(dst@, dcv[k].0), false) && copy_answer(
                        *copy_file,
                        source_of(src@, dcv[k].0),
                        target_of(dst@, dcv[k].0),
                        o,
                    ),
                } by {
                    if k < j {
                        assert(a2[k] == old_a2[k]);
                    }
                }
            }
            match c {
                Err(CopyFail::MakeDir(e)) => {
                    let msg = cat2("创建目录失败：", e.as_str());
                    assert(msg@ =~= "创建目录失败："@ + e@);
                    assert(copy_answers(*present, *copy_file, src@, dst@, dcv, a2));
                    assert(copy_fold(dcv, a2, sk) == Err::<CopyOutcomeV, Seq<char>>(msg@));
                    assert(a2.drop_last() == old_a2);
                    assert(ran_to_end_or_failed(
                        dcv.len(),
                        a2,
                        copy_fold(dcv, a2, sk),
                        copy_fold(dcv, a2.drop_last(), sk),
                    ));
                    assert(ran_to_end_or_failed(
                        rels.len(),
                        a1,
                        declare_fold(rels, a1),
                        declare_fold(rels, a1.drop_last()),
                    ));
                    assert(copy_phase(*present, *copy_file, src@, dst@, sk, dcv, Err(msg@)));
                    return Err(msg);
                },
                Err(CopyFail::Copy(e)) => {
                    let mut mm = chars_of("复制 ");
                    extend_chars(&mut mm, &chars_of(d.0.as_str()));
                    extend_chars(&mut mm, &chars_of(" 失败："));
                    extend_chars(&mut mm, &chars_of(e.as_str()));
                    let msg = string_of(&mm);
                    assert(msg@ =~= "复制 "@ + dcv[j as int].0 + " 失败："@ + e@);
                    assert(copy_answers(*present, *copy_file, src@, dst@, dcv, a2));
                    assert(copy_fold(dcv, a2, sk) == Err::<CopyOutcomeV, Seq<char>>(msg@));
                    assert(a2.drop_last() == old_a2);
                    assert(ran_to_end_or_failed(
                        dcv.len(),
                        a2,
                        copy_fold(dcv, a2, sk),
                        copy_fold(dcv, a2.drop_last(), sk),
                    ));
                    assert(ran_to_end_or_failed(
                        rels.len(),
                        a1,
                        declare_fold(rels, a1),
                        declare_fold(rels, a1.drop_last()),
                    ));
                    assert(copy_phase(*present, *copy_file, src@, dst@, sk, dcv, Err(msg@)));
                    return Err(msg);
                },
                Ok(()) => {
                    proof {
                        assert(dcv.take(j + 1).drop_last() == dcv.take(j as int));
                        lemma_total_prefix(dcv, j + 1);
                    }
                    out.copied = out.copied + 1;
                    out.bytes = out.bytes + d.3;
                },
            }
        }
    }
    Ok(out)
}

// ---------------------------------------------------------------------------
// Walking the source work tree for candidates

/// Where a walk for an allow-list entry starts, from what its fixed prefix is.
#[derive(Debug)]
pub enum WalkStart {
    /// Missing, unreadable or a link: nothing to collect.
    Nothing,
    /// The prefix names a file: just that one (relative path).
    File(String),
    /// Walk the directory with this relative path.
    Dir(String),
}

pub open spec fn start_spec(prefix: Seq<char>, kind: Option<EntryKind>) -> (Seq<char>, int) {
    match kind {
        None => (seq![], 0),
        Some(EntryKind::Link) => (seq![], 0),
        Some(EntryKind::File) => (normalize_rel_spec(prefix), 1),
        Some(_) => (normalize_rel_spec(prefix), 2),
    }
}

pub open spec fn start_view(w: WalkStart) -> (Seq<char>, int) {
    match w {
        WalkStart::Nothing => (seq![], 0),
        WalkStart::File(r) => (r@, 1),
        WalkStart::Dir(r) => (r@, 2),
    }
}

/// The start of the walk under `prefix`, given what the prefix is (`None`
/// when it could not be read; links are not followed).
pub fn walk_start(prefix: &str, kind: Option<EntryKind>) -> (r: WalkStart)
    ensures
        start_view(r) == start_spec(prefix@, kind),
{
    match kind {
        None => WalkStart::Nothing,
        Some(EntryKind::Link) => WalkStart::Nothing,
        Some(EntryKind::File) => WalkStart::File(normalize_rel(prefix)),
        Some(_) => WalkStart::Dir(normalize_rel(prefix)),
    }
}

/// The relative path of the entry `name` of the directory `dir`.
pub open spec fn child_rel(dir: Seq<char>, name: Seq<char>) -> Seq<char> {
    normalize_rel_spec(dir + "/"@ + name)
}

pub struct VisitSt {
    pub files: Seq<Seq<char>>,
    pub dirs: Seq<Seq<char>>,
}

pub open spec fn scan_limit_msg() -> Seq<char> {
    "复制白名单遍历超过 2000 个文件，请把条目写得更具体"@
}

/// The entries of one directory, in order: unreadable entries, links and
/// denied paths are passed over; directories are queued; files are gathered,
/// and gathering past `MAX_SCAN_FILES` files in all is an error.
pub open spec fn visit_fold(dir: Seq<char>, es: Seq<(Seq<char>, Option<EntryKind>)>, already: int) -> Result<VisitSt, Seq<char>>
    decreases es.len(),
{
    if es.len() == 0 {
        Ok(VisitSt { files: seq![], dirs: seq![] })
    } else {
        match visit_fold(dir, es.drop_last(), already) {
            Err(e) => Err(e),
            Ok(st) => {
                let (name, kind) = es.last();
                let rel = child_rel(dir, name);
                match kind {
                    None => Ok(st),
                    Some(k) => if k == EntryKind::Link || denied_spec(rel) {
                        Ok(st)
                    } else if k == EntryKind::Dir {
                        Ok(VisitSt { dirs: st.dirs.push(rel), ..st })
                    } else if k == EntryKind::File {
                        if already + st.files.len() >= MAX_SCAN_FILES {
                            Err(scan_limit_msg())
                        } else {
                            Ok(VisitSt { files: st.files.push(rel), ..st })
                        }
                    } else {
                        Ok(st)
                    },
                }
            },
        }
    }
}

pub open spec fn entries_view(es: Seq<(String, Option<EntryKind>)>) -> Seq<(Seq<char>, Option<EntryKind>)> {
    es.map_values(|e: (String, Option<EntryKind>)| (e.0@, e.1))
}

proof fn lemma_visit_fold_err(dir: Seq<char>, es: Seq<(Seq<char>, Option<EntryKind>)>, already: int, j: int)
    requires
        0 <= j <= es.len(),
        visit_fold(dir, es.take(j), already) is Err,
    ensures
        visit_fold(dir, es, already) == visit_fold(dir, es.take(j), already),
    decreases es.len() - j,
{
    if j < es.len() {
        assert(es.drop_last().take(j) == es.take(j));
        lemma_visit_fold_err(dir, es.drop_last(), already, j);
    } else {
        assert(es.take(j) == es);
    }
}

/// Visits the entries of the directory `dir` (relative): files found go to
/// `files`, directories to walk to `dirs`. `already` files were gathered
/// before, by earlier directories and allow-list entries.
pub fn visit_entries(
    dir: &str,
    entries: &Vec<(String, Option<EntryKind>)>,
    already: usize,
    files: &mut Vec<String>,
    dirs: &mut Vec<String>,
) -> (r: Result<(), String>)
    ensures
        match visit_fold(dir@, entries_view(entries@), already as int) {
            Err(e) => r matches Err(m) && m@ == e,
            Ok(st) => r is Ok && strs(final(files)@) == strs(old(files)@) + st.files && strs(final(dirs)@) == strs(
                old(dirs)@,
            ) + st.dirs,
        },
{
    let ghost es = entries_view(entries@);
    let ghost f0 = strs(files@);
    let ghost d0 = strs(dirs@);
    let mut count: usize = 0;
    let n = entries.len();
    for i in 0..n
        invariant
            n == entries@.len(),
            es == entries_view(entries@),
            visit_fold(dir@, es.take(i as int), already as int) is Ok,
            strs(files@) == f0 + visit_fold(dir@, es.take(i as int), already as int)->Ok_0.files,
            strs(dirs@) == d0 + visit_fold(dir@, es.take(i as int), already as int)->Ok_0.dirs,
            count == visit_fold(dir@, es.take(i as int), already as int)->Ok_0.files.len(),
            count <= MAX_SCAN_FILES,
    {
        assert(es.take(i + 1).drop_last() == es.take(i as int));
        assert(es.take(i + 1).last() == (entries@[i as int].0@, entries@[i as int].1));
        let name = &entries[i].0;
        let kind = entries[i].1;
        let mut rc = chars_of(dir);
        rc.push('/');
        extend_chars(&mut rc, &chars_of(name.as_str()));
        let rel = normalize_rel(string_of(&rc).as_str());
        assert(rel@ == child_rel(dir@, name@)) by {
            assert(rc@ =~= dir@ + "/"@ + name@) by {
                reveal_strlit("/");
            }
        }
        let ghost prev = visit_fold(dir@, es.take(i as int), already as int)->Ok_0;
        match kind {
            None => {},
            Some(k) => {
                if k == EntryKind::Link || is_denied_copy_path(rel.as_str()) {
                } else if k == EntryKind::Dir {
                    let ghost before = strs(dirs@);
                    dirs.push(rel);
                    assert(strs(dirs@) =~= before.push(child_rel(dir@, name@)));
                } else if k == EntryKind::File {
                    if already >= MAX_SCAN_FILES || count >= MAX_SCAN_FILES - already {
                        proof {
                            lemma_visit_fold_err(dir@, es, already as int, i + 1);
                        }
                        return Err(owned("复制白名单遍历超过 2000 个文件，请把条目写得更具体"));
                    }
                    let ghost before = strs(files@);
                    files.push(rel);
                    assert(strs(files@) =~= before.push(child_rel(dir@, name@)));
                    count = count + 1;
                }
            },
        }
    }
    assert(es.take(n as int) == es);
    Ok(())
}

proof fn lemma_visit_fold_bound(dir: Seq<char>, es: Seq<(Seq<char>, Option<EntryKind>)>, already: int)
    requires
        visit_fold(dir, es, already) is Ok,
    ensures
        visit_fold(dir, es, already)->Ok_0.files.len() > 0 ==> already + visit_fold(dir, es, already)->Ok_0.files.len()
            <= MAX_SCAN_FILES,
    decreases es.len(),
{
    if es.len() > 0 {
        lemma_visit_fold_bound(dir, es.drop_last(), already);
    }
}

/// Where the walk is: the directories still to visit (relative; the last is
/// next) and the files gathered.
pub struct WalkSt {
    pub stack: Seq<Seq<char>>,
    pub files: Seq<Seq<char>>,
}

/// The listing of one directory, as the walk reads it.
pub open spec fn listing_of(o: Option<Vec<(String, Option<EntryKind>)>>) -> Option<Seq<(Seq<char>, Option<EntryKind>)>> {
    match o {
        Some(v) => Some(entries_view(v@)),
        None => None,
    }
}

/// One step of the walk: the last directory is taken off the stack and its
/// listing `a` (none: it could not be read) visited; the directories found go
/// on the stack, the files to the gathered ones.
pub open spec fn walk_step(st: WalkSt, a: Option<Seq<(Seq<char>, Option<EntryKind>)>>, already: int) -> Result<WalkSt, Seq<char>> {
    let rest = st.stack.drop_last();
    match a {
        None => Ok(WalkSt { stack: rest, files: st.files }),
        Some(es) => match visit_fold(st.stack.last(), es, already + st.files.len()) {
            Err(e) => Err(e),
            Ok(v) => Ok(WalkSt { stack: rest + v.dirs, files: st.files + v.files }),
        },
    }
}

/// The walk from `st0` given the listings of the directories in the order
/// they are taken off the stack.
pub open spec fn walk_run(st0: WalkSt, answers: Seq<Option<Seq<(Seq<char>, Option<EntryKind>)>>>, already: int) -> Result<
    WalkSt,
    Seq<char>,
>
    decreases answers.len(),
{
    if answers.len() == 0 {
        Ok(st0)
    } else {
        match walk_run(st0, answers.drop_last(), already) {
            Err(e) => Err(e),
            Ok(s) => if s.stack.len() == 0 {
                Ok(s)
            } else {
                walk_step(s, answers.last(), already)
            },
        }
    }
}

/// The path of the directory `rel` under `root`.
pub open spec fn dir_path(root: Seq<char>, rel: Seq<char>) -> Seq<char> {
    if rel.len() == 0 {
        root
    } else {
        join_raw(root, rel)
    }
}

/// `list` gave `a` as the entries of `p`.
pub open spec fn entries_listed<L: Fn(String) -> Option<Vec<(String, Option<EntryKind>)>>>(
    list: L,
    p: Seq<char>,
    a: Option<Seq<(Seq<char>, Option<EntryKind>)>>,
) -> bool {
    exists|x: String, o: Option<Vec<(String, Option<EntryKind>)>>| #[trigger] list.ensures((x,), o) && x@ == p && listing_of(o) == a
}

/// The `i`-th listing was the answer for the directory then on top of the stack.
pub open spec fn answer_ok<L: Fn(String) -> Option<Vec<(String, Option<EntryKind>)>>>(
    list: L,
    root: Seq<char>,
    st0: WalkSt,
    answers: Seq<Option<Seq<(Seq<char>, Option<EntryKind>)>>>,
    already: int,
    i: int,
) -> bool {
    &&& walk_run(st0, answers.take(i), already) is Ok
    &&& walk_run(st0, answers.take(i), already)->Ok_0.stack.len() > 0
    &&& entries_listed(list, dir_path(root, walk_run(st0, answers.take(i), already)->Ok_0.stack.last()), answers[i])
}

/// Listings given up after this many directories (a bound no walk reaches).
pub const WALK_FUEL: u64 = 0xffff_ffff_ffff_ffff;

/// How a walk ended: its error, or the files gathered once no directory
/// was left.
pub open spec fn walk_outcome(
    st0: WalkSt,
    answers: Seq<Option<Seq<(Seq<char>, Option<EntryKind>)>>>,
    already: int,
    r: Result<Seq<Seq<char>>, Seq<char>>,
) -> bool {
    match walk_run(st0, answers, already) {
        Err(e) => r == Err::<Seq<Seq<char>>, Seq<char>>(e),
        Ok(s) => (s.stack.len() == 0 || answers.len() == WALK_FUEL) && r == Ok::<Seq<Seq<char>>, Seq<char>>(s.files),
    }
}

/// `kind_of` gave `k` for `p`.
pub open spec fn kind_answered<K: Fn(String) -> Option<EntryKind>>(kind_of: K, p: Seq<char>, k: Option<EntryKind>) -> bool {
    exists|x: String| x@ == p && #[trigger] kind_of.ensures((x,), k)
}

pub open spec fn strs_result(r: Result<Vec<String>, String>) -> Result<Seq<Seq<char>>, Seq<char>> {
    match r {
        Ok(v) => Ok(strs(v@)),
        Err(e) => Err(e@),
    }
}

/// What gathering the files under `prefix` gives: nothing for a missing path
/// or a link; the path itself for a file; for a directory, the files of a
/// depth-first walk below it (`WalkSt` and `walk_run`).
pub open spec fn candidates_outcome<
    K: Fn(String) -> Option<EntryKind>,
    L: Fn(String) -> Option<Vec<(String, Option<EntryKind>)>>,
>(kind_of: K, list: L, root: Seq<char>, prefix: Seq<char>, already: int, r: Result<Seq<Seq<char>>, Seq<char>>) -> bool {
    exists|k: Option<EntryKind>|
        #[trigger] kind_answered(kind_of, dir_path(root, prefix), k) && {
            let (rel, what) = start_spec(prefix, k);
            if what == 0 {
                r == Ok::<Seq<Seq<char>>, Seq<char>>(seq![])
            } else if what == 1 {
                r == Ok::<Seq<Seq<char>>, Seq<char>>(seq![rel])
            } else {
                exists|answers: Seq<Option<Seq<(Seq<char>, Option<EntryKind>)>>>|
                    #[trigger] walk_outcome(WalkSt { stack: seq![rel], files: seq![] }, answers, already, r) && forall|
                        i: int,
                    |
                        0 <= i < answers.len() ==> #[trigger] answer_ok(
                            list,
                            root,
                            WalkSt { stack: seq![rel], files: seq![] },
                            answers,
                            already,
                            i,
                        )
            }
        }
}

/// The files under the allow-list prefix `prefix` of the tree at `root`,
/// relative to `root`. `kind_of` tells what a path is without following
/// links; `list` lists a directory with the kind of each entry (none when it
/// cannot be read). `already` files were gathered before.
pub fn collect_candidates<K: Fn(String) -> Option<EntryKind>, L: Fn(String) -> Option<Vec<(String, Option<EntryKind>)>>>(
    kind_of: &K,
    list: &L,
    root: &str,
    prefix: &str,
    already: usize,
) -> (r: Result<Vec<String>, String>)
    requires
        forall|x: String| kind_of.requires((x,)),
        forall|x: String| list.requires((x,)),
    ensures
        candidates_outcome(*kind_of, *list, root@, prefix@, already as int, strs_result(r)),
{
    let rc = chars_of(root);
    let pc = chars_of(prefix);
    let base = if pc.len() == 0 {
        string_of(&rc)
    } else {
        string_of(&join_raw_chars(&rc, &pc))
    };
    let ghost bv = base;
    let k = kind_of(base);
    assert(kind_answered(*kind_of, dir_path(root@, prefix@), k)) by {
        assert(kind_of.ensures((bv,), k));
    }
    let rel0 = match walk_start(prefix, k) {
        WalkStart::Nothing => {
            let v: Vec<String> = Vec::new();
            assert(strs(v@) =~= Seq::<Seq<char>>::empty());
            return Ok(v);
        },
        WalkStart::File(rel) => {
            let v = vec![rel];
            assert(strs(v@) =~= seq![start_spec(prefix@, k).0]);
            return Ok(v);
        },
        WalkStart::Dir(rel) => rel,
    };
    let ghost rel0v = rel0@;
    let ghost st0 = WalkSt { stack: seq![rel0v], files: seq![] };
    assert(start_spec(prefix@, k) == (rel0v, 2int));
    let mut stack: Vec<String> = vec![rel0];
    assert(strs(stack@) =~= st0.stack);
    let mut files: Vec<String> = Vec::new();
    assert(strs(files@) =~= st0.files);
    let ghost mut answers: Seq<Option<Seq<(Seq<char>, Option<EntryKind>)>>> = seq![];
    let mut fuel: u64 = WALK_FUEL;
    while stack.len() > 0 && fuel > 0
        invariant
            forall|x: String| list.requires((x,)),
            rc@ == root@,
            kind_answered(*kind_of, dir_path(root@, prefix@), k),
            start_spec(prefix@, k) == (rel0v, 2int),
            st0 == (WalkSt { stack: seq![rel0v], files: seq![] }),
            walk_run(st0, answers, already as int) == Ok::<WalkSt, Seq<char>>(
                WalkSt { stack: strs(stack@), files: strs(files@) },
            ),
            forall|i: int| 0 <= i < answers.len() ==> #[trigger] answer_ok(*list, root@, st0, answers, already as int, i),
            answers.len() + fuel == WALK_FUEL,
            files@.len() == 0 || already + files@.len() <= MAX_SCAN_FILES,
        decreases fuel,
    {
        let ghost before = answers;
        let ghost sv = WalkSt { stack: strs(stack@), files: strs(files@) };
        let dir = stack.pop().unwrap();
        assert(strs(stack@) == sv.stack.drop_last());
        assert(dir@ == sv.stack.last());
        let dc = chars_of(dir.as_str());
        let path = if dc.len() == 0 {
            string_of(&rc)
        } else {
            string_of(&join_raw_chars(&rc, &dc))
        };
        let ghost pv = path;
        assert(pv@ == dir_path(root@, sv.stack.last()));
        let got = list(path);
        let ghost a = listing_of(got);
        proof {
            answers = before.push(a);
            assert(answers.drop_last() == before);
            assert(answers.take(before.len() as int) == before);
            assert(entries_listed(*list, dir_path(root@, sv.stack.last()), a)) by {
                assert(list.ensures((pv,), got));
            }
            assert forall|i: int| 0 <= i < answers.len() implies #[trigger] answer_ok(*list, root@, st0, answers, already as int, i) by {
                if i < before.len() {
                    assert(answers.take(i) == before.take(i));
                    assert(answers[i] == before[i]);
                    assert(answer_ok(*list, root@, st0, before, already as int, i));
                }
            }
        }
        let cnt = if files.len() == 0 {
            already
        } else {
            already + files.len()
        };
        match got {
            None => {
                assert(walk_run(st0, answers, already as int) == walk_step(sv, a, already as int));
                assert(strs(stack@) =~= sv.stack.drop_last());
            },
            Some(es) => {
                let mut found: Vec<String> = Vec::new();
                let mut dirs: Vec<String> = Vec::new();
                let res = visit_entries(dir.as_str(), &es, cnt, &mut found, &mut dirs);
                assert(walk_run(st0, answers, already as int) == walk_step(sv, a, already as int));
                match res {
                    Err(e) => {
                        proof {
                            assert(strs(found@) =~= Seq::<Seq<char>>::empty() + strs(found@));
                        }
                        assert(walk_outcome(st0, answers, already as int, strs_result(Err(e))));
                        return Err(e);
                    },
                    Ok(()) => {
                        let ghost v = visit_fold(dir@, entries_view(es@), cnt as int)->Ok_0;
                        proof {
                            lemma_visit_fold_bound(dir@, entries_view(es@), cnt as int);
                        }
                        let ghost fb = strs(files@);
                        let ghost sb = strs(stack@);
                        let mut f2 = found;
                        files.append(&mut f2);
                        let mut d2 = dirs;
                        stack.append(&mut d2);
                        assert(strs(files@) =~= fb + v.files);
                        assert(strs(stack@) =~= sb + v.dirs);
                    },
                }
            },
        }
        fuel = fuel - 1;
    }
    assert(walk_outcome(st0, answers, already as int, strs_result(Ok(files))));
    Ok(files)
}

} // verus!
