//! Finding repositories under a workspace directory: the root itself, or
//! repositories one or two levels down, each with what detection suggests.

use vstd::prelude::*;
use crate::config::strs;
use crate::detect::{
    detect, detect_outcome, detect_view, listed, ready, subdirs_of, suggestions_view, visible_subdirs, DetectResultV,
    ScannedRepo, SuggestionV, MAX_SCAN_RESULTS, MAX_VISITED_DIRS,
};
use crate::paths::{join_raw, join_raw_chars, split_path, split_path_exec};
use crate::image::lower_vec;
use crate::text::{chars_of, lemma_not_lt_trans, lemma_seq_lt_total, lower, lt_chars, owned, seq_lt, string_of};
use crate::worktree::answered;

verus! {

pub open spec fn git_marker(dir: Seq<char>) -> Seq<char> {
    join_raw(dir, ".git"@)
}

/// A repository is a directory holding `.git` (a directory, or a file in a
/// linked work tree).
pub fn is_git_repo<P: Fn(String) -> bool>(present: &P, dir: &str) -> (r: bool)
    requires
        forall|x: String| present.requires((x,)),
    ensures
        answered(*present, git_marker(dir@), r),
{
    let p = string_of(&join_raw_chars(&chars_of(dir), &chars_of(".git")));
    let ghost pv = p;
    let r = present(p);
    assert(present.ensures((pv,), r));
    r
}

/// The last named part of a path (`Path::file_name`); empty when there is
/// none or it is `..`.
pub open spec fn file_name_of(p: Seq<char>) -> Seq<char> {
    let ps = split_path(p).2;
    if ps.len() == 0 || ps.last() == ".."@ {
        seq![]
    } else {
        ps.last()
    }
}

pub fn file_name(p: &str) -> (r: String)
    ensures
        r@ == file_name_of(p@),
{
    let (_, _, ps) = split_path_exec(&chars_of(p));
    let ghost pv = ps@.map_values(|x: Vec<char>| x@);
    if ps.len() == 0 {
        return String::new();
    }
    let last = &ps[ps.len() - 1];
    assert(pv.last() == last@);
    if crate::text::vec_eq(last, &chars_of("..")) {
        return String::new();
    }
    string_of(last)
}

pub struct ScannedRepoV {
    pub name: Seq<char>,
    pub root_dir: Seq<char>,
    pub ecosystems: Seq<Seq<char>>,
    pub suggestions: Seq<SuggestionV>,
}

pub open spec fn repo_view(r: ScannedRepo) -> ScannedRepoV {
    ScannedRepoV {
        name: r.name@,
        root_dir: r.root_dir@,
        ecosystems: strs(r.ecosystems@),
        suggestions: suggestions_view(r.suggestions@),
    }
}

pub open spec fn repos_view(v: Seq<ScannedRepo>) -> Seq<ScannedRepoV> {
    v.map_values(|r: ScannedRepo| repo_view(r))
}

/// The repository at `p`, as scanned: its folder name, its path, and what
/// detection found in it.
pub open spec fn repo_of<
    D: Fn(String) -> bool,
    L: Fn(String) -> Option<Vec<(String, bool)>>,
    Z: Fn(String) -> Option<u64>,
    T: Fn(String) -> Option<String>,
>(is_file: D, list_dir: L, size_of: Z, read: T, p: Seq<char>, rv: ScannedRepoV) -> bool {
    &&& rv.name == file_name_of(p)
    &&& rv.root_dir == p
    &&& exists|d: DetectResultV|
        #[trigger] detect_outcome(is_file, list_dir, size_of, read, p, d) && rv.ecosystems == d.ecosystems
            && rv.suggestions == d.suggestions
}

pub fn scanned_repo<
    D: Fn(String) -> bool,
    L: Fn(String) -> Option<Vec<(String, bool)>>,
    Z: Fn(String) -> Option<u64>,
    T: Fn(String) -> Option<String>,
>(is_file: &D, list_dir: &L, size_of: &Z, read: &T, dir: &str) -> (r: ScannedRepo)
    requires
        ready(*is_file),
        forall|x: String| list_dir.requires((x,)),
        forall|x: String| size_of.requires((x,)),
        forall|x: String| read.requires((x,)),
    ensures
        repo_of(*is_file, *list_dir, *size_of, *read, dir@, repo_view(r)),
{
    let res = detect(is_file, list_dir, size_of, read, dir);
    let ghost dv = detect_view(res);
    let r = ScannedRepo { name: file_name(dir), root_dir: owned(dir), ecosystems: res.ecosystems, suggestions: res.suggestions };
    assert(detect_outcome(*is_file, *list_dir, *size_of, *read, dir@, dv));
    r
}

/// The repositories among the visits, in order.
pub open spec fn found_of(v: Seq<Option<ScannedRepoV>>) -> Seq<ScannedRepoV>
    decreases v.len(),
{
    if v.len() == 0 {
        seq![]
    } else {
        let f = found_of(v.drop_last());
        match v.last() {
            Some(r) => f.push(r),
            None => f,
        }
    }
}

/// The first-level candidates: `root` joined with each of its subdirectory names.
pub open spec fn first_level(root: Seq<char>, names: Seq<Seq<char>>) -> Seq<Seq<char>> {
    names.map_values(|a: Seq<char>| join_raw(root, a))
}

/// Among the first `k` first-level candidates, those that were not
/// repositories, in order: the directories looked into next.
pub open spec fn parents_upto(c1: Seq<Seq<char>>, v: Seq<Option<ScannedRepoV>>, k: nat) -> Seq<Seq<char>>
    decreases k,
{
    if k == 0 {
        seq![]
    } else {
        let p = parents_upto(c1, v, (k - 1) as nat);
        if v[k - 1] is None {
            p.push(c1[k - 1])
        } else {
            p
        }
    }
}

pub open spec fn parents_of(c1: Seq<Seq<char>>, v: Seq<Option<ScannedRepoV>>) -> Seq<Seq<char>> {
    parents_upto(c1, v, c1.len())
}

/// The second-level candidates: each listed parent joined with each of the
/// subdirectory names it was listed with.
pub open spec fn second_level(ps: Seq<Seq<char>>, kids: Seq<Seq<Seq<char>>>) -> Seq<Seq<char>>
    decreases kids.len(),
{
    if kids.len() == 0 {
        seq![]
    } else {
        second_level(ps, kids.drop_last()) + first_level(ps[kids.len() - 1], kids.last())
    }
}

/// Every candidate in the order the scan looks at them.
pub open spec fn candidates(root: Seq<char>, names: Seq<Seq<char>>, kids: Seq<Seq<Seq<char>>>, v: Seq<Option<ScannedRepoV>>) -> Seq<Seq<char>> {
    let c1 = first_level(root, names);
    c1 + second_level(parents_of(c1, v), kids)
}

/// The scan stops before a candidate once it has looked at
/// `MAX_VISITED_DIRS` of them or found `MAX_SCAN_RESULTS` repositories.
pub open spec fn must_stop(v: Seq<Option<ScannedRepoV>>) -> bool {
    v.len() >= MAX_VISITED_DIRS || found_of(v).len() >= MAX_SCAN_RESULTS
}

/// One listing of `p` gave `names` as its visible subdirectories.
pub open spec fn listed_as<L: Fn(String) -> Option<Vec<(String, bool)>>>(list_dir: L, p: Seq<char>, names: Seq<Seq<char>>) -> bool {
    exists|o: Option<Seq<(Seq<char>, bool)>>| #[trigger] listed(list_dir, p, o) && names == subdirs_of(o)
}

/// Candidate `p` was asked about and answered as `a`: a repository, with what
/// detection found in it, or not one.
pub open spec fn visit_ok<
    P: Fn(String) -> bool,
    D: Fn(String) -> bool,
    L: Fn(String) -> Option<Vec<(String, bool)>>,
    Z: Fn(String) -> Option<u64>,
    T: Fn(String) -> Option<String>,
>(present: P, is_file: D, list_dir: L, size_of: Z, read: T, p: Seq<char>, a: Option<ScannedRepoV>) -> bool {
    &&& answered(present, git_marker(p), a is Some)
    &&& a is Some ==> repo_of(is_file, list_dir, size_of, read, p, a->0)
}

/// A run of the scan below a root that is not itself a repository: `names`
/// are the root's visible subdirectories; `kids[k]` those of the `k`-th
/// first-level directory that is not a repository; `v` the answers for the
/// candidates looked at, in order. The first level is looked at in full
/// before the second; a directory is listed when the scan reaches it; the
/// scan goes on until the candidates run out or it must stop.
pub open spec fn scan_trace<
    P: Fn(String) -> bool,
    D: Fn(String) -> bool,
    L: Fn(String) -> Option<Vec<(String, bool)>>,
    Z: Fn(String) -> Option<u64>,
    T: Fn(String) -> Option<String>,
>(
    present: P,
    is_file: D,
    list_dir: L,
    size_of: Z,
    read: T,
    root: Seq<char>,
    names: Seq<Seq<char>>,
    kids: Seq<Seq<Seq<char>>>,
    v: Seq<Option<ScannedRepoV>>,
) -> bool {
    let c1 = first_level(root, names);
    let ps = parents_of(c1, v);
    let cs = candidates(root, names, kids, v);
    &&& listed_as(list_dir, root, names)
    &&& kids.len() <= ps.len()
    &&& forall|k: int| 0 <= k < kids.len() ==> #[trigger] listed_as(list_dir, ps[k], kids[k])
    &&& v.len() <= cs.len()
    &&& forall|i: int| 0 <= i < v.len() ==> #[trigger] visit_ok(present, is_file, list_dir, size_of, read, cs[i], v[i])
    &&& v.len() > 0 ==> !must_stop(v.drop_last())
    &&& v.len() < c1.len() ==> kids.len() == 0 && must_stop(v)
    &&& c1.len() <= v.len() < cs.len() ==> kids.len() > 0 && must_stop(v) && c1.len() + second_level(
        ps,
        kids.drop_last(),
    ).len() <= v.len()
    &&& v.len() == cs.len() ==> kids.len() == ps.len()
}

/// What the scan of `root` found: the root alone when it is a repository;
/// otherwise the repositories among the candidates of a run of the scan.
pub open spec fn collect_scan_outcome<
    P: Fn(String) -> bool,
    D: Fn(String) -> bool,
    L: Fn(String) -> Option<Vec<(String, bool)>>,
    Z: Fn(String) -> Option<u64>,
    T: Fn(String) -> Option<String>,
>(present: P, is_file: D, list_dir: L, size_of: Z, read: T, root: Seq<char>, r: Seq<ScannedRepoV>) -> bool {
    ||| answered(present, git_marker(root), true) && r.len() == 1 && repo_of(is_file, list_dir, size_of, read, root, r[0])
    ||| answered(present, git_marker(root), false) && exists|
        names: Seq<Seq<char>>,
        kids: Seq<Seq<Seq<char>>>,
        v: Seq<Option<ScannedRepoV>>,
    | #[trigger] scan_trace(present, is_file, list_dir, size_of, read, root, names, kids, v) && r == found_of(v)
}

/// A scan looks at no more than `MAX_VISITED_DIRS` directories and reports
/// no more than `MAX_SCAN_RESULTS` repositories.
pub proof fn lemma_scan_is_bounded<
    P: Fn(String) -> bool,
    D: Fn(String) -> bool,
    L: Fn(String) -> Option<Vec<(String, bool)>>,
    Z: Fn(String) -> Option<u64>,
    T: Fn(String) -> Option<String>,
>(
    present: P,
    is_file: D,
    list_dir: L,
    size_of: Z,
    read: T,
    root: Seq<char>,
    names: Seq<Seq<char>>,
    kids: Seq<Seq<Seq<char>>>,
    v: Seq<Option<ScannedRepoV>>,
)
    requires
        scan_trace(present, is_file, list_dir, size_of, read, root, names, kids, v),
    ensures
        v.len() <= MAX_VISITED_DIRS,
        found_of(v).len() <= MAX_SCAN_RESULTS,
{
    if v.len() > 0 {
        assert(found_of(v).len() <= found_of(v.drop_last()).len() + 1);
    }
}

proof fn lemma_parents_upto_prefix(c1: Seq<Seq<char>>, v: Seq<Option<ScannedRepoV>>, w: Seq<Option<ScannedRepoV>>, k: nat)
    requires
        k <= v.len(),
        k <= w.len(),
        forall|i: int| 0 <= i < k ==> v[i] == w[i],
    ensures
        parents_upto(c1, v, k) == parents_upto(c1, w, k),
    decreases k,
{
    if k > 0 {
        lemma_parents_upto_prefix(c1, v, w, (k - 1) as nat);
    }
}

proof fn lemma_found_of_push(v: Seq<Option<ScannedRepoV>>, a: Option<ScannedRepoV>)
    ensures
        found_of(v.push(a)) == (match a {
            Some(r) => found_of(v).push(r),
            None => found_of(v),
        }),
{
    assert(v.push(a).drop_last() == v);
}

pub fn collect_scan<
    P: Fn(String) -> bool,
    D: Fn(String) -> bool,
    L: Fn(String) -> Option<Vec<(String, bool)>>,
    Z: Fn(String) -> Option<u64>,
    T: Fn(String) -> Option<String>,
>(present: &P, is_file: &D, list_dir: &L, size_of: &Z, read: &T, root: &str) -> (r: Vec<ScannedRepo>)
    requires
        forall|x: String| present.requires((x,)),
        ready(*is_file),
        forall|x: String| list_dir.requires((x,)),
        forall|x: String| size_of.requires((x,)),
        forall|x: String| read.requires((x,)),
    ensures
        collect_scan_outcome(*present, *is_file, *list_dir, *size_of, *read, root@, repos_view(r@)),
{
    if is_git_repo(present, root) {
        let one = scanned_repo(is_file, list_dir, size_of, read, root);
        let v = vec![one];
        assert(repos_view(v@)[0] == repo_view(v@[0]));
        return v;
    }
    let mut repos: Vec<ScannedRepo> = Vec::new();
    let mut visited: usize = 0;
    let mut level1: Vec<String> = Vec::new();
    let names = visible_subdirs(list_dir, root);
    let ghost o1 = choose|o: Option<Seq<(Seq<char>, bool)>>| #[trigger] listed(*list_dir, root@, o) && strs(names@) == subdirs_of(o);
    let ghost nv = strs(names@);
    let ghost c1 = first_level(root@, nv);
    let ghost mut v: Seq<Option<ScannedRepoV>> = seq![];
    let ghost kids0: Seq<Seq<Seq<char>>> = seq![];
    for i in 0..names.len()
        invariant
            forall|x: String| present.requires((x,)),
            ready(*is_file),
            forall|x: String| list_dir.requires((x,)),
            forall|x: String| size_of.requires((x,)),
            forall|x: String| read.requires((x,)),
            answered(*present, git_marker(root@), false),
            listed(*list_dir, root@, o1),
            nv == strs(names@),
            nv == subdirs_of(o1),
            c1 == first_level(root@, nv),
            kids0.len() == 0,
            v.len() == i,
            visited == i,
            repos_view(repos@) == found_of(v),
            strs(level1@) == parents_upto(c1, v, i as nat),
            forall|k: int| 0 <= k < v.len() ==> #[trigger] visit_ok(*present, *is_file, *list_dir, *size_of, *read, c1[k], v[k]),
            v.len() > 0 ==> !must_stop(v.drop_last()),
    {
        if visited >= MAX_VISITED_DIRS || repos.len() >= MAX_SCAN_RESULTS {
            proof {
                assert(candidates(root@, nv, kids0, v) == c1 + second_level(parents_of(c1, v), kids0));
                assert(candidates(root@, nv, kids0, v) =~= c1);
                assert(scan_trace(*present, *is_file, *list_dir, *size_of, *read, root@, nv, kids0, v));
            }
            return repos;
        }
        visited = visited + 1;
        assert(nv[i as int] == names@[i as int]@);
        let p = string_of(&join_raw_chars(&chars_of(root), &chars_of(names[i].as_str())));
        assert(p@ == c1[i as int]);
        let ghost vo = v;
        if is_git_repo(present, p.as_str()) {
            let one = scanned_repo(is_file, list_dir, size_of, read, p.as_str());
            let ghost ov = repos_view(repos@);
            let ghost rv = repo_view(one);
            repos.push(one);
            assert(repos_view(repos@) =~= ov.push(rv));
            proof {
                v = vo.push(Some(rv));
                lemma_found_of_push(vo, Some(rv));
                assert(visit_ok(*present, *is_file, *list_dir, *size_of, *read, c1[i as int], Some(rv)));
            }
        } else {
            let ghost lv = strs(level1@);
            level1.push(p);
            assert(strs(level1@) =~= lv.push(c1[i as int]));
            proof {
                v = vo.push(None);
                lemma_found_of_push(vo, None);
                assert(visit_ok(*present, *is_file, *list_dir, *size_of, *read, c1[i as int], None));
            }
        }
        proof {
            assert(v.drop_last() == vo);
            lemma_parents_upto_prefix(c1, vo, v, i as nat);
            assert forall|k: int| 0 <= k < v.len() implies #[trigger] visit_ok(*present, *is_file, *list_dir, *size_of, *read, c1[k], v[k]) by {
                if k < i {
                    assert(v[k] == vo[k]);
                }
            }
        }
    }
    let ghost ps = parents_of(c1, v);
    assert(strs(level1@) == ps);
    let ghost mut kids: Seq<Seq<Seq<char>>> = seq![];
    for t in 0..level1.len()
        invariant
            forall|x: String| present.requires((x,)),
            ready(*is_file),
            forall|x: String| list_dir.requires((x,)),
            forall|x: String| size_of.requires((x,)),
            forall|x: String| read.requires((x,)),
            answered(*present, git_marker(root@), false),
            listed(*list_dir, root@, o1),
            nv == subdirs_of(o1),
            c1 == first_level(root@, nv),
            c1.len() <= v.len(),
            ps == parents_of(c1, v),
            strs(level1@) == ps,
            kids.len() == t,
            v.len() == c1.len() + second_level(ps, kids).len(),
            visited == v.len(),
            repos_view(repos@) == found_of(v),
            forall|k: int| 0 <= k < kids.len() ==> #[trigger] listed_as(*list_dir, ps[k], kids[k]),
            forall|k: int|
                0 <= k < v.len() ==> #[trigger] visit_ok(
                    *present,
                    *is_file,
                    *list_dir,
                    *size_of,
                    *read,
                    (c1 + second_level(ps, kids))[k],
                    v[k],
                ),
            v.len() > 0 ==> !must_stop(v.drop_last()),
            c1.len() < v.len() ==> kids.len() > 0,
    {
        let parent = &level1[t];
        assert(parent@ == ps[t as int]);
        let kid_names = visible_subdirs(list_dir, parent.as_str());
        let ghost kv = strs(kid_names@);
        let ghost kids_before = kids;
        let ghost base = v.len();
        proof {
            kids = kids.push(kv);
            assert(kids.drop_last() == kids_before);
            assert(second_level(ps, kids) == second_level(ps, kids_before) + first_level(ps[t as int], kv));
            assert forall|k: int| 0 <= k < v.len() implies #[trigger] visit_ok(
                *present,
                *is_file,
                *list_dir,
                *size_of,
                *read,
                (c1 + second_level(ps, kids))[k],
                v[k],
            ) by {
                assert((c1 + second_level(ps, kids))[k] == (c1 + second_level(ps, kids_before))[k]);
            }
            assert forall|k: int| 0 <= k < kids.len() implies #[trigger] listed_as(*list_dir, ps[k], kids[k]) by {
                if k < t {
                    assert(kids[k] == kids_before[k]);
                } else {
                    assert(kids[k] == kv);
                }
            }
        }
        for j in 0..kid_names.len()
            invariant
                forall|x: String| present.requires((x,)),
                ready(*is_file),
                forall|x: String| list_dir.requires((x,)),
                forall|x: String| size_of.requires((x,)),
                forall|x: String| read.requires((x,)),
                answered(*present, git_marker(root@), false),
                listed(*list_dir, root@, o1),
                nv == subdirs_of(o1),
                c1 == first_level(root@, nv),
                c1.len() <= base,
                ps == parents_of(c1, v),
                strs(level1@) == ps,
                t < ps.len(),
                parent@ == ps[t as int],
                kv == strs(kid_names@),
                kids.len() == t + 1,
                kids.last() == kv,
                base == c1.len() + second_level(ps, kids.drop_last()).len(),
                second_level(ps, kids) == second_level(ps, kids.drop_last()) + first_level(ps[t as int], kv),
                v.len() == base + j,
                visited == v.len(),
                repos_view(repos@) == found_of(v),
                forall|k: int| 0 <= k < kids.len() ==> #[trigger] listed_as(*list_dir, ps[k], kids[k]),
                forall|k: int|
                    0 <= k < v.len() ==> #[trigger] visit_ok(
                        *present,
                        *is_file,
                        *list_dir,
                        *size_of,
                        *read,
                        (c1 + second_level(ps, kids))[k],
                        v[k],
                    ),
                v.len() > 0 ==> !must_stop(v.drop_last()),
        {
            if visited >= MAX_VISITED_DIRS || repos.len() >= MAX_SCAN_RESULTS {
                proof {
                    assert(candidates(root@, nv, kids, v) == c1 + second_level(ps, kids));
                    assert(scan_trace(*present, *is_file, *list_dir, *size_of, *read, root@, nv, kids, v));
                }
                return repos;
            }
            visited = visited + 1;
            let ghost cs = c1 + second_level(ps, kids);
            assert(kv[j as int] == kid_names@[j as int]@);
            let p = string_of(&join_raw_chars(&chars_of(parent.as_str()), &chars_of(kid_names[j].as_str())));
            assert(cs[v.len() as int] == first_level(ps[t as int], kv)[j as int]);
            assert(p@ == cs[v.len() as int]);
            let ghost vo = v;
            if is_git_repo(present, p.as_str()) {
                let one = scanned_repo(is_file, list_dir, size_of, read, p.as_str());
                let ghost ov = repos_view(repos@);
                let ghost rv = repo_view(one);
                repos.push(one);
                assert(repos_view(repos@) =~= ov.push(rv));
                proof {
                    v = vo.push(Some(rv));
                    lemma_found_of_push(vo, Some(rv));
                    assert(visit_ok(*present, *is_file, *list_dir, *size_of, *read, cs[vo.len() as int], Some(rv)));
                }
            } else {
                proof {
                    v = vo.push(None);
                    lemma_found_of_push(vo, None);
                    assert(visit_ok(*present, *is_file, *list_dir, *size_of, *read, cs[vo.len() as int], None));
                }
            }
            proof {
                assert(v.drop_last() == vo);
                lemma_parents_upto_prefix(c1, vo, v, c1.len());
                assert forall|k: int| 0 <= k < v.len() implies #[trigger] visit_ok(
                    *present,
                    *is_file,
                    *list_dir,
                    *size_of,
                    *read,
                    (c1 + second_level(ps, kids))[k],
                    v[k],
                ) by {
                    if k < vo.len() {
                        assert(v[k] == vo[k]);
                    }
                }
            }
        }
    }
    proof {
        assert(candidates(root@, nv, kids, v) == c1 + second_level(ps, kids));
        assert(scan_trace(*present, *is_file, *list_dir, *size_of, *read, root@, nv, kids, v));
    }
    repos
}

pub open spec fn repo_key(r: ScannedRepoV) -> Seq<char> {
    lower(r.root_dir)
}

/// `x` placed after every repository whose key is not greater (stable).
pub open spec fn insert_repo(s: Seq<ScannedRepoV>, x: ScannedRepoV) -> Seq<ScannedRepoV>
    decreases s.len(),
{
    if s.len() == 0 {
        seq![x]
    } else if seq_lt(repo_key(x), repo_key(s.last())) {
        insert_repo(s.drop_last(), x).push(s.last())
    } else {
        s.push(x)
    }
}

/// Stable sort by lower-cased path (`sort_by_key`).
pub open spec fn sort_repos(s: Seq<ScannedRepoV>) -> Seq<ScannedRepoV>
    decreases s.len(),
{
    if s.len() == 0 {
        s
    } else {
        insert_repo(sort_repos(s.drop_last()), s.last())
    }
}

proof fn lemma_insert_repo_at(s: Seq<ScannedRepoV>, x: ScannedRepoV, p: int)
    requires
        0 <= p <= s.len(),
        forall|j: int| p <= j < s.len() ==> seq_lt(repo_key(x), repo_key(#[trigger] s[j])),
        p == 0 || !seq_lt(repo_key(x), repo_key(s[p - 1])),
    ensures
        insert_repo(s, x) == s.take(p).push(x) + s.skip(p),
    decreases s.len() - p,
{
    if p == s.len() {
        assert(s.skip(p).len() == 0);
        if s.len() > 0 {
            assert(s.take(p) == s);
        }
        assert(s.take(p).push(x) + s.skip(p) =~= s.push(x));
    } else {
        assert(seq_lt(repo_key(x), repo_key(s[s.len() - 1])));
        lemma_insert_repo_at(s.drop_last(), x, p);
        assert(s.drop_last().take(p) == s.take(p));
        assert(s.take(p).push(x) + s.skip(p) =~= (s.drop_last().take(p).push(x) + s.drop_last().skip(p)).push(s.last()));
    }
}

/// The repositories of `s` come in order of their lower-cased paths.
pub open spec fn repos_in_order(s: Seq<ScannedRepoV>) -> bool {
    forall|i: int, j: int| 0 <= i < j < s.len() ==> !seq_lt(repo_key(#[trigger] s[j]), repo_key(#[trigger] s[i]))
}

proof fn lemma_insert_repo_in_order(s: Seq<ScannedRepoV>, x: ScannedRepoV)
    requires
        repos_in_order(s),
    ensures
        repos_in_order(insert_repo(s, x)),
        insert_repo(s, x).to_multiset() =~= s.to_multiset().insert(x),
        forall|k: int| 0 <= k < insert_repo(s, x).len() ==> #[trigger] insert_repo(s, x)[k] == x || s.contains(
            insert_repo(s, x)[k],
        ),
    decreases s.len(),
{
    broadcast use vstd::seq_lib::group_to_multiset_ensures;

    let r = insert_repo(s, x);
    if s.len() == 0 {
        assert(r =~= Seq::<ScannedRepoV>::empty().push(x));
    } else if seq_lt(repo_key(x), repo_key(s.last())) {
        let d = s.drop_last();
        let last = s.last();
        assert(repos_in_order(d)) by {
            assert forall|i: int, j: int| 0 <= i < j < d.len() implies !seq_lt(
                repo_key(#[trigger] d[j]),
                repo_key(#[trigger] d[i]),
            ) by {
                assert(d[j] == s[j] && d[i] == s[i]);
            }
        }
        lemma_insert_repo_in_order(d, x);
        let r1 = insert_repo(d, x);
        assert(r == r1.push(last));
        lemma_seq_lt_total(repo_key(x), repo_key(last));
        assert forall|k: int| 0 <= k < r1.len() implies !seq_lt(repo_key(last), repo_key(#[trigger] r1[k])) by {
            if r1[k] != x {
                assert(d.contains(r1[k]));
                let m = choose|m: int| 0 <= m < d.len() && d[m] == r1[k];
                assert(s[m] == d[m]);
                assert(s[s.len() - 1] == last);
            }
        }
        assert forall|i: int, j: int| 0 <= i < j < r.len() implies !seq_lt(
            repo_key(#[trigger] r[j]),
            repo_key(#[trigger] r[i]),
        ) by {
            if j == r.len() - 1 {
                assert(r[j] == last);
                assert(r[i] == r1[i]);
            } else {
                assert(r[j] == r1[j] && r[i] == r1[i]);
            }
        }
        assert forall|k: int| 0 <= k < r.len() implies #[trigger] r[k] == x || s.contains(r[k]) by {
            if k == r.len() - 1 {
                assert(s[s.len() - 1] == r[k]);
            } else {
                assert(r[k] == r1[k]);
                if r1[k] != x {
                    let m = choose|m: int| 0 <= m < d.len() && d[m] == r1[k];
                    assert(s[m] == r[k]);
                }
            }
        }
        assert(s =~= d.push(last));
        assert(r.to_multiset() =~= r1.to_multiset().insert(last));
        assert(s.to_multiset() =~= d.to_multiset().insert(last));
    } else {
        assert(r == s.push(x));
        assert forall|i: int, j: int| 0 <= i < j < r.len() implies !seq_lt(
            repo_key(#[trigger] r[j]),
            repo_key(#[trigger] r[i]),
        ) by {
            if j == r.len() - 1 {
                assert(r[j] == x && r[i] == s[i]);
                if i < s.len() - 1 {
                    assert(!seq_lt(repo_key(s[s.len() - 1]), repo_key(s[i])));
                } else {
                    lemma_seq_lt_total(repo_key(s[i]), repo_key(s[i]));
                }
                lemma_not_lt_trans(repo_key(s[i]), repo_key(s[s.len() - 1]), repo_key(x));
            } else {
                assert(r[j] == s[j] && r[i] == s[i]);
            }
        }
        assert forall|k: int| 0 <= k < r.len() implies #[trigger] r[k] == x || s.contains(r[k]) by {
            if k < s.len() {
                assert(r[k] == s[k]);
            }
        }
    }
}

/// The scan's ordering puts the repositories in order of their lower-cased
/// paths and keeps every one it was given, as often as it was given.
pub proof fn lemma_sort_repos_in_order(s: Seq<ScannedRepoV>)
    ensures
        repos_in_order(sort_repos(s)),
        sort_repos(s).to_multiset() =~= s.to_multiset(),
    decreases s.len(),
{
    broadcast use vstd::seq_lib::group_to_multiset_ensures;

    if s.len() == 0 {
        assert(s.to_multiset() =~= vstd::multiset::Multiset::empty());
    } else {
        lemma_sort_repos_in_order(s.drop_last());
        lemma_insert_repo_in_order(sort_repos(s.drop_last()), s.last());
        assert(s =~= s.drop_last().push(s.last()));
    }
}

/// The repositories under `root` (see `collect_scan`), sorted by
/// lower-cased path.
pub fn scan<
    P: Fn(String) -> bool,
    D: Fn(String) -> bool,
    L: Fn(String) -> Option<Vec<(String, bool)>>,
    Z: Fn(String) -> Option<u64>,
    T: Fn(String) -> Option<String>,
>(present: &P, is_file: &D, list_dir: &L, size_of: &Z, read: &T, root: &str) -> (r: Vec<ScannedRepo>)
    requires
        forall|x: String| present.requires((x,)),
        ready(*is_file),
        forall|x: String| list_dir.requires((x,)),
        forall|x: String| size_of.requires((x,)),
        forall|x: String| read.requires((x,)),
    ensures
        exists|u: Seq<ScannedRepoV>|
            #[trigger] collect_scan_outcome(*present, *is_file, *list_dir, *size_of, *read, root@, u) && repos_view(r@)
                == sort_repos(u),
{
    let found = collect_scan(present, is_file, list_dir, size_of, read, root);
    let ghost uv = repos_view(found@);
    let mut out: Vec<ScannedRepo> = Vec::new();
    let mut keys: Vec<Vec<char>> = Vec::new();
    let n = found.len();
    for i in 0..n
        invariant
            n == found@.len(),
            uv == repos_view(found@),
            repos_view(out@) == sort_repos(uv.take(i as int)),
            keys@.len() == out@.len(),
            forall|k: int| 0 <= k < keys@.len() ==> #[trigger] keys@[k]@ == repo_key(repos_view(out@)[k]),
    {
        let x = copy_repo(&found[i]);
        assert(repo_view(x) == uv[i as int]);
        let kx = lower_vec(&chars_of(x.root_dir.as_str()));
        let ghost ov = repos_view(out@);
        let mut p = out.len();
        while p > 0 && lt_chars(&kx, &keys[p - 1])
            invariant
                p <= out@.len(),
                keys@.len() == out@.len(),
                ov == repos_view(out@),
                kx@ == repo_key(repo_view(x)),
                forall|k: int| 0 <= k < keys@.len() ==> #[trigger] keys@[k]@ == repo_key(ov[k]),
                forall|j: int| p <= j < ov.len() ==> seq_lt(kx@, repo_key(#[trigger] ov[j])),
            decreases p,
        {
            p = p - 1;
        }
        proof {
            lemma_insert_repo_at(ov, repo_view(x), p as int);
            assert(uv.take(i + 1).drop_last() == uv.take(i as int));
            assert(uv.take(i + 1).last() == uv[i as int]);
        }
        let ghost kv = keys@;
        let ghost xv = repo_view(x);
        out.insert(p, x);
        keys.insert(p, kx);
        assert(repos_view(out@) =~= ov.take(p as int).push(xv) + ov.skip(p as int));
        assert forall|k: int| 0 <= k < keys@.len() implies #[trigger] keys@[k]@ == repo_key(repos_view(out@)[k]) by {
            if k < p {
                assert(keys@[k] == kv[k]);
                assert(repos_view(out@)[k] == ov[k]);
            } else if k == p {
            } else {
                assert(keys@[k] == kv[k - 1]);
                assert(repos_view(out@)[k] == ov[k - 1]);
            }
        }
    }
    assert(uv.take(n as int) == uv);
    out
}

fn copy_repo(r: &ScannedRepo) -> (c: ScannedRepo)
    ensures
        repo_view(c) == repo_view(*r),
{
    ScannedRepo {
        name: crate::config::copy_string(&r.name),
        root_dir: crate::config::copy_string(&r.root_dir),
        ecosystems: crate::config::copy_strings(&r.ecosystems),
        suggestions: crate::detect::copy_suggestions(&r.suggestions),
    }
}

} // verus!
