//! Per-task development environments (git worktrees): parsing git's listing,
//! naming and placing environments, port leases, injected variables and the
//! allow-list of files copied into a new environment.

use vstd::prelude::*;
use crate::config::{
    copy_lease, effective_port_key_spec, leases_view, opt_str, WorktreeLease, WorktreeLeaseV,
    WorktreeSettings,
};
use crate::paths::{join_normalized, join_normalized_chars, join_raw, join_raw_chars, parts, parts_of, join_parts, join_with};
use crate::text::{
    chars_of, copy_chars, decimal, decimal_chars, extend_chars, has_prefix, is_ascii_alpha,
    is_ascii_digit, is_ctrl, is_control, is_whitespace, is_ws, lines, lines_of, lower_char, owned,
    seq_lt, lt_chars, slice_vec, sort_dedup_strs, sorted_strs, dedup_strs, starts_with, string_of,
    to_lower_char, trim, trimmed, vec_eq, contains_seq, has_seq,
};

verus! {

/// Most ports tried after the base port.
pub const PORT_RANGE: u16 = 50;

pub const MAX_COPY_FILES: usize = 200;

pub const MAX_SCAN_FILES: usize = 2000;

pub const MAX_COPY_FILE_BYTES: u64 = 20971520;

pub const MAX_COPY_TOTAL_BYTES: u64 = 209715200;

/// One entry of `git worktree list --porcelain`.
#[derive(Debug)]
pub struct WorktreeInfo {
    pub path: String,
    pub head: String,
    pub branch: Option<String>,
    /// The first entry is the main worktree.
    pub is_main: bool,
    pub is_detached: bool,
    pub is_prunable: bool,
}

pub struct WorktreeInfoV {
    pub path: Seq<char>,
    pub head: Seq<char>,
    pub branch: Option<Seq<char>>,
    pub is_main: bool,
    pub is_detached: bool,
    pub is_prunable: bool,
}

impl View for WorktreeInfo {
    type V = WorktreeInfoV;

    open spec fn view(&self) -> WorktreeInfoV {
        WorktreeInfoV {
            path: self.path@,
            head: self.head@,
            branch: opt_str(self.branch),
            is_main: self.is_main,
            is_detached: self.is_detached,
            is_prunable: self.is_prunable,
        }
    }
}

pub open spec fn infos_view(v: Seq<WorktreeInfo>) -> Seq<WorktreeInfoV> {
    v.map_values(|w: WorktreeInfo| w@)
}

/// Backslash escapes inside a quoted path: `\\` and `\"` stand for the
/// character, any other backslash stays.
pub open spec fn unescape(s: Seq<char>) -> Seq<char>
    decreases s.len(),
{
    if s.len() == 0 {
        s
    } else if s[0] != '\\' {
        seq![s[0]] + unescape(s.drop_first())
    } else if s.len() == 1 {
        seq!['\\']
    } else if s[1] == '\\' || s[1] == '"' {
        seq![s[1]] + unescape(s.skip(2))
    } else {
        seq!['\\', s[1]] + unescape(s.skip(2))
    }
}

/// A path as git prints it: trimmed, and unquoted when in double quotes.
pub open spec fn unquote_spec(raw: Seq<char>) -> Seq<char> {
    let s = trim(raw);
    if s.len() >= 2 && s[0] == '"' && s.last() == '"' {
        unescape(s.subrange(1, s.len() - 1))
    } else {
        s
    }
}

fn unquote(raw: &[char]) -> (r: Vec<char>)
    ensures
        r@ == unquote_spec(raw@),
{
    let s = trimmed(raw);
    if s.len() >= 2 && s[0] == '"' && s[s.len() - 1] == '"' {
        let inner = slice_vec(&s, 1, s.len() - 1);
        let mut out: Vec<char> = Vec::new();
        let mut i: usize = 0;
        assert(inner@.skip(0) == inner@);
        while i < inner.len()
            invariant
                i <= inner@.len(),
                out@ + unescape(inner@.skip(i as int)) == unescape(inner@),
            decreases inner@.len() - i,
        {
            let ghost rest = inner@.skip(i as int);
            let c = inner[i];
            if c != '\\' {
                out.push(c);
                assert(rest.drop_first() == inner@.skip(i + 1));
                assert(out@ + unescape(inner@.skip(i + 1)) =~= unescape(inner@));
                i = i + 1;
            } else if i + 1 == inner.len() {
                out.push('\\');
                assert(inner@.skip(i + 1).len() == 0);
                assert(out@ + unescape(inner@.skip(i + 1)) =~= unescape(inner@));
                i = i + 1;
            } else {
                let d = inner[i + 1];
                if d == '\\' || d == '"' {
                    out.push(d);
                } else {
                    out.push('\\');
                    out.push(d);
                }
                assert(rest.skip(2) == inner@.skip(i + 2));
                assert(out@ + unescape(inner@.skip(i + 2)) =~= unescape(inner@));
                i = i + 2;
            }
        }
        assert(inner@.skip(i as int).len() == 0);
        assert(out@ =~= out@ + unescape(inner@.skip(i as int)));
        out
    } else {
        s
    }
}

/// The branch of a `refs/heads/` reference; other references name no branch.
pub open spec fn branch_from_ref_spec(r: Seq<char>) -> Option<Seq<char>> {
    if starts_with(r, "refs/heads/"@) {
        Some(r.skip("refs/heads/"@.len() as int))
    } else {
        None
    }
}

fn branch_from_ref(reference: &[char]) -> (r: Option<Vec<char>>)
    ensures
        match branch_from_ref_spec(reference@) {
            Some(b) => r matches Some(v) && v@ == b,
            None => r is None,
        },
{
    let p = chars_of("refs/heads/");
    if has_prefix(reference, &p) {
        let b = slice_vec(reference, p.len(), reference.len());
        assert(b@ =~= reference@.skip(p@.len() as int));
        Some(b)
    } else {
        None
    }
}

/// `s` without any `c`.
pub open spec fn drop_char(s: Seq<char>, c: char) -> Seq<char>
    decreases s.len(),
{
    if s.len() == 0 {
        s
    } else if s.last() == c {
        drop_char(s.drop_last(), c)
    } else {
        drop_char(s.drop_last(), c).push(s.last())
    }
}

fn drop_char_vec(s: &[char], c: char) -> (r: Vec<char>)
    ensures
        r@ == drop_char(s@, c),
{
    let mut out: Vec<char> = Vec::new();
    let n = s.len();
    for i in 0..n
        invariant
            n == s@.len(),
            out@ == drop_char(s@.take(i as int), c),
    {
        assert(s@.take(i + 1).drop_last() == s@.take(i as int));
        if s[i] != c {
            out.push(s[i]);
        }
    }
    assert(s@.take(n as int) == s@);
    out
}

/// A fresh entry for a `worktree <path>` line.
pub open spec fn new_entry(line: Seq<char>, is_main: bool) -> WorktreeInfoV {
    WorktreeInfoV {
        path: unquote_spec(line.skip("worktree "@.len() as int)),
        head: Seq::empty(),
        branch: None,
        is_main,
        is_detached: false,
        is_prunable: false,
    }
}

pub open spec fn opt_entry(o: Option<WorktreeInfoV>) -> Seq<WorktreeInfoV> {
    match o {
        Some(e) => seq![e],
        None => Seq::empty(),
    }
}

/// One line of the listing applied to the entries so far and the open entry.
pub open spec fn list_step(
    st: (Seq<WorktreeInfoV>, Option<WorktreeInfoV>),
    line: Seq<char>,
) -> (Seq<WorktreeInfoV>, Option<WorktreeInfoV>) {
    let (out, cur) = st;
    if starts_with(line, "worktree "@) {
        let out2 = out + opt_entry(cur);
        (out2, Some(new_entry(line, out2.len() == 0)))
    } else {
        match cur {
            None => st,
            Some(e) => if starts_with(line, "HEAD "@) {
                (out, Some(WorktreeInfoV { head: trim(line.skip("HEAD "@.len() as int)), ..e }))
            } else if starts_with(line, "branch "@) {
                (
                    out,
                    Some(
                        WorktreeInfoV {
                            branch: branch_from_ref_spec(trim(line.skip("branch "@.len() as int))),
                            ..e
                        },
                    ),
                )
            } else if line == "detached"@ {
                (out, Some(WorktreeInfoV { is_detached: true, ..e }))
            } else if starts_with(line, "prunable"@) {
                (out, Some(WorktreeInfoV { is_prunable: true, ..e }))
            } else {
                st
            },
        }
    }
}

pub open spec fn list_fold(ls: Seq<Seq<char>>) -> (Seq<WorktreeInfoV>, Option<WorktreeInfoV>)
    decreases ls.len(),
{
    if ls.len() == 0 {
        (Seq::empty(), None)
    } else {
        list_step(list_fold(ls.drop_last()), ls.last())
    }
}

/// The entries of `git worktree list --porcelain` (carriage returns ignored).
pub open spec fn parse_worktree_list_spec(text: Seq<char>) -> Seq<WorktreeInfoV> {
    let st = list_fold(lines(drop_char(text, '\r')));
    st.0 + opt_entry(st.1)
}

fn string_of_vec(v: &Vec<char>) -> (r: String)
    ensures
        r@ == v@,
{
    string_of(v.as_slice())
}

fn push_entry(out: &mut Vec<WorktreeInfo>, cur: Option<WorktreeInfo>)
    ensures
        infos_view(final(out)@) == infos_view(old(out)@) + opt_entry(
            match cur {
                Some(e) => Some(e@),
                None => None,
            },
        ),
{
    let ghost ov = infos_view(out@);
    match cur {
        Some(e) => {
            let ghost ev = e@;
            out.push(e);
            assert(infos_view(out@) =~= ov.push(ev));
            assert(opt_entry(Some(ev)) =~= seq![ev]);
        },
        None => {
            assert(infos_view(out@) =~= ov + Seq::<WorktreeInfoV>::empty());
        },
    }
}

pub open spec fn opt_info_view(o: Option<WorktreeInfo>) -> Option<WorktreeInfoV> {
    match o {
        Some(e) => Some(e@),
        None => None,
    }
}

/// Parses `git worktree list --porcelain`: one entry per `worktree` line, the
/// first marked as the main worktree.
pub fn parse_worktree_list(text: &str) -> (r: Vec<WorktreeInfo>)
    ensures
        infos_view(r@) == parse_worktree_list_spec(text@),
{
    let clean = drop_char_vec(&chars_of(text), '\r');
    let ls = lines_of(&clean);
    let ghost lv = lines(clean@);
    let p_wt = chars_of("worktree ");
    let p_head = chars_of("HEAD ");
    let p_branch = chars_of("branch ");
    let w_detached = chars_of("detached");
    let p_prunable = chars_of("prunable");
    let mut out: Vec<WorktreeInfo> = Vec::new();
    let mut cur: Option<WorktreeInfo> = None;
    let n = ls.len();
    for i in 0..n
        invariant
            n == ls@.len(),
            n == lv.len(),
            forall|k: int| 0 <= k < n ==> #[trigger] ls@[k]@ == lv[k],
            p_wt@ == "worktree "@,
            p_head@ == "HEAD "@,
            p_branch@ == "branch "@,
            w_detached@ == "detached"@,
            p_prunable@ == "prunable"@,
            (infos_view(out@), opt_info_view(cur)) == list_fold(lv.take(i as int)),
    {
        assert(lv.take(i + 1).drop_last() == lv.take(i as int));
        assert(lv.take(i + 1).last() == lv[i as int]);
        let line = &ls[i];
        if has_prefix(line, &p_wt) {
            let prev = cur;
            push_entry(&mut out, prev);
            let path = unquote(&slice_vec(line, p_wt.len(), line.len()));
            assert(line@.subrange(p_wt@.len() as int, line@.len() as int) == line@.skip(
                "worktree "@.len() as int,
            ));
            cur = Some(
                WorktreeInfo {
                    path: string_of_vec(&path),
                    head: String::new(),
                    branch: None,
                    is_main: out.len() == 0,
                    is_detached: false,
                    is_prunable: false,
                },
            );
        } else {
            match cur {
                None => {},
                Some(mut e) => {
                    if has_prefix(line, &p_head) {
                        let h = trimmed(&slice_vec(line, p_head.len(), line.len()));
                        assert(line@.subrange(p_head@.len() as int, line@.len() as int)
                            == line@.skip("HEAD "@.len() as int));
                        e.head = string_of_vec(&h);
                    } else if has_prefix(line, &p_branch) {
                        let b = trimmed(&slice_vec(line, p_branch.len(), line.len()));
                        assert(line@.subrange(p_branch@.len() as int, line@.len() as int)
                            == line@.skip("branch "@.len() as int));
                        e.branch = match branch_from_ref(&b) {
                            Some(v) => Some(string_of_vec(&v)),
                            None => None,
                        };
                    } else if vec_eq(line, &w_detached) {
                        e.is_detached = true;
                    } else if has_prefix(line, &p_prunable) {
                        e.is_prunable = true;
                    }
                    cur = Some(e);
                },
            }
        }
    }
    assert(lv.take(n as int) == lv);
    push_entry(&mut out, cur);
    out
}

// ---------------------------------------------------------------------------
// Environment names and places

/// Characters a directory name cannot carry; they become `-`.
pub open spec fn slug_bad(c: char) -> bool {
    is_ws(c) || c == '\\' || c == '/' || c == '*' || c == '?' || c == '"' || c == ':' || c == '<'
        || c == '>' || c == '|' || c == '.'
}

/// Runs of `-` collapsed to one.
pub open spec fn collapse_dashes(s: Seq<char>) -> Seq<char>
    decreases s.len(),
{
    if s.len() == 0 {
        s
    } else {
        let p = collapse_dashes(s.drop_last());
        if s.last() == '-' && p.len() > 0 && p.last() == '-' {
            p
        } else {
            p.push(s.last())
        }
    }
}

/// `s` without trailing `-`.
pub open spec fn strip_dashes(s: Seq<char>) -> Seq<char>
    decreases s.len(),
{
    if s.len() > 0 && s.last() == '-' {
        strip_dashes(s.drop_last())
    } else {
        s
    }
}

/// Longest directory name made from a branch, in characters.
pub const SLUG_MAX: usize = 48;

/// The directory name for a branch: separators, dots and white space become
/// `-`, runs of `-` collapse, no trailing `-`, at most 48 characters, `wt` when
/// nothing is left.
pub open spec fn branch_slug_spec(branch: Seq<char>) -> Seq<char> {
    let replaced = trim(branch).map_values(|c: char| if slug_bad(c) { '-' } else { c });
    let a = strip_dashes(collapse_dashes(replaced));
    let b = if a.len() > 48 {
        strip_dashes(a.take(48))
    } else {
        a
    };
    if b.len() == 0 {
        "wt"@
    } else {
        b
    }
}

fn strip_dashes_vec(s: &mut Vec<char>)
    ensures
        final(s)@ == strip_dashes(old(s)@),
{
    while s.len() > 0 && s[s.len() - 1] == '-'
        invariant
            strip_dashes(s@) == strip_dashes(old(s)@),
        decreases s@.len(),
    {
        s.pop();
    }
}

pub fn branch_slug(branch: &str) -> (r: String)
    ensures
        r@ == branch_slug_spec(branch@),
{
    let t = trimmed(&chars_of(branch));
    let ghost replaced = t@.map_values(|c: char| if slug_bad(c) { '-' } else { c });
    let mut out: Vec<char> = Vec::new();
    let n = t.len();
    for i in 0..n
        invariant
            n == t@.len(),
            replaced == t@.map_values(|c: char| if slug_bad(c) { '-' } else { c }),
            out@ == collapse_dashes(replaced.take(i as int)),
    {
        assert(replaced.take(i + 1).drop_last() == replaced.take(i as int));
        let c = t[i];
        let bad = is_whitespace(c) || c == '\\' || c == '/' || c == '*' || c == '?' || c == '"'
            || c == ':' || c == '<' || c == '>' || c == '|' || c == '.';
        let m = if bad { '-' } else { c };
        assert(replaced.take(i + 1).last() == m);
        if !(m == '-' && out.len() > 0 && out[out.len() - 1] == '-') {
            out.push(m);
        }
    }
    assert(replaced.take(n as int) == replaced);
    strip_dashes_vec(&mut out);
    if out.len() > SLUG_MAX {
        let mut cut = slice_vec(&out, 0, SLUG_MAX);
        assert(cut@ == out@.take(48));
        strip_dashes_vec(&mut cut);
        out = cut;
    }
    if out.len() == 0 {
        owned("wt")
    } else {
        string_of(&out)
    }
}


/// Where the environments of a repository live: the configured root (trimmed,
/// relative to the repository) when set, else `<parent>/<name>-wt` beside the
/// repository, or `wt` inside it when it has no parent (a drive root).
pub open spec fn default_wt_root_spec(root_dir: Seq<char>, configured: Option<Seq<char>>) -> Seq<char> {
    match configured {
        Some(raw) if trim(raw).len() > 0 => join_normalized(root_dir, trim(raw)),
        _ => {
            let (d, rooted, names) = crate::paths::split_path(root_dir);
            if names.len() > 0 && names.last() != ".."@ {
                crate::paths::render_path((d, rooted, names.drop_last().push(names.last() + "-wt"@)))
            } else {
                join_normalized(root_dir, "wt"@)
            }
        },
    }
}

pub fn default_wt_root(root_dir: &str, configured: Option<&str>) -> (r: String)
    ensures
        r@ == default_wt_root_spec(root_dir@, match configured {
            Some(c) => Some(c@),
            None => None,
        }),
{
    let root = chars_of(root_dir);
    match configured {
        Some(c) => {
            let t = trimmed(&chars_of(c));
            if t.len() > 0 {
                return string_of(&join_normalized_chars(&root, &t));
            }
        },
        None => {},
    }
    let (d, rooted, names) = crate::paths::split_path_exec(&root);
    let ghost nv = names@.map_values(|x: Vec<char>| x@);
    let dots = chars_of("..");
    if names.len() > 0 && !vec_eq(&names[names.len() - 1], &dots) {
        let mut init: Vec<Vec<char>> = Vec::new();
        let k = names.len() - 1;
        for j in 0..k
            invariant
                k + 1 == names@.len(),
                nv == names@.map_values(|x: Vec<char>| x@),
                init@.map_values(|x: Vec<char>| x@) == nv.take(j as int),
        {
            let ghost iv = init@.map_values(|x: Vec<char>| x@);
            init.push(copy_chars(&names[j]));
            assert(init@.map_values(|x: Vec<char>| x@) =~= iv.push(nv[j as int]));
            assert(nv.take(j + 1) =~= nv.take(j as int).push(nv[j as int]));
        }
        let mut last = copy_chars(&names[k]);
        extend_chars(&mut last, &chars_of("-wt"));
        let ghost lv = last@;
        let ghost iv = init@.map_values(|x: Vec<char>| x@);
        init.push(last);
        assert(init@.map_values(|x: Vec<char>| x@) =~= iv.push(lv));
        assert(nv.drop_last() =~= nv.take(k as int));
        let mut out = copy_chars(&d);
        if rooted {
            out.push('\\');
        }
        extend_chars(&mut out, &join_parts(&init, '\\'));
        string_of(&out)
    } else {
        string_of(&join_normalized_chars(&root, &chars_of("wt")))
    }
}

/// The `k`-th directory tried for an environment: `<root>\<slug>`, then
/// `<root>\<slug>-2` and so on.
pub open spec fn unique_candidate(root: Seq<char>, slug: Seq<char>, k: int) -> Seq<char> {
    if k <= 1 {
        join_raw(root, slug)
    } else {
        join_raw(root, slug + "-"@ + decimal(k as nat))
    }
}

/// `probe` was asked about the path `s` and answered `b`.
pub open spec fn answered<F: Fn(String) -> bool>(probe: F, s: Seq<char>, b: bool) -> bool {
    exists|x: String| x@ == s && #[trigger] probe.ensures((x,), b)
}

pub open spec fn all_taken_msg(root: Seq<char>, slug: Seq<char>) -> Seq<char> {
    root + " 下 "@ + slug + "-2 … "@ + slug + "-999 全部被占用，请先清理环境根目录"@
}

fn candidate_exec(root: &[char], slug: &[char], k: u64) -> (r: String)
    requires
        1 <= k,
    ensures
        r@ == unique_candidate(root@, slug@, k as int),
{
    if k == 1 {
        string_of(&join_raw_chars(root, slug))
    } else {
        let mut name = copy_chars(slug);
        name.push('-');
        extend_chars(&mut name, &decimal_chars(k));
        assert(name@ =~= slug@ + "-"@ + decimal(k as nat)) by {
            reveal_strlit("-");
        }
        string_of(&join_raw_chars(root, &name))
    }
}

/// The first of `<root>\<slug>`, `<root>\<slug>-2` … `<root>\<slug>-999` for
/// which `probe` answers `false`; an error when it answers `true` for all.
pub fn unique_path<F: Fn(String) -> bool>(root: &str, slug: &str, probe: &F) -> (r: Result<String, String>)
    requires
        forall|x: String| probe.requires((x,)),
    ensures
        r matches Ok(p) ==> exists|k: int|
            1 <= k <= 999 && p@ == unique_candidate(root@, slug@, k) && answered(
                *probe,
                p@,
                false,
            ) && forall|j: int|
                1 <= j < k ==> answered(*probe, #[trigger] unique_candidate(root@, slug@, j), true),
        r matches Err(e) ==> e@ == all_taken_msg(root@, slug@) && forall|j: int|
            1 <= j <= 999 ==> answered(*probe, #[trigger] unique_candidate(root@, slug@, j), true),
{
    let rv = chars_of(root);
    let sv = chars_of(slug);
    let mut k: u64 = 1;
    while k <= 999
        invariant
            1 <= k <= 1000,
            rv@ == root@,
            sv@ == slug@,
            forall|x: String| probe.requires((x,)),
            forall|j: int| 1 <= j < k ==> answered(*probe, #[trigger] unique_candidate(root@, slug@, j), true),
        decreases 1000 - k,
    {
        let cand = candidate_exec(&rv, &sv, k);
        let ghost cv = cand@;
        let ghost cx = cand;
        let taken = probe(cand);
        if !taken {
            assert(answered(*probe, cv, false));
            let again = candidate_exec(&rv, &sv, k);
            return Ok(again);
        }
        assert(answered(*probe, cv, true));
        k = k + 1;
    }
    let mut msg = chars_of(root);
    extend_chars(&mut msg, &chars_of(" 下 "));
    extend_chars(&mut msg, &sv);
    extend_chars(&mut msg, &chars_of("-2 … "));
    extend_chars(&mut msg, &sv);
    extend_chars(&mut msg, &chars_of("-999 全部被占用，请先清理环境根目录"));
    Err(string_of(&msg))
}


// ---------------------------------------------------------------------------
// Port leases

/// Index of the first lease held by `branch` (compared trimmed).
pub open spec fn lease_index(ls: Seq<WorktreeLeaseV>, branch: Seq<char>) -> Option<int>
    decreases ls.len(),
{
    if ls.len() == 0 {
        None
    } else {
        match lease_index(ls.drop_last(), branch) {
            Some(i) => Some(i),
            None => if trim(ls.last().branch) == branch {
                Some(ls.len() - 1)
            } else {
                None
            },
        }
    }
}

/// The port leased to `branch`, if any.
pub open spec fn lease_port_spec(ls: Seq<WorktreeLeaseV>, branch: Seq<char>) -> Option<u16> {
    match lease_index(ls, trim(branch)) {
        Some(i) => Some(ls[i].port),
        None => None,
    }
}

proof fn lemma_lease_index(ls: Seq<WorktreeLeaseV>, b: Seq<char>)
    ensures
        lease_index(ls, b) matches Some(i) ==> 0 <= i < ls.len() && trim(ls[i].branch) == b
            && forall|k: int| 0 <= k < i ==> trim(#[trigger] ls[k].branch) != b,
        lease_index(ls, b) is None ==> forall|k: int| 0 <= k < ls.len() ==> trim(#[trigger] ls[k].branch) != b,
    decreases ls.len(),
{
    if ls.len() > 0 {
        lemma_lease_index(ls.drop_last(), b);
        assert forall|k: int| 0 <= k < ls.len() - 1 implies ls.drop_last()[k] == ls[k] by {}
    }
}

fn lease_pos(leases: &Vec<WorktreeLease>, b: &[char]) -> (r: Option<usize>)
    ensures
        r matches Some(i) ==> i < leases@.len() && lease_index(leases_view(leases@), b@) == Some(i as int),
        r is None <==> lease_index(leases_view(leases@), b@) is None,
{
    let ghost lv = leases_view(leases@);
    let n = leases.len();
    for i in 0..n
        invariant
            n == leases@.len(),
            lv == leases_view(leases@),
            lease_index(lv.take(i as int), b@) is None,
    {
        assert(lv.take(i + 1).drop_last() == lv.take(i as int));
        assert(lv.take(i + 1).last() == leases@[i as int]@);
        let t = trimmed(&chars_of(leases[i].branch.as_str()));
        if vec_eq(&t, b) {
            proof {
                lemma_lease_index_prefix(lv, b@, i + 1);
                lemma_lease_index(lv, b@);
            }
            return Some(i);
        }
    }
    assert(lv.take(n as int) == lv);
    None
}

proof fn lemma_lease_index_prefix(ls: Seq<WorktreeLeaseV>, b: Seq<char>, j: int)
    requires
        0 <= j <= ls.len(),
        lease_index(ls.take(j), b) is Some,
    ensures
        lease_index(ls, b) == lease_index(ls.take(j), b),
    decreases ls.len() - j,
{
    if j < ls.len() {
        assert(ls.drop_last().take(j) == ls.take(j));
        lemma_lease_index_prefix(ls.drop_last(), b, j);
    } else {
        assert(ls.take(j) == ls);
    }
}

/// The port leased to `branch`.
pub fn lease_port(leases: &Vec<WorktreeLease>, branch: &str) -> (r: Option<u16>)
    ensures
        r == lease_port_spec(leases_view(leases@), branch@),
{
    let b = trimmed(&chars_of(branch));
    match lease_pos(leases, &b) {
        Some(i) => {
            assert(leases_view(leases@)[i as int] == leases@[i as int]@);
            Some(leases[i].port)
        },
        None => None,
    }
}

/// `port` is leased to a branch other than `branch`.
pub open spec fn port_taken(ls: Seq<WorktreeLeaseV>, branch: Seq<char>, port: int) -> bool {
    exists|k: int| 0 <= k < ls.len() && trim(#[trigger] ls[k].branch) != trim(branch) && ls[k].port == port
}

/// The first free port from `base + off` on, within `base + PORT_RANGE` and the
/// port numbers.
pub open spec fn free_port_from(ls: Seq<WorktreeLeaseV>, branch: Seq<char>, base: u16, off: int) -> Option<u16>
    decreases 51 - off,
{
    if off > 50 || base + off > 65535 || off < 0 {
        None
    } else if !port_taken(ls, branch, base + off) {
        Some((base + off) as u16)
    } else {
        free_port_from(ls, branch, base, off + 1)
    }
}

/// A port found free for `branch` lies between the base and the end of the
/// range, and no other branch holds a lease on it.
pub proof fn lemma_free_port_unheld(ls: Seq<WorktreeLeaseV>, branch: Seq<char>, base: u16, off: int)
    requires
        0 <= off,
    ensures
        free_port_from(ls, branch, base, off) matches Some(p) ==> base + off <= p <= base + PORT_RANGE && !port_taken(
            ls,
            branch,
            p as int,
        ),
    decreases 51 - off,
{
    if off <= 50 && base + off <= 65535 && port_taken(ls, branch, base + off) {
        lemma_free_port_unheld(ls, branch, base, off + 1);
    }
}

pub open spec fn ports_exhausted_msg(base: u16) -> Seq<char> {
    "端口段 "@ + decimal(base as nat) + "–"@ + decimal(
        if base + 50 > 65535 {
            65535nat
        } else {
            (base + 50) as nat
        },
    ) + " 已用尽，请在环境设置里改 portBase"@
}

fn is_port_taken(leases: &Vec<WorktreeLease>, b: &[char], port: u16) -> (r: bool)
    requires
        b@ == trim(b@),
    ensures
        r == port_taken(leases_view(leases@), b@, port as int),
{
    let ghost lv = leases_view(leases@);
    let n = leases.len();
    for i in 0..n
        invariant
            n == leases@.len(),
            lv == leases_view(leases@),
            b@ == trim(b@),
            forall|k: int| 0 <= k < i ==> !(trim(#[trigger] lv[k].branch) != trim(b@) && lv[k].port == port),
    {
        let t = trimmed(&chars_of(leases[i].branch.as_str()));
        assert(lv[i as int] == leases@[i as int]@);
        if !vec_eq(&t, b) && leases[i].port == port {
            assert(trim(lv[i as int].branch) != trim(b@) && lv[i as int].port == port);
            return true;
        }
    }
    false
}

/// The port for `branch`: its lease when it holds one (stable across calls),
/// else the first port from `base` on that no other branch holds.
pub fn allocate_port(leases: &Vec<WorktreeLease>, branch: &str, base: u16) -> (r: Result<u16, String>)
    ensures
        match lease_port_spec(leases_view(leases@), branch@) {
            Some(p) => r == Ok::<u16, String>(p),
            None => match free_port_from(leases_view(leases@), branch@, base, 0) {
                Some(p) => r == Ok::<u16, String>(p),
                None => r matches Err(e) && e@ == ports_exhausted_msg(base),
            },
        },
{
    if let Some(existing) = lease_port(leases, branch) {
        return Ok(existing);
    }
    let b = trimmed(&chars_of(branch));
    proof {
        crate::text::lemma_trim_idempotent(branch@);
    }
    let ghost lv = leases_view(leases@);
    let mut off: u16 = 0;
    while off <= PORT_RANGE
        invariant
            off <= 51,
            b@ == trim(branch@),
            b@ == trim(b@),
            lv == leases_view(leases@),
            free_port_from(lv, branch@, base, 0) == free_port_from(lv, branch@, base, off as int),
            lease_port_spec(lv, branch@) is None,
        ensures
            free_port_from(lv, branch@, base, off as int) is None,
        decreases 51 - off,
    {
        if base as u32 + off as u32 > 65535 {
            break;
        }
        let port = base + off;
        assert(port_taken(lv, b@, port as int) == port_taken(lv, branch@, port as int));
        if !is_port_taken(leases, &b, port) {
            return Ok(port);
        }
        off = off + 1;
    }
    let top: u16 = if base as u32 + 50 > 65535 { 65535 } else { base + 50 };
    let mut msg = chars_of("端口段 ");
    extend_chars(&mut msg, &decimal_chars(base as u64));
    extend_chars(&mut msg, &chars_of("–"));
    extend_chars(&mut msg, &decimal_chars(top as u64));
    extend_chars(&mut msg, &chars_of(" 已用尽，请在环境设置里改 portBase"));
    Err(string_of(&msg))
}

/// The leases of every branch but `branch`, in order.
pub open spec fn release_spec(ls: Seq<WorktreeLeaseV>, branch: Seq<char>) -> Seq<WorktreeLeaseV>
    decreases ls.len(),
{
    if ls.len() == 0 {
        ls
    } else if trim(ls.last().branch) == trim(branch) {
        release_spec(ls.drop_last(), branch)
    } else {
        release_spec(ls.drop_last(), branch).push(ls.last())
    }
}

pub fn release_lease(leases: &Vec<WorktreeLease>, branch: &str) -> (r: Vec<WorktreeLease>)
    ensures
        leases_view(r@) == release_spec(leases_view(leases@), branch@),
{
    let b = trimmed(&chars_of(branch));
    let ghost lv = leases_view(leases@);
    let mut out: Vec<WorktreeLease> = Vec::new();
    let n = leases.len();
    for i in 0..n
        invariant
            n == leases@.len(),
            lv == leases_view(leases@),
            b@ == trim(branch@),
            leases_view(out@) == release_spec(lv.take(i as int), branch@),
    {
        assert(lv.take(i + 1).drop_last() == lv.take(i as int));
        assert(lv.take(i + 1).last() == leases@[i as int]@);
        let t = trimmed(&chars_of(leases[i].branch.as_str()));
        if !vec_eq(&t, &b) {
            let ghost ov = leases_view(out@);
            let l = copy_lease(&leases[i]);
            let ghost l2 = l@;
            out.push(l);
            assert(leases_view(out@) =~= ov.push(l2));
        }
    }
    assert(lv.take(n as int) == lv);
    out
}

/// Stable insertion by branch name: after every lease whose branch is not greater.
pub open spec fn insert_lease(s: Seq<WorktreeLeaseV>, x: WorktreeLeaseV) -> Seq<WorktreeLeaseV>
    decreases s.len(),
{
    if s.len() == 0 {
        seq![x]
    } else if seq_lt(x.branch, s.last().branch) {
        insert_lease(s.drop_last(), x).push(s.last())
    } else {
        s.push(x)
    }
}

/// `s` stably sorted by branch name.
pub open spec fn sort_leases_spec(s: Seq<WorktreeLeaseV>) -> Seq<WorktreeLeaseV>
    decreases s.len(),
{
    if s.len() == 0 {
        s
    } else {
        insert_lease(sort_leases_spec(s.drop_last()), s.last())
    }
}

/// `branch` (trimmed) leases `port`: the first lease it holds is updated, or a
/// new lease is added; then the leases are stably sorted by branch.
pub open spec fn upsert_spec(ls: Seq<WorktreeLeaseV>, branch: Seq<char>, port: u16) -> Seq<WorktreeLeaseV> {
    let b = trim(branch);
    let updated = match lease_index(ls, b) {
        Some(i) => ls.update(i, WorktreeLeaseV { branch: ls[i].branch, port }),
        None => ls.push(WorktreeLeaseV { branch: b, port }),
    };
    sort_leases_spec(updated)
}

proof fn lemma_insert_lease_at(s: Seq<WorktreeLeaseV>, x: WorktreeLeaseV, p: int)
    requires
        0 <= p <= s.len(),
        forall|j: int| p <= j < s.len() ==> seq_lt(x.branch, #[trigger] s[j].branch),
        p == 0 || !seq_lt(x.branch, s[p - 1].branch),
    ensures
        insert_lease(s, x) == s.take(p).push(x) + s.skip(p),
    decreases s.len() - p,
{
    if p == s.len() {
        assert(s.skip(p).len() == 0);
        if s.len() > 0 {
            assert(s.take(p) == s);
        }
        assert(s.take(p).push(x) + s.skip(p) =~= s.push(x));
    } else {
        assert(seq_lt(x.branch, s[s.len() - 1].branch));
        lemma_insert_lease_at(s.drop_last(), x, p);
        assert(s.drop_last().take(p) == s.take(p));
        assert(s.take(p).push(x) + s.skip(p) =~= (s.drop_last().take(p).push(x) + s.drop_last().skip(
            p,
        )).push(s.last()));
    }
}

fn sort_leases(v: Vec<WorktreeLease>) -> (r: Vec<WorktreeLease>)
    ensures
        leases_view(r@) == sort_leases_spec(leases_view(v@)),
{
    let ghost vv = leases_view(v@);
    let mut out: Vec<WorktreeLease> = Vec::new();
    let n = v.len();
    let mut i: usize = 0;
    while i < n
        invariant
            n == v@.len(),
            i <= n,
            vv == leases_view(v@),
            leases_view(out@) == sort_leases_spec(vv.take(i as int)),
        decreases n - i,
    {
        let x = copy_lease(&v[i]);
        assert(x@ == vv[i as int]);
        let xb = chars_of(x.branch.as_str());
        let ghost ov = leases_view(out@);
        let mut p = out.len();
        while p > 0 && lt_chars(&xb, &chars_of(out[p - 1].branch.as_str()))
            invariant
                p <= out@.len(),
                ov == leases_view(out@),
                xb@ == x@.branch,
                forall|j: int| p <= j < ov.len() ==> seq_lt(x@.branch, #[trigger] ov[j].branch),
            decreases p,
        {
            assert(ov[p - 1] == out@[p - 1]@);
            p = p - 1;
        }
        proof {
            if p > 0 {
                assert(ov[p - 1] == out@[p - 1]@);
            }
            lemma_insert_lease_at(ov, x@, p as int);
            assert(vv.take(i + 1).drop_last() == vv.take(i as int));
        }
        let ghost xv = x@;
        out.insert(p, x);
        assert(leases_view(out@) =~= ov.take(p as int).push(xv) + ov.skip(p as int));
        i = i + 1;
    }
    assert(vv.take(n as int) == vv);
    out
}

/// Records that `branch` holds `port`, keeping the leases sorted by branch.
pub fn upsert_lease(leases: &mut Vec<WorktreeLease>, branch: &str, port: u16)
    ensures
        leases_view(final(leases)@) == upsert_spec(leases_view(old(leases)@), branch@, port),
{
    let b = trimmed(&chars_of(branch));
    let ghost lv = leases_view(leases@);
    match lease_pos(leases, &b) {
        Some(i) => {
            let l = WorktreeLease { branch: crate::config::copy_string(&leases[i].branch), port };
            let ghost l2 = l@;
            leases.set(i, l);
            assert(leases_view(leases@) =~= lv.update(i as int, l2));
        },
        None => {
            let l = WorktreeLease { branch: string_of(&b), port };
            let ghost l2 = l@;
            leases.push(l);
            assert(leases_view(leases@) =~= lv.push(l2));
        },
    }
    let mut taken: Vec<WorktreeLease> = Vec::new();
    std::mem::swap(&mut taken, leases);
    let sorted = sort_leases(taken);
    *leases = sorted;
}


// ---------------------------------------------------------------------------
// Variables injected into the panes of an environment

/// A variable name: a letter or `_`, then letters, digits or `_`.
pub open spec fn env_key_ok(k: Seq<char>) -> bool {
    k.len() > 0 && (is_ascii_alpha(k[0]) || k[0] == '_') && forall|i: int|
        1 <= i < k.len() ==> is_ascii_alpha(#[trigger] k[i]) || is_ascii_digit(k[i]) || k[i] == '_'
}

pub open spec fn env_key_result(k: Seq<char>) -> Result<(), Seq<char>> {
    if k.len() == 0 {
        Err("环境变量名为空"@)
    } else if env_key_ok(k) {
        Ok(())
    } else {
        Err("非法环境变量名："@ + k)
    }
}

/// Characters that some shell on the way would interpret in a value.
pub open spec fn env_bad(c: char) -> bool {
    c == '"' || c == '%' || c == '&' || c == '|' || c == '<' || c == '>' || c == '^' || c == '$'
        || c == ';' || c == '`' || c == '{' || c == '}'
}

/// Index of the first character of `s` that satisfies `f`.
pub open spec fn first_char_where(s: Seq<char>, f: spec_fn(char) -> bool) -> Option<int>
    decreases s.len(),
{
    if s.len() == 0 {
        None
    } else {
        match first_char_where(s.drop_last(), f) {
            Some(i) => Some(i),
            None => if f(s.last()) {
                Some(s.len() - 1)
            } else {
                None
            },
        }
    }
}

proof fn lemma_first_char_where(s: Seq<char>, f: spec_fn(char) -> bool)
    ensures
        first_char_where(s, f) matches Some(i) ==> 0 <= i < s.len() && f(s[i]),
        first_char_where(s, f) is None ==> forall|k: int| 0 <= k < s.len() ==> !f(#[trigger] s[k]),
    decreases s.len(),
{
    if s.len() > 0 {
        lemma_first_char_where(s.drop_last(), f);
        assert forall|k: int| 0 <= k < s.len() - 1 implies s.drop_last()[k] == s[k] by {}
    }
}

proof fn lemma_first_char_where_prefix(s: Seq<char>, f: spec_fn(char) -> bool, j: int)
    requires
        0 <= j <= s.len(),
        first_char_where(s.take(j), f) is Some,
    ensures
        first_char_where(s, f) == first_char_where(s.take(j), f),
    decreases s.len() - j,
{
    if j < s.len() {
        assert(s.drop_last().take(j) == s.take(j));
        lemma_first_char_where_prefix(s.drop_last(), f, j);
    } else {
        assert(s.take(j) == s);
    }
}

pub open spec fn env_value_result(v: Seq<char>) -> Result<(), Seq<char>> {
    if exists|i: int| 0 <= i < v.len() && is_ctrl(#[trigger] v[i]) {
        Err("环境变量值含控制字符"@)
    } else {
        match first_char_where(v, |c: char| env_bad(c)) {
            Some(i) => Err("环境变量值含不支持的字符："@ + seq![v[i]]),
            None => Ok(()),
        }
    }
}

pub open spec fn env_pair_result(k: Seq<char>, v: Seq<char>) -> Result<(), Seq<char>> {
    match env_key_result(k) {
        Err(e) => Err(e),
        Ok(()) => env_value_result(v),
    }
}

pub open spec fn unit_result(r: Result<(), String>) -> Result<(), Seq<char>> {
    match r {
        Ok(()) => Ok(()),
        Err(e) => Err(e@),
    }
}

pub fn validate_env_key(key: &str) -> (r: Result<(), String>)
    ensures
        unit_result(r) == env_key_result(key@),
{
    let k = chars_of(key);
    if k.len() == 0 {
        return Err(owned("环境变量名为空"));
    }
    let c0 = k[0];
    let mut ok = (c0 >= 'a' && c0 <= 'z') || (c0 >= 'A' && c0 <= 'Z') || c0 == '_';
    let n = k.len();
    for i in 1..n
        invariant
            n == k@.len(),
            n > 0,
            ok == ((is_ascii_alpha(k@[0]) || k@[0] == '_') && forall|j: int|
                1 <= j < i ==> is_ascii_alpha(#[trigger] k@[j]) || is_ascii_digit(k@[j]) || k@[j] == '_'),
    {
        let c = k[i];
        let good = (c >= 'a' && c <= 'z') || (c >= 'A' && c <= 'Z') || (c >= '0' && c <= '9') || c == '_';
        ok = ok && good;
    }
    if ok {
        Ok(())
    } else {
        let mut m = chars_of("非法环境变量名：");
        extend_chars(&mut m, &k);
        Err(string_of(&m))
    }
}

pub fn validate_env_value(value: &str) -> (r: Result<(), String>)
    ensures
        unit_result(r) == env_value_result(value@),
{
    let v = chars_of(value);
    let n = v.len();
    for i in 0..n
        invariant
            n == v@.len(),
            v@ == value@,
            forall|j: int| 0 <= j < i ==> !is_ctrl(#[trigger] v@[j]),
    {
        if is_control(v[i]) {
            assert(is_ctrl(v@[i as int]));
            return Err(owned("环境变量值含控制字符"));
        }
    }
    let ghost bad = |c: char| env_bad(c);
    for i in 0..n
        invariant
            n == v@.len(),
            v@ == value@,
            bad == (|c: char| env_bad(c)),
            first_char_where(v@.take(i as int), bad) is None,
            forall|j: int| 0 <= j < n ==> !is_ctrl(#[trigger] v@[j]),
    {
        assert(v@.take(i + 1).drop_last() == v@.take(i as int));
        assert(v@.take(i + 1).last() == v@[i as int]);
        let c = v[i];
        if c == '"' || c == '%' || c == '&' || c == '|' || c == '<' || c == '>' || c == '^' || c == '$'
            || c == ';' || c == '`' || c == '{' || c == '}' {
            proof {
                lemma_first_char_where_prefix(v@, bad, i + 1);
            }
            let mut m = chars_of("环境变量值含不支持的字符：");
            m.push(c);
            assert(m@ =~= "环境变量值含不支持的字符："@ + seq![v@[i as int]]);
            return Err(string_of(&m));
        }
    }
    assert(v@.take(n as int) == v@);
    Ok(())
}

pub fn validate_env_pair(key: &str, value: &str) -> (r: Result<(), String>)
    ensures
        unit_result(r) == env_pair_result(key@, value@),
{
    match validate_env_key(key) {
        Err(e) => Err(e),
        Ok(()) => validate_env_value(value),
    }
}

/// The first failing check among the pairs, in order.
pub open spec fn pairs_error(ps: Seq<(Seq<char>, Seq<char>)>) -> Option<Seq<char>>
    decreases ps.len(),
{
    if ps.len() == 0 {
        None
    } else {
        match pairs_error(ps.drop_last()) {
            Some(e) => Some(e),
            None => match env_pair_result(ps.last().0, ps.last().1) {
                Err(e) => Some(e),
                Ok(()) => None,
            },
        }
    }
}

pub proof fn lemma_pairs_error_prefix(ps: Seq<(Seq<char>, Seq<char>)>, j: int)
    requires
        0 <= j <= ps.len(),
        pairs_error(ps.take(j)) is Some,
    ensures
        pairs_error(ps) == pairs_error(ps.take(j)),
    decreases ps.len() - j,
{
    if j < ps.len() {
        assert(ps.drop_last().take(j) == ps.take(j));
        lemma_pairs_error_prefix(ps.drop_last(), j);
    } else {
        assert(ps.take(j) == ps);
    }
}

/// The variables of a pane in an environment: the port (only with a port
/// range and a lease), then the environment's path and branch.
pub open spec fn pane_env_pairs(s: crate::config::WorktreeSettingsV, branch: Seq<char>, path: Seq<char>) -> Seq<
    (Seq<char>, Seq<char>),
> {
    let port = if s.port_base is Some {
        match lease_port_spec(s.leases, branch) {
            Some(p) => seq![(effective_port_key_spec(s), decimal(p as nat))],
            None => Seq::empty(),
        }
    } else {
        Seq::empty()
    };
    port + seq![("DEVLAUNCH_WORKTREE"@, path), ("DEVLAUNCH_WORKTREE_BRANCH"@, branch)]
}

pub open spec fn pairs_view(v: Seq<(String, String)>) -> Seq<(Seq<char>, Seq<char>)> {
    v.map_values(|p: (String, String)| (p.0@, p.1@))
}

pub fn pane_env(settings: &WorktreeSettings, branch: &str, path: &str) -> (r: Result<Vec<(String, String)>, String>)
    ensures
        match pairs_error(pane_env_pairs(settings@, branch@, path@)) {
            Some(e) => r matches Err(m) && m@ == e,
            None => r matches Ok(v) && pairs_view(v@) == pane_env_pairs(settings@, branch@, path@),
        },
{
    let mut pairs: Vec<(String, String)> = Vec::new();
    if settings.port_base.is_some() {
        if let Some(port) = lease_port(&settings.leases, branch) {
            let k = settings.effective_port_key();
            let v = string_of(&decimal_chars(port as u64));
            pairs.push((k, v));
        }
    }
    let ghost pv0 = pairs_view(pairs@);
    let a = (owned("DEVLAUNCH_WORKTREE"), owned(path));
    let ghost av = (a.0@, a.1@);
    pairs.push(a);
    let b = (owned("DEVLAUNCH_WORKTREE_BRANCH"), owned(branch));
    let ghost bv = (b.0@, b.1@);
    pairs.push(b);
    let ghost want = pane_env_pairs(settings@, branch@, path@);
    assert(pairs_view(pairs@) =~= want);
    let n = pairs.len();
    for i in 0..n
        invariant
            n == pairs@.len(),
            pairs_view(pairs@) == want,
            want == pane_env_pairs(settings@, branch@, path@),
            pairs_error(want.take(i as int)) is None,
    {
        assert(want.take(i + 1).drop_last() == want.take(i as int));
        assert(want.take(i + 1).last() == want[i as int]);
        assert(want[i as int] == (pairs@[i as int].0@, pairs@[i as int].1@));
        match validate_env_pair(pairs[i].0.as_str(), pairs[i].1.as_str()) {
            Err(e) => {
                proof {
                    lemma_pairs_error_prefix(want, i + 1);
                }
                return Err(e);
            },
            Ok(()) => {},
        }
    }
    assert(want.take(n as int) == want);
    Ok(pairs)
}

/// Index of the first entry on `branch` (compared trimmed).
pub open spec fn branch_index(ws: Seq<WorktreeInfoV>, b: Seq<char>) -> Option<int>
    decreases ws.len(),
{
    if ws.len() == 0 {
        None
    } else {
        match branch_index(ws.drop_last(), b) {
            Some(i) => Some(i),
            None => if ws.last().branch matches Some(x) && trim(x) == b {
                Some(ws.len() - 1)
            } else {
                None
            },
        }
    }
}

proof fn lemma_branch_index(ws: Seq<WorktreeInfoV>, b: Seq<char>)
    ensures
        branch_index(ws, b) matches Some(i) ==> 0 <= i < ws.len(),
    decreases ws.len(),
{
    if ws.len() > 0 {
        lemma_branch_index(ws.drop_last(), b);
    }
}

proof fn lemma_branch_index_prefix(ws: Seq<WorktreeInfoV>, b: Seq<char>, j: int)
    requires
        0 <= j <= ws.len(),
        branch_index(ws.take(j), b) is Some,
    ensures
        branch_index(ws, b) == branch_index(ws.take(j), b),
    decreases ws.len() - j,
{
    if j < ws.len() {
        assert(ws.drop_last().take(j) == ws.take(j));
        lemma_branch_index_prefix(ws.drop_last(), b, j);
    } else {
        assert(ws.take(j) == ws);
    }
}

/// Position of the first entry on the trimmed `b`.
pub fn find_branch(list: &Vec<WorktreeInfo>, b: &[char]) -> (r: Option<usize>)
    ensures
        r matches Some(i) ==> i < list@.len() && branch_index(infos_view(list@), b@) == Some(i as int),
        r is None <==> branch_index(infos_view(list@), b@) is None,
{
    let ghost lv = infos_view(list@);
    let n = list.len();
    for i in 0..n
        invariant
            n == list@.len(),
            lv == infos_view(list@),
            branch_index(lv.take(i as int), b@) is None,
    {
        assert(lv.take(i + 1).drop_last() == lv.take(i as int));
        assert(lv.take(i + 1).last() == list@[i as int]@);
        match &list[i].branch {
            Some(x) => {
                let t = trimmed(&chars_of(x.as_str()));
                if vec_eq(&t, b) {
                    proof {
                        lemma_branch_index_prefix(lv, b@, i + 1);
                    }
                    return Some(i);
                }
            },
            None => {},
        }
    }
    assert(lv.take(n as int) == lv);
    None
}

pub open spec fn resolve_worktree_spec(ws: Seq<WorktreeInfoV>, branch: Seq<char>) -> Result<Seq<char>, Seq<char>> {
    let b = trim(branch);
    match branch_index(ws, b) {
        None => Err("未找到环境："@ + b + "（可能已被删除）"@),
        Some(i) => if ws[i].is_prunable {
            Err("环境 "@ + b + " 的目录已不存在，请先在环境页清理失效记录"@)
        } else {
            Ok(ws[i].path)
        },
    }
}

pub open spec fn str_result(r: Result<String, String>) -> Result<Seq<char>, Seq<char>> {
    match r {
        Ok(s) => Ok(s@),
        Err(e) => Err(e@),
    }
}

/// The directory of the live environment on `branch`, from git's listing.
pub fn resolve_worktree_path(list: &Vec<WorktreeInfo>, branch: &str) -> (r: Result<String, String>)
    ensures
        str_result(r) == resolve_worktree_spec(infos_view(list@), branch@),
{
    let b = trimmed(&chars_of(branch));
    match find_branch(list, &b) {
        None => {
            let mut m = chars_of("未找到环境：");
            extend_chars(&mut m, &b);
            extend_chars(&mut m, &chars_of("（可能已被删除）"));
            Err(string_of(&m))
        },
        Some(i) => {
            assert(infos_view(list@)[i as int] == list@[i as int]@);
            if list[i].is_prunable {
                let mut m = chars_of("环境 ");
                extend_chars(&mut m, &b);
                extend_chars(&mut m, &chars_of(" 的目录已不存在，请先在环境页清理失效记录"));
                Err(string_of(&m))
            } else {
                Ok(crate::config::copy_string(&list[i].path))
            }
        },
    }
}


// ---------------------------------------------------------------------------
// The allow-list of files copied into a new environment

/// A relative path with `/` separators and no empty or `.` parts.
pub open spec fn normalize_rel_spec(path: Seq<char>) -> Seq<char> {
    join_with(parts(path), '/')
}

pub fn normalize_rel(path: &str) -> (r: String)
    ensures
        r@ == normalize_rel_spec(path@),
{
    let ps = parts_of(&chars_of(path));
    string_of(&join_parts(&ps, '/'))
}

pub open spec fn has_wild(s: Seq<char>) -> bool {
    s.contains('*') || s.contains('?')
}

/// Number of leading parts without a wildcard.
pub open spec fn first_wild(ps: Seq<Seq<char>>) -> int
    decreases ps.len(),
{
    if ps.len() == 0 {
        0
    } else {
        let k = first_wild(ps.drop_last());
        if k < ps.len() - 1 {
            k
        } else if has_wild(ps.last()) {
            ps.len() - 1
        } else {
            ps.len() as int
        }
    }
}

proof fn lemma_first_wild(ps: Seq<Seq<char>>)
    ensures
        0 <= first_wild(ps) <= ps.len(),
        forall|i: int| 0 <= i < first_wild(ps) ==> !has_wild(#[trigger] ps[i]),
        first_wild(ps) < ps.len() ==> has_wild(ps[first_wild(ps)]),
    decreases ps.len(),
{
    if ps.len() > 0 {
        lemma_first_wild(ps.drop_last());
        assert forall|i: int| 0 <= i < ps.len() - 1 implies ps.drop_last()[i] == ps[i] by {}
    }
}

/// The fixed directory part of an allow-list entry: its parts up to the first
/// one with a wildcard.
pub open spec fn pattern_prefix_spec(pattern: Seq<char>) -> Seq<char> {
    let ps = parts(trim(pattern));
    join_with(ps.take(first_wild(ps)), '/')
}

pub fn pattern_prefix(pattern: &str) -> (r: String)
    ensures
        r@ == pattern_prefix_spec(pattern@),
{
    let ps = parts_of(&trimmed(&chars_of(pattern)));
    let ghost pv = ps@.map_values(|x: Vec<char>| x@);
    let mut out: Vec<Vec<char>> = Vec::new();
    let mut i: usize = 0;
    proof {
        lemma_first_wild(pv);
    }
    while i < ps.len() && !crate::text::has_char(&ps[i], '*') && !crate::text::has_char(&ps[i], '?')
        invariant
            i <= ps@.len(),
            pv == ps@.map_values(|x: Vec<char>| x@),
            i <= first_wild(pv),
            0 <= first_wild(pv) <= pv.len(),
            forall|q: int| 0 <= q < first_wild(pv) ==> !has_wild(#[trigger] pv[q]),
            first_wild(pv) < pv.len() ==> has_wild(pv[first_wild(pv)]),
            out@.map_values(|x: Vec<char>| x@) == pv.take(i as int),
        decreases ps@.len() - i,
    {
        let ghost ov = out@.map_values(|x: Vec<char>| x@);
        assert(pv[i as int] == ps@[i as int]@);
        out.push(copy_chars(&ps[i]));
        assert(out@.map_values(|x: Vec<char>| x@) =~= ov.push(pv[i as int]));
        assert(pv.take(i + 1) =~= pv.take(i as int).push(pv[i as int]));
        i = i + 1;
    }
    if i < ps.len() {
        assert(pv[i as int] == ps@[i as int]@);
        assert(has_wild(pv[i as int]));
    }
    assert(i == first_wild(pv));
    string_of(&join_parts(&out, '/'))
}

/// One part of an allow-list entry against one part of a path: `*` matches any
/// run, `?` one character, other letters match ignoring ASCII case.
pub open spec fn seg_match(p: Seq<char>, t: Seq<char>) -> bool
    decreases p.len(), t.len(),
{
    if p.len() == 0 {
        t.len() == 0
    } else if p[0] == '*' {
        seg_match(p.drop_first(), t) || (t.len() > 0 && seg_match(p, t.drop_first()))
    } else if p[0] == '?' {
        t.len() > 0 && seg_match(p.drop_first(), t.drop_first())
    } else {
        t.len() > 0 && lower_char(p[0]) == lower_char(t[0]) && seg_match(p.drop_first(), t.drop_first())
    }
}

fn seg_match_from(p: &[char], t: &[char], i: usize, j: usize) -> (r: bool)
    requires
        i <= p@.len(),
        j <= t@.len(),
    ensures
        r == seg_match(p@.skip(i as int), t@.skip(j as int)),
    decreases p@.len() - i, t@.len() - j,
{
    let ghost ps = p@.skip(i as int);
    let ghost ts = t@.skip(j as int);
    if i == p.len() {
        return j == t.len();
    }
    assert(ps[0] == p@[i as int]);
    assert(ps.drop_first() == p@.skip(i + 1));
    if j < t.len() {
        assert(ts[0] == t@[j as int]);
        assert(ts.drop_first() == t@.skip(j + 1));
    }
    if p[i] == '*' {
        if seg_match_from(p, t, i + 1, j) {
            return true;
        }
        j < t.len() && seg_match_from(p, t, i, j + 1)
    } else if p[i] == '?' {
        j < t.len() && seg_match_from(p, t, i + 1, j + 1)
    } else {
        j < t.len() && to_lower_char(p[i]) == to_lower_char(t[j]) && seg_match_from(p, t, i + 1, j + 1)
    }
}

fn seg_match_exec(p: &[char], t: &[char]) -> (r: bool)
    ensures
        r == seg_match(p@, t@),
{
    assert(p@.skip(0) == p@);
    assert(t@.skip(0) == t@);
    seg_match_from(p, t, 0, 0)
}

/// The first `n` parts match pairwise.
pub open spec fn parts_match(ps: Seq<Seq<char>>, ts: Seq<Seq<char>>, n: int) -> bool {
    forall|i: int| 0 <= i < n ==> seg_match(#[trigger] ps[i], ts[i])
}

/// An allow-list entry matches a relative path: part by part, and a final `**`
/// takes one or more further parts.
pub open spec fn pattern_matches_spec(pattern: Seq<char>, rel: Seq<char>) -> bool {
    let ps = parts(pattern);
    let ts = parts(rel);
    if ps.len() == 0 || ts.len() == 0 {
        false
    } else if ps.last() == "**"@ {
        ts.len() > ps.len() - 1 && parts_match(ps, ts, ps.len() - 1)
    } else {
        ps.len() == ts.len() && parts_match(ps, ts, ps.len() as int)
    }
}

fn parts_match_exec(ps: &Vec<Vec<char>>, ts: &Vec<Vec<char>>, n: usize) -> (r: bool)
    requires
        n <= ps@.len(),
        n <= ts@.len(),
    ensures
        r == parts_match(ps@.map_values(|x: Vec<char>| x@), ts@.map_values(|x: Vec<char>| x@), n as int),
{
    let ghost pv = ps@.map_values(|x: Vec<char>| x@);
    let ghost tv = ts@.map_values(|x: Vec<char>| x@);
    for i in 0..n
        invariant
            n <= ps@.len(),
            n <= ts@.len(),
            pv == ps@.map_values(|x: Vec<char>| x@),
            tv == ts@.map_values(|x: Vec<char>| x@),
            parts_match(pv, tv, i as int),
    {
        assert(pv[i as int] == ps@[i as int]@ && tv[i as int] == ts@[i as int]@);
        if !seg_match_exec(&ps[i], &ts[i]) {
            return false;
        }
    }
    true
}

pub fn pattern_matches(pattern: &str, rel: &str) -> (r: bool)
    ensures
        r == pattern_matches_spec(pattern@, rel@),
{
    let ps = parts_of(&chars_of(pattern));
    let ts = parts_of(&chars_of(rel));
    let ghost pv = ps@.map_values(|x: Vec<char>| x@);
    if ps.len() == 0 || ts.len() == 0 {
        return false;
    }
    assert(pv.last() == ps@[ps@.len() - 1]@);
    if vec_eq(&ps[ps.len() - 1], &chars_of("**")) {
        ts.len() > ps.len() - 1 && parts_match_exec(&ps, &ts, ps.len() - 1)
    } else {
        ps.len() == ts.len() && parts_match_exec(&ps, &ts, ps.len())
    }
}

/// Never copied: git metadata, dependencies and build output.
pub open spec fn denied_spec(rel: Seq<char>) -> bool {
    let ps = parts(rel);
    (exists|i: int| 0 <= i < ps.len() && (#[trigger] ps[i] == ".git"@ || ps[i] == "node_modules"@)) || (ps.len()
        > 0 && (ps[0] == "target"@ || ps[0] == "dist"@))
}

pub fn is_denied_copy_path(rel: &str) -> (r: bool)
    ensures
        r == denied_spec(rel@),
{
    let ps = parts_of(&chars_of(rel));
    let ghost pv = ps@.map_values(|x: Vec<char>| x@);
    let git = chars_of(".git");
    let nm = chars_of("node_modules");
    let n = ps.len();
    for i in 0..n
        invariant
            n == ps@.len(),
            pv == ps@.map_values(|x: Vec<char>| x@),
            pv == parts(rel@),
            git@ == ".git"@,
            nm@ == "node_modules"@,
            forall|q: int| 0 <= q < i ==> !(#[trigger] pv[q] == ".git"@ || pv[q] == "node_modules"@),
    {
        assert(pv[i as int] == ps@[i as int]@);
        if vec_eq(&ps[i], &git) || vec_eq(&ps[i], &nm) {
            assert(pv[i as int] == ".git"@ || pv[i as int] == "node_modules"@);
            return true;
        }
    }
    if n > 0 {
        assert(pv[0] == ps@[0]@);
        vec_eq(&ps[0], &chars_of("target")) || vec_eq(&ps[0], &chars_of("dist"))
    } else {
        false
    }
}

/// A candidate, normalized, is kept: not empty, not denied, matched by an entry.
pub open spec fn copy_keep(c: Seq<char>, pats: Seq<Seq<char>>) -> bool {
    c.len() > 0 && !denied_spec(c) && exists|k: int| 0 <= k < pats.len() && pattern_matches_spec(#[trigger] pats[k], c)
}

pub open spec fn picked_files(cands: Seq<Seq<char>>, pats: Seq<Seq<char>>) -> Seq<Seq<char>>
    decreases cands.len(),
{
    if cands.len() == 0 {
        Seq::empty()
    } else {
        let prev = picked_files(cands.drop_last(), pats);
        let c = normalize_rel_spec(cands.last());
        if copy_keep(c, pats) {
            prev.push(c)
        } else {
            prev
        }
    }
}

/// The candidates to copy: normalized, filtered, sorted, without repeats.
pub open spec fn select_copy_spec(cands: Seq<Seq<char>>, pats: Seq<Seq<char>>) -> Seq<Seq<char>> {
    dedup_strs(sorted_strs(picked_files(cands, pats)))
}

fn any_pattern_matches(patterns: &Vec<String>, c: &str) -> (r: bool)
    ensures
        r == exists|k: int| 0 <= k < patterns@.len() && pattern_matches_spec(#[trigger] crate::config::strs(patterns@)[k], c@),
{
    let ghost pv = crate::config::strs(patterns@);
    let n = patterns.len();
    for i in 0..n
        invariant
            n == patterns@.len(),
            pv == crate::config::strs(patterns@),
            forall|k: int| 0 <= k < i ==> !pattern_matches_spec(#[trigger] pv[k], c@),
    {
        assert(pv[i as int] == patterns@[i as int]@);
        if pattern_matches(patterns[i].as_str(), c) {
            return true;
        }
    }
    false
}

pub fn select_copy_files(candidates: &Vec<String>, patterns: &Vec<String>) -> (r: Vec<String>)
    ensures
        crate::config::strs(r@) == select_copy_spec(crate::config::strs(candidates@), crate::config::strs(patterns@)),
{
    let ghost cv = crate::config::strs(candidates@);
    let ghost pv = crate::config::strs(patterns@);
    let mut picked: Vec<Vec<char>> = Vec::new();
    let n = candidates.len();
    for i in 0..n
        invariant
            n == candidates@.len(),
            cv == crate::config::strs(candidates@),
            pv == crate::config::strs(patterns@),
            picked@.map_values(|x: Vec<char>| x@) == picked_files(cv.take(i as int), pv),
    {
        assert(cv.take(i + 1).drop_last() == cv.take(i as int));
        assert(cv.take(i + 1).last() == candidates@[i as int]@);
        let c = normalize_rel(candidates[i].as_str());
        let cc = chars_of(c.as_str());
        if cc.len() > 0 && !is_denied_copy_path(c.as_str()) && any_pattern_matches(patterns, c.as_str()) {
            let ghost ov = picked@.map_values(|x: Vec<char>| x@);
            let ghost ccv = cc@;
            picked.push(cc);
            assert(picked@.map_values(|x: Vec<char>| x@) =~= ov.push(ccv));
        }
    }
    assert(cv.take(n as int) == cv);
    let sorted = sort_dedup_strs(picked);
    let ghost sv = sorted@.map_values(|x: Vec<char>| x@);
    let mut out: Vec<String> = Vec::new();
    let m = sorted.len();
    for i in 0..m
        invariant
            m == sorted@.len(),
            sv == sorted@.map_values(|x: Vec<char>| x@),
            crate::config::strs(out@) == sv.take(i as int),
    {
        let ghost ov = crate::config::strs(out@);
        let s = string_of(&sorted[i]);
        let ghost s2 = s@;
        out.push(s);
        assert(crate::config::strs(out@) =~= ov.push(s2));
        assert(sv.take(i + 1) =~= sv.take(i as int).push(sv[i as int]));
    }
    assert(sv.take(m as int) == sv);
    out
}


/// Wildcards (`*`, `?`) in a part.
pub open spec fn count_wild(s: Seq<char>) -> nat
    decreases s.len(),
{
    if s.len() == 0 {
        0
    } else {
        count_wild(s.drop_last()) + if s.last() == '*' || s.last() == '?' {
            1nat
        } else {
            0nat
        }
    }
}

/// What is wrong with one part of an entry, as the start of the error text.
pub open spec fn part_problem(seg: Seq<char>, last: bool) -> Option<Seq<char>> {
    if seg == ".."@ {
        Some("复制白名单条目不能跳出仓库："@)
    } else if seg == ".git"@ {
        Some("不允许复制 .git 内容："@)
    } else if contains_seq(seg, "**"@) && !last {
        Some("** 只能出现在条目末尾："@)
    } else if count_wild(seg) > 3 {
        Some("单段通配符过多（最多 3 个）："@)
    } else {
        None
    }
}

/// The first problem among the parts from `i` on.
pub open spec fn parts_problem(ps: Seq<Seq<char>>, i: int) -> Option<Seq<char>>
    decreases ps.len() - i,
{
    if i < 0 || i >= ps.len() {
        None
    } else {
        match part_problem(ps[i], i == ps.len() - 1) {
            Some(m) => Some(m),
            None => parts_problem(ps, i + 1),
        }
    }
}

/// Why an allow-list entry is refused, if it is.
pub open spec fn copy_pattern_error(pattern: Seq<char>) -> Option<Seq<char>> {
    let raw = trim(pattern);
    if raw.len() == 0 {
        Some("复制白名单条目为空"@)
    } else if exists|i: int| 0 <= i < raw.len() && is_ctrl(#[trigger] raw[i]) {
        Some("非法复制白名单条目："@ + pattern)
    } else if raw[0] == '/' || raw.contains(':') || (raw.len() >= 2 && raw[0] == '\\' && raw[1] == '\\') {
        Some("复制白名单条目必须是仓库内相对路径："@ + pattern)
    } else if parts(raw).len() == 0 {
        Some("复制白名单条目为空："@ + pattern)
    } else {
        match parts_problem(parts(raw), 0) {
            Some(m) => Some(m + pattern),
            None => None,
        }
    }
}

fn count_wild_exec(s: &[char]) -> (r: usize)
    ensures
        r == count_wild(s@),
{
    let mut k: usize = 0;
    let n = s.len();
    for i in 0..n
        invariant
            n == s@.len(),
            k == count_wild(s@.take(i as int)),
            k <= i,
    {
        assert(s@.take(i + 1).drop_last() == s@.take(i as int));
        if s[i] == '*' || s[i] == '?' {
            k = k + 1;
        }
    }
    assert(s@.take(n as int) == s@);
    k
}

/// Refuses an entry that is empty, absolute, leaves the repository, reaches
/// into `.git`, has `**` before its end or more than three wildcards in a part.
pub fn validate_copy_pattern(pattern: &str) -> (r: Result<(), String>)
    ensures
        match copy_pattern_error(pattern@) {
            Some(m) => r matches Err(e) && e@ == m,
            None => r is Ok,
        },
{
    let raw = trimmed(&chars_of(pattern));
    let pv = chars_of(pattern);
    if raw.len() == 0 {
        return Err(owned("复制白名单条目为空"));
    }
    let n = raw.len();
    for i in 0..n
        invariant
            n == raw@.len(),
            n > 0,
            raw@ == trim(pattern@),
            pv@ == pattern@,
            forall|j: int| 0 <= j < i ==> !is_ctrl(#[trigger] raw@[j]),
    {
        if is_control(raw[i]) {
            assert(is_ctrl(raw@[i as int]));
            let mut m = chars_of("非法复制白名单条目：");
            extend_chars(&mut m, &pv);
            return Err(string_of(&m));
        }
    }
    if raw[0] == '/' || crate::text::has_char(&raw, ':') || (raw.len() >= 2 && raw[0] == '\\' && raw[1] == '\\') {
        let mut m = chars_of("复制白名单条目必须是仓库内相对路径：");
        extend_chars(&mut m, &pv);
        return Err(string_of(&m));
    }
    let ps = parts_of(&raw);
    let ghost psv = ps@.map_values(|x: Vec<char>| x@);
    if ps.len() == 0 {
        let mut m = chars_of("复制白名单条目为空：");
        extend_chars(&mut m, &pv);
        return Err(string_of(&m));
    }
    let k = ps.len();
    assert(copy_pattern_error(pattern@) == match parts_problem(psv, 0) {
        Some(m) => Some(m + pattern@),
        None => None::<Seq<char>>,
    });
    let dots = chars_of("..");
    let git = chars_of(".git");
    let star2 = chars_of("**");
    let mut i: usize = 0;
    while i < k
        invariant
            k == ps@.len(),
            psv == ps@.map_values(|x: Vec<char>| x@),
            psv == parts(trim(pattern@)),
            pv@ == pattern@,
            dots@ == ".."@,
            git@ == ".git"@,
            star2@ == "**"@,
            i <= k,
            parts_problem(psv, 0) == parts_problem(psv, i as int),
            copy_pattern_error(pattern@) == match parts_problem(psv, 0) {
                Some(m) => Some(m + pattern@),
                None => None::<Seq<char>>,
            },
        decreases k - i,
    {
        let seg = &ps[i];
        assert(psv[i as int] == seg@);
        let msg: Option<&str> = if vec_eq(seg, &dots) {
            Some("复制白名单条目不能跳出仓库：")
        } else if vec_eq(seg, &git) {
            Some("不允许复制 .git 内容：")
        } else if has_seq(seg, &star2) && i != k - 1 {
            Some("** 只能出现在条目末尾：")
        } else if count_wild_exec(seg) > 3 {
            Some("单段通配符过多（最多 3 个）：")
        } else {
            None
        };
        match msg {
            Some(m0) => {
                let mut m = chars_of(m0);
                extend_chars(&mut m, &pv);
                assert(part_problem(psv[i as int], i == psv.len() - 1) == Some(m0@));
                return Err(string_of(&m));
            },
            None => {},
        }
        i = i + 1;
    }
    Ok(())
}

pub open spec fn list_args() -> Seq<Seq<char>> {
    seq!["worktree"@, "list"@, "--porcelain"@]
}

/// The environments of the repository, from `git worktree list --porcelain`.
pub fn list<F: Fn(Vec<String>) -> Result<String, String>>(git: &F) -> (r: Result<Vec<WorktreeInfo>, String>)
    requires
        crate::runner::callable(*git),
    ensures
        r matches Ok(v) ==> exists|o: Seq<char>|
            #[trigger] crate::runner::ran(*git, list_args(), Ok(o)) && infos_view(v@) == parse_worktree_list_spec(o),
        r matches Err(e) ==> crate::runner::ran(*git, list_args(), Err(e@)),
{
    let mut a = crate::runner::Args::new();
    a.lit("worktree");
    a.lit("list");
    a.lit("--porcelain");
    assert(crate::config::strs(a.v@) =~= list_args());
    match crate::runner::call(git, a.v) {
        Err(e) => Err(e),
        Ok(o) => {
            assert(crate::runner::ran(*git, list_args(), Ok(o@)));
            Ok(parse_worktree_list(o.as_str()))
        },
    }
}

pub open spec fn prune_args() -> Seq<Seq<char>> {
    seq!["worktree"@, "prune"@, "--verbose"@]
}

/// Clears the records of environments whose directory is gone; never touches a
/// worktree that exists.
pub fn prune<W: Fn(Vec<String>) -> Result<String, String>>(write: &W) -> (r: Result<String, String>)
    requires
        crate::runner::callable(*write),
    ensures
        crate::runner::ran(*write, prune_args(), crate::runner::str_result(r)),
{
    let mut a = crate::runner::Args::new();
    a.lit("worktree");
    a.lit("prune");
    a.lit("--verbose");
    assert(crate::config::strs(a.v@) =~= prune_args());
    crate::runner::call(write, a.v)
}

pub open spec fn remove_args(path: Seq<char>, force: bool) -> Seq<Seq<char>> {
    if force {
        seq!["worktree"@, "remove"@, "--force"@, path]
    } else {
        seq!["worktree"@, "remove"@, path]
    }
}

/// What removing the environment on `branch` does, once git's listing `ws` is
/// known: the arguments of `git worktree remove`, or why it is refused.
pub open spec fn remove_plan(ws: Seq<WorktreeInfoV>, branch: Seq<char>, force: bool) -> Result<Seq<Seq<char>>, Seq<char>> {
    let b = trim(branch);
    match branch_index(ws, b) {
        None => Err("未找到环境："@ + b + "（可能已被删除）"@),
        Some(i) => if ws[i].is_main {
            Err("不能删除主工作区"@)
        } else if ws[i].is_prunable {
            Err("环境 "@ + b + " 的目录已不存在，请改用「清理失效记录」"@)
        } else {
            Ok(remove_args(ws[i].path, force))
        },
    }
}

/// The error shown when `git worktree remove` fails.
pub open spec fn remove_error(e: Seq<char>, force: bool) -> Seq<char> {
    if !force && contains_seq(e, "modified or untracked files"@) {
        "该环境有未提交改动；确认全部丢弃请勾选「强制删除」"@
    } else {
        e
    }
}

/// `git worktree remove` with `args` failed and `e` is the error shown for it.
pub open spec fn remove_failed<W: Fn(Vec<String>) -> Result<String, String>>(
    write: W,
    args: Seq<Seq<char>>,
    e: Seq<char>,
    force: bool,
) -> bool {
    exists|w: Seq<char>| #[trigger] crate::runner::ran(write, args, Err(w)) && e == remove_error(w, force)
}

/// Removes the environment on `branch`; refuses the main worktree and stale
/// records, and asks for `force` when the environment has changes.
pub fn remove<F: Fn(Vec<String>) -> Result<String, String>, W: Fn(Vec<String>) -> Result<String, String>>(
    git: &F,
    write: &W,
    branch: &str,
    force: bool,
) -> (r: Result<(), String>)
    requires
        crate::runner::callable(*git),
        crate::runner::callable(*write),
    ensures
        match crate::git_write::validate_ref_spec(branch@) {
            Err(e) => r matches Err(m) && m@ == e,
            Ok(()) => match r {
                Ok(()) => exists|o: Seq<char>|
                    #[trigger] crate::runner::ran(*git, list_args(), Ok(o)) && (remove_plan(
                        parse_worktree_list_spec(o),
                        branch@,
                        force,
                    ) matches Ok(args) && crate::runner::ran_ok(*write, args)),
                Err(e) => crate::runner::ran(*git, list_args(), Err(e@)) || exists|o: Seq<char>|
                    #[trigger] crate::runner::ran(*git, list_args(), Ok(o)) && match remove_plan(
                        parse_worktree_list_spec(o),
                        branch@,
                        force,
                    ) {
                        Err(m) => e@ == m,
                        Ok(args) => remove_failed(*write, args, e@, force),
                    },
            },
        },
{
    crate::git_write::validate_ref_name(branch)?;
    let b = trimmed(&chars_of(branch));
    let existing = list(git)?;
    let ghost o = choose|o: Seq<char>|
        #[trigger] crate::runner::ran(*git, list_args(), Ok(o)) && infos_view(existing@) == parse_worktree_list_spec(o);
    let ghost ws = infos_view(existing@);
    assert(crate::runner::ran(*git, list_args(), Ok(o)));
    assert(ws == parse_worktree_list_spec(o));
    let i = match find_branch(&existing, &b) {
        None => {
            let mut m = chars_of("未找到环境：");
            extend_chars(&mut m, &b);
            extend_chars(&mut m, &chars_of("（可能已被删除）"));
            return Err(string_of(&m));
        },
        Some(i) => i,
    };
    assert(ws[i as int] == existing@[i as int]@);
    if existing[i].is_main {
        return Err(owned("不能删除主工作区"));
    }
    if existing[i].is_prunable {
        let mut m = chars_of("环境 ");
        extend_chars(&mut m, &b);
        extend_chars(&mut m, &chars_of(" 的目录已不存在，请改用「清理失效记录」"));
        return Err(string_of(&m));
    }
    let mut a = crate::runner::Args::new();
    a.lit("worktree");
    a.lit("remove");
    if force {
        a.lit("--force");
    }
    a.val(crate::config::copy_string(&existing[i].path));
    let ghost args = remove_args(ws[i as int].path, force);
    assert(crate::config::strs(a.v@) =~= args);
    assert(remove_plan(parse_worktree_list_spec(o), branch@, force) == Ok::<Seq<Seq<char>>, Seq<char>>(args));
    match crate::runner::call(write, a.v) {
        Ok(out) => {
            assert(crate::runner::ran(*write, args, Ok(out@)));
            Ok(())
        },
        Err(e) => {
            let ghost ev = e@;
            assert(crate::runner::ran(*write, args, Err(ev)));
            let msg = if !force && has_seq(&chars_of(e.as_str()), &chars_of("modified or untracked files")) {
                owned("该环境有未提交改动；确认全部丢弃请勾选「强制删除」")
            } else {
                e
            };
            assert(msg@ == remove_error(ev, force));
            assert(remove_failed(*write, args, msg@, force));
            Err(msg)
        },
    }
}


/// The first refused entry, in order, with its error.
pub open spec fn patterns_error(ps: Seq<Seq<char>>) -> Option<Seq<char>>
    decreases ps.len(),
{
    if ps.len() == 0 {
        None
    } else {
        match patterns_error(ps.drop_last()) {
            Some(e) => Some(e),
            None => copy_pattern_error(ps.last()),
        }
    }
}

proof fn lemma_patterns_error_prefix(ps: Seq<Seq<char>>, j: int)
    requires
        0 <= j <= ps.len(),
        patterns_error(ps.take(j)) is Some,
    ensures
        patterns_error(ps) == patterns_error(ps.take(j)),
    decreases ps.len() - j,
{
    if j < ps.len() {
        assert(ps.drop_last().take(j) == ps.take(j));
        lemma_patterns_error_prefix(ps.drop_last(), j);
    } else {
        assert(ps.take(j) == ps);
    }
}

/// Checks every entry of the allow-list, stopping at the first refused one.
pub fn validate_copy_patterns(patterns: &Vec<String>) -> (r: Result<(), String>)
    ensures
        match patterns_error(crate::config::strs(patterns@)) {
            Some(m) => r matches Err(e) && e@ == m,
            None => r is Ok,
        },
{
    let ghost pv = crate::config::strs(patterns@);
    let n = patterns.len();
    for i in 0..n
        invariant
            n == patterns@.len(),
            pv == crate::config::strs(patterns@),
            patterns_error(pv.take(i as int)) is None,
    {
        assert(pv.take(i + 1).drop_last() == pv.take(i as int));
        assert(pv.take(i + 1).last() == patterns@[i as int]@);
        match validate_copy_pattern(patterns[i].as_str()) {
            Err(e) => {
                proof {
                    lemma_patterns_error_prefix(pv, i + 1);
                }
                return Err(e);
            },
            Ok(()) => {},
        }
    }
    assert(pv.take(n as int) == pv);
    Ok(())
}

/// All the pieces, one after another.
pub open spec fn concat_all(found: Seq<Seq<Seq<char>>>) -> Seq<Seq<char>>
    decreases found.len(),
{
    if found.len() == 0 {
        Seq::empty()
    } else {
        concat_all(found.drop_last()) + found.last()
    }
}

/// `collect` was asked for the files under `prefix` and answered `out`.
pub open spec fn collected<C: Fn(String, usize) -> Result<Vec<String>, String>>(
    collect: C,
    prefix: Seq<char>,
    out: Result<Seq<Seq<char>>, Seq<char>>,
) -> bool {
    exists|p: String, n: usize, o: Result<Vec<String>, String>|
        #[trigger] collect.ensures((p, n), o) && p@ == prefix && match o {
            Ok(v) => out == Ok::<Seq<Seq<char>>, Seq<char>>(crate::config::strs(v@)),
            Err(e) => out == Err::<Seq<Seq<char>>, Seq<char>>(e@),
        }
}

/// The files of the allow-list: every entry checked, the files under each
/// entry's fixed prefix gathered by `collect` (told how many were gathered so
/// far), then matched, filtered, sorted and deduplicated.
pub fn select_to_copy<C: Fn(String, usize) -> Result<Vec<String>, String>>(
    collect: &C,
    patterns: &Vec<String>,
) -> (r: Result<Vec<String>, String>)
    requires
        forall|p: String, n: usize| collect.requires((p, n)),
    ensures
        match patterns_error(crate::config::strs(patterns@)) {
            Some(m) => r matches Err(e) && e@ == m,
            None => match r {
                Ok(v) => exists|found: Seq<Seq<Seq<char>>>|
                    found.len() == patterns@.len() && (forall|i: int|
                        0 <= i < found.len() ==> #[trigger] collected(
                            *collect,
                            pattern_prefix_spec(patterns@[i]@),
                            Ok(found[i]),
                        )) && crate::config::strs(v@) == select_copy_spec(
                        concat_all(found),
                        crate::config::strs(patterns@),
                    ),
                Err(e) => exists|i: int|
                    0 <= i < patterns@.len() && #[trigger] collected(
                        *collect,
                        pattern_prefix_spec(patterns@[i]@),
                        Err(e@),
                    ),
            },
        },
{
    validate_copy_patterns(patterns)?;
    let mut cands: Vec<String> = Vec::new();
    let ghost mut found: Seq<Seq<Seq<char>>> = Seq::empty();
    let n = patterns.len();
    for i in 0..n
        invariant
            n == patterns@.len(),
            forall|p: String, m: usize| collect.requires((p, m)),
            patterns_error(crate::config::strs(patterns@)) is None,
            found.len() == i,
            crate::config::strs(cands@) == concat_all(found),
            forall|k: int|
                0 <= k < i ==> #[trigger] collected(*collect, pattern_prefix_spec(patterns@[k]@), Ok(found[k])),
    {
        let prefix = pattern_prefix(patterns[i].as_str());
        let ghost pv = prefix@;
        let ghost px = prefix;
        let count = cands.len();
        let got = collect(prefix, count);
        assert(collect.ensures((px, count), got));
        match got {
            Err(e) => {
                assert(collected(*collect, pattern_prefix_spec(patterns@[i as int]@), Err(e@)));
                return Err(e);
            },
            Ok(files) => {
                assert(collected(
                    *collect,
                    pattern_prefix_spec(patterns@[i as int]@),
                    Ok(crate::config::strs(files@)),
                ));
                let ghost before = crate::config::strs(cands@);
                let ghost fv = crate::config::strs(files@);
                let m = files.len();
                for j in 0..m
                    invariant
                        m == files@.len(),
                        fv == crate::config::strs(files@),
                        crate::config::strs(cands@) == before + fv.take(j as int),
                {
                    let ghost cv = crate::config::strs(cands@);
                    let f = crate::config::copy_string(&files[j]);
                    let ghost f2 = f@;
                    cands.push(f);
                    assert(crate::config::strs(cands@) =~= cv.push(f2));
                    assert(fv.take(j + 1) =~= fv.take(j as int).push(fv[j as int]));
                }
                assert(fv.take(m as int) == fv);
                proof {
                    let old_found = found;
                    found = found.push(fv);
                    assert(found.drop_last() == old_found);
                    assert forall|k: int|
                        0 <= k < i + 1 implies #[trigger] collected(
                        *collect,
                        pattern_prefix_spec(patterns@[k]@),
                        Ok(found[k]),
                    ) by {
                        if k < i {
                            assert(found[k] == old_found[k]);
                        }
                    }
                }
            },
        }
    }
    let v = select_copy_files(&cands, patterns);
    assert(crate::config::strs(v@) == select_copy_spec(concat_all(found), crate::config::strs(patterns@)));
    Ok(v)
}


/// What copying the allow-list into a new environment did.
#[derive(Debug)]
pub struct CopyOutcome {
    pub copied: usize,
    pub bytes: u64,
    /// Files left alone: links, and files already in the environment.
    pub skipped: Vec<String>,
}

/// A new environment.
#[derive(Debug)]
pub struct AddOutcome {
    pub path: String,
    pub branch: String,
    pub port: Option<u16>,
    pub copied: usize,
    pub skipped: Vec<String>,
}

/// Why the branch cannot get a new environment: it is checked out somewhere.
pub open spec fn in_use_error(ws: Seq<WorktreeInfoV>, b: Seq<char>) -> Option<Seq<char>> {
    match branch_index(ws, b) {
        Some(i) => Some(
            if ws[i].is_main {
                "分支 "@ + b + " 正在主工作区使用，请先在主工作区切到其他分支"@
            } else {
                "分支 "@ + b + " 已有环境："@ + ws[i].path
            },
        ),
        None => None,
    }
}

/// The port of a new environment: none without a port range, else the
/// branch's lease or the first free port of the range.
pub open spec fn port_plan(s: crate::config::WorktreeSettingsV, b: Seq<char>) -> Result<Option<u16>, Seq<char>> {
    match s.port_base {
        None => Ok(None),
        Some(base) => match lease_port_spec(s.leases, b) {
            Some(p) => Ok(Some(p)),
            None => match free_port_from(s.leases, b, base, 0) {
                Some(p) => Ok(Some(p)),
                None => Err(ports_exhausted_msg(base)),
            },
        },
    }
}

/// The base a new branch starts from: the trimmed `base` when not blank.
pub open spec fn base_ref_of(base: Option<Seq<char>>) -> Option<Seq<char>> {
    match base {
        Some(x) => if trim(x).len() > 0 {
            Some(trim(x))
        } else {
            None
        },
        None => None,
    }
}

/// The checks made before anything is run: both names must be branch names.
pub open spec fn add_precheck(branch: Seq<char>, base: Option<Seq<char>>) -> Option<Seq<char>> {
    match crate::git_write::validate_ref_spec(branch) {
        Err(e) => Some(e),
        Ok(()) => match base_ref_of(base) {
            Some(x) => match crate::git_write::validate_ref_spec(x) {
                Err(e) => Some(e),
                Ok(()) => None,
            },
            None => None,
        },
    }
}

pub open spec fn branch_exists_args(b: Seq<char>) -> Seq<Seq<char>> {
    seq!["rev-parse"@, "--verify"@, "--quiet"@, "refs/heads/"@ + b]
}

/// `git worktree add` for an existing branch, or one created from the base
/// (`HEAD` when none is given).
pub open spec fn add_args_spec(existing: bool, b: Seq<char>, target: Seq<char>, base_ref: Option<Seq<char>>) -> Seq<Seq<char>> {
    if existing {
        seq!["worktree"@, "add"@, target, b]
    } else {
        seq![
            "worktree"@,
            "add"@,
            "-b"@,
            b,
            target,
            match base_ref {
                Some(x) => x,
                None => "HEAD"@,
            },
        ]
    }
}

pub open spec fn opt_view(o: Option<&str>) -> Option<Seq<char>> {
    match o {
        Some(x) => Some(x@),
        None => None,
    }
}

/// The error `m` was returned.
pub open spec fn err_is(r: Result<AddOutcome, String>, m: Seq<char>) -> bool {
    r matches Err(e) && e@ == m
}

pub open spec fn unit_res(o: Result<(), String>) -> Result<(), Seq<char>> {
    match o {
        Ok(()) => Ok(()),
        Err(e) => Err(e@),
    }
}

/// `make_dir` was asked to create `p` and answered `out`.
pub open spec fn made<D: Fn(String) -> Result<(), String>>(make_dir: D, p: Seq<char>, out: Result<(), Seq<char>>) -> bool {
    exists|x: String, o: Result<(), String>| #[trigger] make_dir.ensures((x,), o) && x@ == p && unit_res(o) == out
}

/// `copy` was asked to copy the allow-list `patterns` into `target` and answered `out`.
pub open spec fn copied_into<P: Fn(String, Vec<String>) -> Result<CopyOutcome, String>>(
    copy: P,
    target: Seq<char>,
    patterns: Seq<Seq<char>>,
    out: Result<CopyOutcome, String>,
) -> bool {
    exists|x: String, y: Vec<String>| #[trigger] copy.ensures((x, y), out) && x@ == target && crate::config::strs(y@) == patterns
}

/// The new environment at `target` for branch `b`, with what was copied.
pub open spec fn env_is(r: Result<AddOutcome, String>, target: Seq<char>, b: Seq<char>, port: Option<u16>, copied: usize, skipped: Seq<Seq<char>>) -> bool {
    r matches Ok(out) && out.path@ == target && out.branch@ == b && out.port == port && out.copied == copied
        && crate::config::strs(out.skipped@) == skipped
}

/// The result once the copy answered `co`: its error, or the environment with
/// what it copied and left alone.
pub open spec fn after_copy(co: Result<CopyOutcome, String>, target: Seq<char>, b: Seq<char>, port: Option<u16>, r: Result<AddOutcome, String>) -> bool {
    match co {
        Err(m) => err_is(r, m@),
        Ok(c) => env_is(r, target, b, port, c.copied, crate::config::strs(c.skipped@)),
    }
}

/// The result once `git worktree add` answered `wo`: its error, or the
/// environment, after the allow-list (when there is one) was copied into it.
pub open spec fn after_write<P: Fn(String, Vec<String>) -> Result<CopyOutcome, String>>(
    copy: P,
    patterns: Seq<Seq<char>>,
    b: Seq<char>,
    port: Option<u16>,
    target: Seq<char>,
    wo: Result<Seq<char>, Seq<char>>,
    r: Result<AddOutcome, String>,
) -> bool {
    match wo {
        Err(e) => err_is(r, "创建环境失败："@ + e),
        Ok(_) => if patterns.len() == 0 {
            env_is(r, target, b, port, 0, seq![])
        } else {
            exists|co: Result<CopyOutcome, String>|
                #[trigger] copied_into(copy, target, patterns, co) && after_copy(co, target, b, port, r)
        },
    }
}

/// git was asked whether branch `b` exists and its answer said `ex`.
pub open spec fn branch_checked<F: Fn(Vec<String>) -> Result<String, String>>(git: F, b: Seq<char>, ex: bool) -> bool {
    if ex {
        crate::runner::ran_ok(git, branch_exists_args(b))
    } else {
        exists|e: Seq<char>| #[trigger] crate::runner::ran(git, branch_exists_args(b), Err(e))
    }
}

/// The result once the directory `target` was chosen: `git worktree add` for
/// the existing branch, or creating it from the base.
pub open spec fn after_target<
    F: Fn(Vec<String>) -> Result<String, String>,
    W: Fn(Vec<String>) -> Result<String, String>,
    P: Fn(String, Vec<String>) -> Result<CopyOutcome, String>,
>(
    git: F,
    write: W,
    copy: P,
    patterns: Seq<Seq<char>>,
    b: Seq<char>,
    base: Option<Seq<char>>,
    port: Option<u16>,
    target: Seq<char>,
    r: Result<AddOutcome, String>,
) -> bool {
    exists|ex: bool, wo: Result<Seq<char>, Seq<char>>|
        #[trigger] crate::runner::ran(write, add_args_spec(ex, b, target, base_ref_of(base)), wo) && branch_checked(git, b, ex)
            && after_write(copy, patterns, b, port, target, wo, r)
}

/// The result once the environments' root was asked for (`md`): its error, no
/// free directory, or the first free candidate directory and what follows.
pub open spec fn after_root<
    F: Fn(Vec<String>) -> Result<String, String>,
    W: Fn(Vec<String>) -> Result<String, String>,
    E: Fn(String) -> bool,
    P: Fn(String, Vec<String>) -> Result<CopyOutcome, String>,
>(
    git: F,
    write: W,
    probe: E,
    copy: P,
    patterns: Seq<Seq<char>>,
    root: Seq<char>,
    b: Seq<char>,
    base: Option<Seq<char>>,
    port: Option<u16>,
    md: Result<(), Seq<char>>,
    r: Result<AddOutcome, String>,
) -> bool {
    let slug = branch_slug_spec(b);
    match md {
        Err(e) => err_is(r, "创建环境根目录失败："@ + e),
        Ok(()) => {
            ||| err_is(r, all_taken_msg(root, slug)) && forall|j: int|
                1 <= j <= 999 ==> answered(probe, #[trigger] unique_candidate(root, slug, j), true)
            ||| exists|k: int|
                1 <= k <= 999 && answered(probe, #[trigger] unique_candidate(root, slug, k), false) && (forall|j: int|
                    1 <= j < k ==> answered(probe, #[trigger] unique_candidate(root, slug, j), true)) && after_target(
                    git,
                    write,
                    copy,
                    patterns,
                    b,
                    base,
                    port,
                    unique_candidate(root, slug, k),
                    r,
                )
        },
    }
}

/// The result once git listed the work trees (`lo`): its error, the branch
/// already in use, the port range used up, or the environment's root asked
/// for and what follows.
pub open spec fn after_list<
    F: Fn(Vec<String>) -> Result<String, String>,
    W: Fn(Vec<String>) -> Result<String, String>,
    D: Fn(String) -> Result<(), String>,
    E: Fn(String) -> bool,
    P: Fn(String, Vec<String>) -> Result<CopyOutcome, String>,
>(
    git: F,
    write: W,
    make_dir: D,
    probe: E,
    copy: P,
    repo: Seq<char>,
    settings: crate::config::WorktreeSettingsV,
    b: Seq<char>,
    base: Option<Seq<char>>,
    lo: Result<Seq<char>, Seq<char>>,
    r: Result<AddOutcome, String>,
) -> bool {
    let root = default_wt_root_spec(repo, settings.root);
    match lo {
        Err(e) => err_is(r, e),
        Ok(t) => match in_use_error(parse_worktree_list_spec(t), b) {
            Some(m) => err_is(r, m),
            None => match port_plan(settings, b) {
                Err(m) => err_is(r, m),
                Ok(port) => exists|md: Result<(), Seq<char>>|
                    #[trigger] made(make_dir, root, md) && after_root(
                        git,
                        write,
                        probe,
                        copy,
                        settings.copy,
                        root,
                        b,
                        base,
                        port,
                        md,
                        r,
                    ),
            },
        },
    }
}

/// What `add` returns, step by step, for whatever git, the disk and the copy answered.
pub open spec fn add_outcome<
    F: Fn(Vec<String>) -> Result<String, String>,
    W: Fn(Vec<String>) -> Result<String, String>,
    D: Fn(String) -> Result<(), String>,
    E: Fn(String) -> bool,
    P: Fn(String, Vec<String>) -> Result<CopyOutcome, String>,
>(
    git: F,
    write: W,
    make_dir: D,
    probe: E,
    copy: P,
    repo: Seq<char>,
    settings: crate::config::WorktreeSettingsV,
    branch: Seq<char>,
    base: Option<Seq<char>>,
    r: Result<AddOutcome, String>,
) -> bool {
    match add_precheck(branch, base) {
        Some(e) => err_is(r, e),
        None => exists|lo: Result<Seq<char>, Seq<char>>|
            #[trigger] crate::runner::ran(git, list_args(), lo) && after_list(
                git,
                write,
                make_dir,
                probe,
                copy,
                repo,
                settings,
                trim(branch),
                base,
                lo,
                r,
            ),
    }
}

/// Creates the environment for `branch`: checks both names, refuses a branch
/// already checked out, takes the port first (so an exhausted range leaves
/// nothing behind), makes the environments' root, picks a free directory
/// under it, runs `git worktree add` and copies the allow-list into the new
/// directory. A failed copy does not undo the environment.
#[verifier::spinoff_prover]
#[verifier::rlimit(60)]
pub fn add<
    F: Fn(Vec<String>) -> Result<String, String>,
    W: Fn(Vec<String>) -> Result<String, String>,
    D: Fn(String) -> Result<(), String>,
    E: Fn(String) -> bool,
    P: Fn(String, Vec<String>) -> Result<CopyOutcome, String>,
>(
    git: &F,
    write: &W,
    make_dir: &D,
    probe: &E,
    copy: &P,
    repo: &str,
    settings: &WorktreeSettings,
    branch: &str,
    base: Option<&str>,
) -> (r: Result<AddOutcome, String>)
    requires
        crate::runner::callable(*git),
        crate::runner::callable(*write),
        forall|x: String| make_dir.requires((x,)),
        forall|x: String| probe.requires((x,)),
        forall|x: String, y: Vec<String>| copy.requires((x, y)),
    ensures
        add_outcome(*git, *write, *make_dir, *probe, *copy, repo@, settings@, branch@, opt_view(base), r),
{
    crate::git_write::validate_ref_name(branch)?;
    let b = trimmed(&chars_of(branch));
    let bs = string_of(&b);
    let base_ref: Option<String> = match base {
        Some(x) => {
            let t = trimmed(&chars_of(x));
            if t.len() > 0 {
                Some(string_of(&t))
            } else {
                None
            }
        },
        None => None,
    };
    match &base_ref {
        Some(x) => {
            crate::git_write::validate_ref_name(x.as_str())?;
        },
        None => {},
    }
    proof {
        crate::text::lemma_trim_idempotent(branch@);
    }
    assert(add_precheck(branch@, opt_view(base)) is None);
    assert(base_ref_of(opt_view(base)) == crate::config::opt_str(base_ref));
    let ghost bv = trim(branch@);
    let ghost sv = settings@;
    let ghost rootv = default_wt_root_spec(repo@, sv.root);
    let ghost basev = opt_view(base);
    assert(b@ == bv);
    let existing = match list(git) {
        Err(e) => {
            let r: Result<AddOutcome, String> = Err(e);
            assert(after_list(*git, *write, *make_dir, *probe, *copy, repo@, sv, bv, basev, Err(e@), r));
            assert(crate::runner::ran(*git, list_args(), Err(e@)));
            return r;
        },
        Ok(v) => v,
    };
    let ghost o = choose|o: Seq<char>|
        #[trigger] crate::runner::ran(*git, list_args(), Ok(o)) && infos_view(existing@) == parse_worktree_list_spec(o);
    let ghost ws = infos_view(existing@);
    let ghost lo: Result<Seq<char>, Seq<char>> = Ok(o);
    assert(crate::runner::ran(*git, list_args(), lo));
    match find_branch(&existing, &b) {
        Some(i) => {
            assert(ws[i as int] == existing@[i as int]@);
            let mut m = chars_of("分支 ");
            extend_chars(&mut m, &b);
            if existing[i].is_main {
                extend_chars(&mut m, &chars_of(" 正在主工作区使用，请先在主工作区切到其他分支"));
            } else {
                extend_chars(&mut m, &chars_of(" 已有环境："));
                extend_chars(&mut m, &chars_of(existing[i].path.as_str()));
            }
            let r: Result<AddOutcome, String> = Err(string_of(&m));
            assert(in_use_error(parse_worktree_list_spec(o), bv) == Some(m@));
            assert(after_list(*git, *write, *make_dir, *probe, *copy, repo@, sv, bv, basev, lo, r));
            return r;
        },
        None => {},
    }
    assert(in_use_error(parse_worktree_list_spec(o), bv) is None);
    let port: Option<u16> = match settings.port_base {
        Some(pb) => {
            match allocate_port(&settings.leases, bs.as_str(), pb) {
                Ok(p) => Some(p),
                Err(m) => {
                    let r: Result<AddOutcome, String> = Err(m);
                    assert(port_plan(sv, bv) == Err::<Option<u16>, Seq<char>>(m@));
                    assert(after_list(*git, *write, *make_dir, *probe, *copy, repo@, sv, bv, basev, lo, r));
                    return r;
                },
            }
        },
        None => None,
    };
    assert(port_plan(sv, bv) == Ok::<Option<u16>, Seq<char>>(port));
    let root = default_wt_root(
        repo,
        match &settings.root {
            Some(x) => Some(x.as_str()),
            None => None,
        },
    );
    assert(root@ == rootv);
    let root_arg = crate::config::copy_string(&root);
    let ghost root_argv = root_arg;
    let mdo = make_dir(root_arg);
    let ghost md = unit_res(mdo);
    assert(made(*make_dir, rootv, md)) by {
        assert(make_dir.ensures((root_argv,), mdo));
    }
    match mdo {
        Err(e) => {
            let mut m = chars_of("创建环境根目录失败：");
            extend_chars(&mut m, &chars_of(e.as_str()));
            let r: Result<AddOutcome, String> = Err(string_of(&m));
            assert(after_root(*git, *write, *probe, *copy, sv.copy, rootv, bv, basev, port, md, r));
            assert(after_list(*git, *write, *make_dir, *probe, *copy, repo@, sv, bv, basev, lo, r));
            return r;
        },
        Ok(()) => {},
    }
    let slug = branch_slug(bs.as_str());
    assert(slug@ == branch_slug_spec(bv));
    let target = match unique_path(root.as_str(), slug.as_str(), probe) {
        Err(e) => {
            let r: Result<AddOutcome, String> = Err(e);
            assert(after_root(*git, *write, *probe, *copy, sv.copy, rootv, bv, basev, port, md, r));
            assert(after_list(*git, *write, *make_dir, *probe, *copy, repo@, sv, bv, basev, lo, r));
            return r;
        },
        Ok(t) => t,
    };
    let ghost k = choose|k: int|
        1 <= k <= 999 && target@ == unique_candidate(rootv, slug@, k) && answered(*probe, target@, false) && forall|j: int|
            1 <= j < k ==> answered(*probe, #[trigger] unique_candidate(rootv, slug@, j), true);
    let mut q = crate::runner::Args::new();
    q.lit("rev-parse");
    q.lit("--verify");
    q.lit("--quiet");
    let mut refname = chars_of("refs/heads/");
    extend_chars(&mut refname, &b);
    q.val(string_of(&refname));
    assert(crate::config::strs(q.v@) =~= branch_exists_args(b@));
    let ex = match crate::runner::call(git, q.v) {
        Ok(out) => {
            assert(crate::runner::ran(*git, branch_exists_args(b@), Ok(out@)));
            true
        },
        Err(e) => {
            assert(crate::runner::ran(*git, branch_exists_args(b@), Err(e@)));
            false
        },
    };
    assert(branch_checked(*git, bv, ex));
    let mut a = crate::runner::Args::new();
    a.lit("worktree");
    a.lit("add");
    if ex {
        a.val(crate::config::copy_string(&target));
        a.val(crate::config::copy_string(&bs));
    } else {
        a.lit("-b");
        a.val(crate::config::copy_string(&bs));
        a.val(crate::config::copy_string(&target));
        match &base_ref {
            Some(x) => a.val(crate::config::copy_string(x)),
            None => a.lit("HEAD"),
        }
    }
    let ghost args = add_args_spec(ex, bv, target@, base_ref_of(basev));
    assert(crate::config::strs(a.v@) =~= args);
    let ghost wo: Result<Seq<char>, Seq<char>>;
    let r: Result<AddOutcome, String> = match crate::runner::call(write, a.v) {
        Err(e) => {
            proof {
                wo = Err(e@);
            }
            assert(crate::runner::ran(*write, args, wo));
            let mut m = chars_of("创建环境失败：");
            extend_chars(&mut m, &chars_of(e.as_str()));
            Err(string_of(&m))
        },
        Ok(out) => {
            proof {
                wo = Ok(out@);
            }
            assert(crate::runner::ran(*write, args, wo));
            if settings.copy.len() == 0 {
                let sk: Vec<String> = Vec::new();
                assert(crate::config::strs(sk@) =~= Seq::<Seq<char>>::empty());
                Ok(AddOutcome { path: target, branch: bs, port, copied: 0, skipped: sk })
            } else {
                let x = crate::config::copy_string(&target);
                let y = crate::config::copy_strings(&settings.copy);
                let ghost xv = x;
                let ghost yv = y;
                let co = copy(x, y);
                assert(copied_into(*copy, target@, sv.copy, co)) by {
                    assert(copy.ensures((xv, yv), co));
                }
                match co {
                    Err(m) => Err(m),
                    Ok(c) => Ok(AddOutcome { path: target, branch: bs, port, copied: c.copied, skipped: c.skipped }),
                }
            }
        },
    };
    assert(after_write(*copy, sv.copy, bv, port, unique_candidate(rootv, branch_slug_spec(bv), k), wo, r));
    assert(after_target(*git, *write, *copy, sv.copy, bv, basev, port, unique_candidate(rootv, branch_slug_spec(bv), k), r));
    assert(after_root(*git, *write, *probe, *copy, sv.copy, rootv, bv, basev, port, md, r));
    assert(after_list(*git, *write, *make_dir, *probe, *copy, repo@, sv, bv, basev, lo, r));
    r
}

// ---------------------------------------------------------------------------
// What the lease operations keep

/// How many leases the (trimmed) branch `b` holds.
pub open spec fn lease_count(s: Seq<WorktreeLeaseV>, b: Seq<char>) -> nat
    decreases s.len(),
{
    if s.len() == 0 {
        0
    } else {
        lease_count(s.drop_last(), b) + if trim(s.last().branch) == b {
            1nat
        } else {
            0nat
        }
    }
}

/// Some lease of `b` holds port `p`.
pub open spec fn has_lease(s: Seq<WorktreeLeaseV>, b: Seq<char>, p: u16) -> bool {
    exists|i: int| 0 <= i < s.len() && trim(#[trigger] s[i].branch) == b && s[i].port == p
}

proof fn lemma_count_zero_index(s: Seq<WorktreeLeaseV>, b: Seq<char>)
    ensures
        (lease_count(s, b) == 0) <==> (lease_index(s, b) is None),
    decreases s.len(),
{
    if s.len() > 0 {
        lemma_count_zero_index(s.drop_last(), b);
    }
}

proof fn lemma_single_lease_found(s: Seq<WorktreeLeaseV>, b: Seq<char>, p: u16)
    requires
        lease_count(s, b) == 1,
        has_lease(s, b, p),
    ensures
        lease_index(s, b) matches Some(i) && s[i].port == p,
    decreases s.len(),
{
    let k = choose|i: int| 0 <= i < s.len() && trim(#[trigger] s[i].branch) == b && s[i].port == p;
    if k < s.len() - 1 {
        assert(s.drop_last()[k] == s[k]);
        assert(has_lease(s.drop_last(), b, p));
        if trim(s.last().branch) == b {
            lemma_count_positive(s.drop_last(), b, k);
            assert(false);
        }
        lemma_single_lease_found(s.drop_last(), b, p);
        lemma_lease_index(s.drop_last(), b);
        let i = lease_index(s.drop_last(), b)->0;
        assert(s.drop_last()[i] == s[i]);
    } else {
        lemma_count_zero_index(s.drop_last(), b);
    }
}

proof fn lemma_count_positive(s: Seq<WorktreeLeaseV>, b: Seq<char>, k: int)
    requires
        0 <= k < s.len(),
        trim(s[k].branch) == b,
    ensures
        lease_count(s, b) >= 1,
    decreases s.len(),
{
    if k < s.len() - 1 {
        assert(s.drop_last()[k] == s[k]);
        lemma_count_positive(s.drop_last(), b, k);
    }
}

proof fn lemma_insert_lease_count(s: Seq<WorktreeLeaseV>, x: WorktreeLeaseV, b: Seq<char>)
    ensures
        lease_count(insert_lease(s, x), b) == lease_count(s, b) + if trim(x.branch) == b {
            1nat
        } else {
            0nat
        },
    decreases s.len(),
{
    if s.len() == 0 {
        lemma_push_count(s, x, b);
        assert(insert_lease(s, x) == s.push(x));
    } else if seq_lt(x.branch, s.last().branch) {
        let t = insert_lease(s.drop_last(), x);
        lemma_insert_lease_count(s.drop_last(), x, b);
        lemma_push_count(t, s.last(), b);
        lemma_push_count(s.drop_last(), s.last(), b);
        assert(s.drop_last().push(s.last()) == s);
    } else {
        lemma_push_count(s, x, b);
    }
}

proof fn lemma_insert_lease_keeps(s: Seq<WorktreeLeaseV>, x: WorktreeLeaseV, b: Seq<char>, p: u16)
    ensures
        lease_count(insert_lease(s, x), b) == lease_count(s, b) + if trim(x.branch) == b {
            1nat
        } else {
            0nat
        },
        has_lease(s, b, p) || (trim(x.branch) == b && x.port == p) ==> has_lease(insert_lease(s, x), b, p),
    decreases s.len(),
{
    lemma_insert_lease_count(s, x, b);
    if s.len() == 0 {
        assert(insert_lease(s, x) == seq![x]);
        assert(seq![x].drop_last() =~= Seq::<WorktreeLeaseV>::empty());
        assert(seq![x].last() == x);
        if trim(x.branch) == b && x.port == p {
            assert(seq![x][0] == x);
        }
    } else if seq_lt(x.branch, s.last().branch) {
        let t = insert_lease(s.drop_last(), x);
        lemma_insert_lease_keeps(s.drop_last(), x, b, p);
        assert(insert_lease(s, x) == t.push(s.last()));
        assert(t.push(s.last()).drop_last() == t);
        assert(t.push(s.last()).last() == s.last());
        if has_lease(s, b, p) || (trim(x.branch) == b && x.port == p) {
            if has_lease(s, b, p) {
                let k = choose|i: int| 0 <= i < s.len() && trim(#[trigger] s[i].branch) == b && s[i].port == p;
                if k == s.len() - 1 {
                    assert(t.push(s.last())[t.len() as int] == s.last());
                } else {
                    assert(s.drop_last()[k] == s[k]);
                    assert(has_lease(s.drop_last(), b, p));
                    let j = choose|i: int| 0 <= i < t.len() && trim(#[trigger] t[i].branch) == b && t[i].port == p;
                    assert(t.push(s.last())[j] == t[j]);
                }
            } else {
                let j = choose|i: int| 0 <= i < t.len() && trim(#[trigger] t[i].branch) == b && t[i].port == p;
                assert(t.push(s.last())[j] == t[j]);
            }
        }
    } else {
        assert(insert_lease(s, x) == s.push(x));
        assert(s.push(x).drop_last() == s);
        assert(s.push(x).last() == x);
        if has_lease(s, b, p) {
            let k = choose|i: int| 0 <= i < s.len() && trim(#[trigger] s[i].branch) == b && s[i].port == p;
            assert(s.push(x)[k] == s[k]);
        } else if trim(x.branch) == b && x.port == p {
            assert(s.push(x)[s.len() as int] == x);
        }
    }
}

proof fn lemma_sort_keeps(s: Seq<WorktreeLeaseV>, b: Seq<char>, p: u16)
    ensures
        lease_count(sort_leases_spec(s), b) == lease_count(s, b),
        has_lease(s, b, p) ==> has_lease(sort_leases_spec(s), b, p),
    decreases s.len(),
{
    if s.len() > 0 {
        lemma_sort_keeps(s.drop_last(), b, p);
        lemma_insert_lease_keeps(sort_leases_spec(s.drop_last()), s.last(), b, p);
        if has_lease(s, b, p) {
            let k = choose|i: int| 0 <= i < s.len() && trim(#[trigger] s[i].branch) == b && s[i].port == p;
            if k < s.len() - 1 {
                assert(s.drop_last()[k] == s[k]);
                assert(has_lease(s.drop_last(), b, p));
            }
        }
    }
}

proof fn lemma_update_keeps(s: Seq<WorktreeLeaseV>, i: int, x: WorktreeLeaseV, b: Seq<char>)
    requires
        0 <= i < s.len(),
        trim(x.branch) == trim(s[i].branch),
    ensures
        lease_count(s.update(i, x), b) == lease_count(s, b),
    decreases s.len(),
{
    if i < s.len() - 1 {
        lemma_update_keeps(s.drop_last(), i, x, b);
        assert(s.update(i, x).drop_last() == s.drop_last().update(i, x));
    } else {
        assert(s.update(i, x).drop_last() == s.drop_last());
    }
}

proof fn lemma_push_count(s: Seq<WorktreeLeaseV>, x: WorktreeLeaseV, b: Seq<char>)
    ensures
        lease_count(s.push(x), b) == lease_count(s, b) + if trim(x.branch) == b {
            1nat
        } else {
            0nat
        },
{
    assert(s.push(x).drop_last() == s);
    assert(s.push(x).last() == x);
}

/// A branch that held at most one lease holds, after `upsert_lease`, exactly
/// one, with the new port: the lease the next environment of the branch is given.
pub proof fn lemma_upsert_then_lookup(ls: Seq<WorktreeLeaseV>, branch: Seq<char>, port: u16)
    requires
        lease_count(ls, trim(branch)) <= 1,
    ensures
        lease_count(upsert_spec(ls, branch, port), trim(branch)) == 1,
        lease_port_spec(upsert_spec(ls, branch, port), branch) == Some(port),
{
    let b = trim(branch);
    crate::text::lemma_trim_idempotent(branch);
    lemma_lease_index(ls, b);
    lemma_count_zero_index(ls, b);
    let updated = match lease_index(ls, b) {
        Some(i) => ls.update(i, WorktreeLeaseV { branch: ls[i].branch, port }),
        None => ls.push(WorktreeLeaseV { branch: b, port }),
    };
    match lease_index(ls, b) {
        Some(i) => {
            lemma_update_keeps(ls, i, WorktreeLeaseV { branch: ls[i].branch, port }, b);
            assert(updated[i] == WorktreeLeaseV { branch: ls[i].branch, port });
            assert(has_lease(updated, b, port));
        },
        None => {
            lemma_push_count(ls, WorktreeLeaseV { branch: b, port }, b);
            assert(updated[ls.len() as int] == WorktreeLeaseV { branch: b, port });
            assert(has_lease(updated, b, port));
        },
    }
    lemma_sort_keeps(updated, b, port);
    lemma_single_lease_found(sort_leases_spec(updated), b, port);
}

/// Other branches keep their leases through `upsert_lease`.
pub proof fn lemma_upsert_keeps_others(ls: Seq<WorktreeLeaseV>, branch: Seq<char>, port: u16, other: Seq<char>, p: u16)
    requires
        trim(other) != trim(branch),
        lease_count(ls, trim(other)) == 1,
        lease_port_spec(ls, other) == Some(p),
    ensures
        lease_port_spec(upsert_spec(ls, branch, port), other) == Some(p),
{
    let b = trim(branch);
    let o = trim(other);
    crate::text::lemma_trim_idempotent(other);
    crate::text::lemma_trim_idempotent(branch);
    lemma_lease_index(ls, b);
    lemma_lease_index(ls, o);
    let j = lease_index(ls, o)->0;
    assert(has_lease(ls, o, p));
    let updated = match lease_index(ls, b) {
        Some(i) => ls.update(i, WorktreeLeaseV { branch: ls[i].branch, port }),
        None => ls.push(WorktreeLeaseV { branch: b, port }),
    };
    match lease_index(ls, b) {
        Some(i) => {
            lemma_update_keeps(ls, i, WorktreeLeaseV { branch: ls[i].branch, port }, o);
            assert(i != j);
            assert(updated[j] == ls[j]);
        },
        None => {
            lemma_push_count(ls, WorktreeLeaseV { branch: b, port }, o);
            assert(updated[j] == ls[j]);
        },
    }
    assert(has_lease(updated, o, p));
    lemma_sort_keeps(updated, o, p);
    lemma_single_lease_found(sort_leases_spec(updated), o, p);
}

proof fn lemma_release_count(ls: Seq<WorktreeLeaseV>, branch: Seq<char>, b2: Seq<char>)
    ensures
        trim(b2) == trim(branch) ==> lease_count(release_spec(ls, branch), trim(b2)) == 0,
        trim(b2) != trim(branch) ==> (lease_index(release_spec(ls, branch), trim(b2)) matches Some(k)
            ==> (lease_index(ls, trim(b2)) matches Some(i) && release_spec(ls, branch)[k] == ls[i])),
        trim(b2) != trim(branch) ==> (lease_index(release_spec(ls, branch), trim(b2)) is None <==> lease_index(
            ls,
            trim(b2),
        ) is None),
    decreases ls.len(),
{
    if ls.len() > 0 {
        lemma_release_count(ls.drop_last(), branch, b2);
        lemma_lease_index(release_spec(ls.drop_last(), branch), trim(b2));
        lemma_lease_index(ls.drop_last(), trim(b2));
        let r0 = release_spec(ls.drop_last(), branch);
        if trim(ls.last().branch) != trim(branch) {
            assert(release_spec(ls, branch) == r0.push(ls.last()));
            assert(r0.push(ls.last()).drop_last() == r0);
            match lease_index(r0, trim(b2)) {
                Some(k) => {
                    assert(r0.push(ls.last())[k] == r0[k]);
                },
                None => {},
            }
        }
    }
}

/// After `release_lease` the branch holds no lease; every other branch keeps
/// the port it had.
pub proof fn lemma_release_then_lookup(ls: Seq<WorktreeLeaseV>, branch: Seq<char>, other: Seq<char>)
    ensures
        lease_port_spec(release_spec(ls, branch), branch) is None,
        trim(other) != trim(branch) ==> lease_port_spec(release_spec(ls, branch), other) == lease_port_spec(
            ls,
            other,
        ),
{
    lemma_release_count(ls, branch, branch);
    lemma_count_zero_index(release_spec(ls, branch), trim(branch));
    lemma_release_count(ls, branch, other);
}


// ---------------------------------------------------------------------------
// Environment names

proof fn lemma_collapse_keeps(s: Seq<char>)
    requires
        forall|i: int| 0 <= i < s.len() ==> !slug_bad(#[trigger] s[i]),
    ensures
        forall|i: int| 0 <= i < collapse_dashes(s).len() ==> !slug_bad(#[trigger] collapse_dashes(s)[i]),
    decreases s.len(),
{
    if s.len() > 0 {
        assert forall|i: int| 0 <= i < s.drop_last().len() implies !slug_bad(#[trigger] s.drop_last()[i]) by {
            assert(s.drop_last()[i] == s[i]);
        }
        lemma_collapse_keeps(s.drop_last());
        let p = collapse_dashes(s.drop_last());
        assert(!slug_bad(s[s.len() - 1]));
        if !(s.last() == '-' && p.len() > 0 && p.last() == '-') {
            assert forall|i: int| 0 <= i < p.push(s.last()).len() implies !slug_bad(#[trigger] p.push(s.last())[i]) by {
                if i < p.len() {
                    assert(p.push(s.last())[i] == p[i]);
                }
            }
        }
    }
}

proof fn lemma_strip_dashes_prefix(s: Seq<char>)
    ensures
        strip_dashes(s) == s.take(strip_dashes(s).len() as int),
        strip_dashes(s).len() <= s.len(),
        strip_dashes(s).len() > 0 ==> strip_dashes(s).last() != '-',
    decreases s.len(),
{
    if s.len() > 0 && s.last() == '-' {
        lemma_strip_dashes_prefix(s.drop_last());
        assert(s.drop_last().take(strip_dashes(s).len() as int) == s.take(strip_dashes(s).len() as int));
    } else {
        assert(s.take(s.len() as int) == s);
    }
}

/// A branch's directory name is a usable name: never empty, at most 48
/// characters, free of separators, dots, white space and the characters
/// Windows refuses, and it does not end with `-`.
pub proof fn lemma_slug_safe(branch: Seq<char>)
    ensures
        branch_slug_spec(branch).len() > 0,
        branch_slug_spec(branch).len() <= 48,
        forall|i: int| 0 <= i < branch_slug_spec(branch).len() ==> !slug_bad(#[trigger] branch_slug_spec(branch)[i]),
        branch_slug_spec(branch).last() != '-',
{
    let replaced = trim(branch).map_values(|c: char| if slug_bad(c) { '-' } else { c });
    assert forall|i: int| 0 <= i < replaced.len() implies !slug_bad(#[trigger] replaced[i]) by {}
    lemma_collapse_keeps(replaced);
    let c = collapse_dashes(replaced);
    let a = strip_dashes(c);
    lemma_strip_dashes_prefix(c);
    assert forall|i: int| 0 <= i < a.len() implies !slug_bad(#[trigger] a[i]) by {
        assert(a[i] == c[i]);
    }
    if a.len() > 48 {
        let t = a.take(48);
        lemma_strip_dashes_prefix(t);
        let b = strip_dashes(t);
        assert forall|i: int| 0 <= i < b.len() implies !slug_bad(#[trigger] b[i]) by {
            assert(b[i] == t[i]);
            assert(t[i] == a[i]);
        }
    }
    reveal_strlit("wt");
}

// ---------------------------------------------------------------------------
// The listing

/// The entries so far are marked main exactly at position 0, and the open
/// entry is main exactly when nothing came before it.
pub open spec fn main_marks_ok(st: (Seq<WorktreeInfoV>, Option<WorktreeInfoV>)) -> bool {
    &&& forall|i: int| 0 <= i < st.0.len() ==> (#[trigger] st.0[i].is_main <==> i == 0)
    &&& st.1 matches Some(e) ==> (e.is_main <==> st.0.len() == 0)
}

proof fn lemma_list_fold_main(ls: Seq<Seq<char>>)
    ensures
        main_marks_ok(list_fold(ls)),
    decreases ls.len(),
{
    if ls.len() > 0 {
        lemma_list_fold_main(ls.drop_last());
        let st = list_fold(ls.drop_last());
        let line = ls.last();
        if starts_with(line, "worktree "@) {
            let out2 = st.0 + opt_entry(st.1);
            assert forall|i: int| 0 <= i < out2.len() implies (#[trigger] out2[i].is_main <==> i == 0) by {
                if i < st.0.len() {
                    assert(out2[i] == st.0[i]);
                } else {
                    assert(out2[i] == st.1->0);
                }
            }
        }
    }
}

/// The first entry of git's listing is the main worktree, and only the first.
pub proof fn lemma_only_first_is_main(text: Seq<char>)
    ensures
        forall|i: int|
            0 <= i < parse_worktree_list_spec(text).len() ==> (#[trigger] parse_worktree_list_spec(text)[i].is_main
                <==> i == 0),
{
    let st = list_fold(lines(drop_char(text, '\r')));
    lemma_list_fold_main(lines(drop_char(text, '\r')));
    let all = st.0 + opt_entry(st.1);
    assert forall|i: int| 0 <= i < all.len() implies (#[trigger] all[i].is_main <==> i == 0) by {
        if i < st.0.len() {
            assert(all[i] == st.0[i]);
        } else {
            assert(all[i] == st.1->0);
        }
    }
}

// ---------------------------------------------------------------------------
// The allow-list

proof fn lemma_insert_sorted_member(s: Seq<Seq<char>>, x: Seq<char>, y: Seq<char>)
    requires
        crate::text::insert_sorted(s, x).contains(y),
    ensures
        y == x || s.contains(y),
    decreases s.len(),
{
    if s.len() > 0 {
        if seq_lt(x, s.last()) {
            let t = crate::text::insert_sorted(s.drop_last(), x);
            let k = choose|k: int| 0 <= k < t.push(s.last()).len() && t.push(s.last())[k] == y;
            if k < t.len() {
                assert(t[k] == y);
                lemma_insert_sorted_member(s.drop_last(), x, y);
                if y != x {
                    let j = choose|j: int| 0 <= j < s.drop_last().len() && s.drop_last()[j] == y;
                    assert(s[j] == y);
                }
            } else {
                assert(s[s.len() - 1] == y);
            }
        } else {
            let k = choose|k: int| 0 <= k < s.push(x).len() && s.push(x)[k] == y;
            if k < s.len() {
                assert(s[k] == y);
            }
        }
    } else {
        assert(seq![x][0] == x);
    }
}

proof fn lemma_sorted_member(s: Seq<Seq<char>>, y: Seq<char>)
    requires
        sorted_strs(s).contains(y),
    ensures
        s.contains(y),
    decreases s.len(),
{
    if s.len() > 0 {
        lemma_insert_sorted_member(sorted_strs(s.drop_last()), s.last(), y);
        if y != s.last() {
            lemma_sorted_member(s.drop_last(), y);
            let j = choose|j: int| 0 <= j < s.drop_last().len() && s.drop_last()[j] == y;
            assert(s[j] == y);
        } else {
            assert(s[s.len() - 1] == y);
        }
    }
}

proof fn lemma_dedup_member(s: Seq<Seq<char>>, y: Seq<char>)
    requires
        dedup_strs(s).contains(y),
    ensures
        s.contains(y),
    decreases s.len(),
{
    if s.len() > 0 {
        let prev = dedup_strs(s.drop_last());
        if s.len() > 1 && s[s.len() - 2] == s.last() {
            lemma_dedup_member(s.drop_last(), y);
        } else {
            let k = choose|k: int| 0 <= k < prev.push(s.last()).len() && prev.push(s.last())[k] == y;
            if k < prev.len() {
                assert(prev[k] == y);
                lemma_dedup_member(s.drop_last(), y);
            } else {
                assert(s[s.len() - 1] == y);
                return;
            }
        }
        let j = choose|j: int| 0 <= j < s.drop_last().len() && s.drop_last()[j] == y;
        assert(s[j] == y);
    }
}

proof fn lemma_picked_member(cands: Seq<Seq<char>>, pats: Seq<Seq<char>>, y: Seq<char>)
    requires
        picked_files(cands, pats).contains(y),
    ensures
        copy_keep(y, pats),
        exists|i: int| 0 <= i < cands.len() && y == normalize_rel_spec(#[trigger] cands[i]),
    decreases cands.len(),
{
    if cands.len() > 0 {
        let prev = picked_files(cands.drop_last(), pats);
        let c = normalize_rel_spec(cands.last());
        if copy_keep(c, pats) {
            let k = choose|k: int| 0 <= k < prev.push(c).len() && prev.push(c)[k] == y;
            if k < prev.len() {
                assert(prev[k] == y);
                lemma_picked_member(cands.drop_last(), pats, y);
                let i = choose|i: int| 0 <= i < cands.drop_last().len() && y == normalize_rel_spec(#[trigger] cands.drop_last()[i]);
                assert(cands[i] == cands.drop_last()[i]);
            } else {
                assert(y == c);
                assert(cands[cands.len() - 1] == cands.last());
            }
        } else {
            lemma_picked_member(cands.drop_last(), pats, y);
            let i = choose|i: int| 0 <= i < cands.drop_last().len() && y == normalize_rel_spec(#[trigger] cands.drop_last()[i]);
            assert(cands[i] == cands.drop_last()[i]);
        }
    }
}

/// Every file selected for copying is a candidate, normalized, not empty, not
/// denied (git metadata, dependencies, build output) and matched by an entry.
pub proof fn lemma_selected_files_allowed(cands: Seq<Seq<char>>, pats: Seq<Seq<char>>, y: Seq<char>)
    requires
        select_copy_spec(cands, pats).contains(y),
    ensures
        y.len() > 0,
        !denied_spec(y),
        exists|k: int| 0 <= k < pats.len() && pattern_matches_spec(#[trigger] pats[k], y),
        exists|i: int| 0 <= i < cands.len() && y == normalize_rel_spec(#[trigger] cands[i]),
{
    lemma_dedup_member(sorted_strs(picked_files(cands, pats)), y);
    lemma_sorted_member(picked_files(cands, pats), y);
    lemma_picked_member(cands, pats, y);
}

} // verus!
