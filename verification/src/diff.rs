//! The unified-diff parser: `git diff` / `git show --patch` text to files, hunks
//! and numbered lines.

use vstd::prelude::*;
use crate::text::{
    chars_of, ends_with, has_prefix, has_suffix, lines, lines_of, owned, parse_u32,
    parse_unsigned, slice_vec, split, split_by, starts_with, string_of, vec_eq, lemma_split_nonempty,
};

verus! {

#[derive(Debug)]
pub struct DiffLine {
    /// `add`, `del` or `context`.
    pub kind: String,
    pub old_no: Option<u32>,
    pub new_no: Option<u32>,
    pub text: String,
}

pub struct DiffLineV {
    pub kind: Seq<char>,
    pub old_no: Option<u32>,
    pub new_no: Option<u32>,
    pub text: Seq<char>,
}

impl View for DiffLine {
    type V = DiffLineV;

    open spec fn view(&self) -> DiffLineV {
        DiffLineV { kind: self.kind@, old_no: self.old_no, new_no: self.new_no, text: self.text@ }
    }
}

#[derive(Debug)]
pub struct Hunk {
    pub header: String,
    pub old_start: u32,
    pub new_start: u32,
    pub lines: Vec<DiffLine>,
}

pub struct HunkV {
    pub header: Seq<char>,
    pub old_start: u32,
    pub new_start: u32,
    pub lines: Seq<DiffLineV>,
}

impl View for Hunk {
    type V = HunkV;

    open spec fn view(&self) -> HunkV {
        HunkV {
            header: self.header@,
            old_start: self.old_start,
            new_start: self.new_start,
            lines: self.lines@.map_values(|l: DiffLine| l@),
        }
    }
}

#[derive(Debug)]
pub struct FileDiff {
    pub path: String,
    pub staged: bool,
    pub untracked: bool,
    pub binary: bool,
    pub truncated: bool,
    pub additions: u32,
    pub deletions: u32,
    pub hunks: Vec<Hunk>,
}

pub struct FileDiffV {
    pub path: Seq<char>,
    pub staged: bool,
    pub untracked: bool,
    pub binary: bool,
    pub truncated: bool,
    pub additions: u32,
    pub deletions: u32,
    pub hunks: Seq<HunkV>,
}

impl View for FileDiff {
    type V = FileDiffV;

    open spec fn view(&self) -> FileDiffV {
        FileDiffV {
            path: self.path@,
            staged: self.staged,
            untracked: self.untracked,
            binary: self.binary,
            truncated: self.truncated,
            additions: self.additions,
            deletions: self.deletions,
            hunks: self.hunks@.map_values(|h: Hunk| h@),
        }
    }
}

/// `x + 1`, wrapping at the top of `u32`.
pub open spec fn inc(x: u32) -> u32 {
    if x == u32::MAX {
        0
    } else {
        (x + 1) as u32
    }
}

fn inc_exec(x: u32) -> (r: u32)
    ensures
        r == inc(x),
{
    if x == u32::MAX {
        0
    } else {
        x + 1
    }
}

/// A file entry as a `diff --git` header opens it.
pub open spec fn empty_file() -> FileDiffV {
    FileDiffV {
        path: Seq::empty(),
        staged: false,
        untracked: false,
        binary: false,
        truncated: false,
        additions: 0,
        deletions: 0,
        hunks: Seq::empty(),
    }
}

/// The number before the first `,` of a hunk range, 0 when it does not parse.
pub open spec fn range_start(v: Seq<char>) -> u32 {
    match parse_unsigned(split(v, ',')[0], u32::MAX as nat) {
        Some(n) => n as u32,
        None => 0,
    }
}

/// The old and new start lines named by the parts of a hunk header.
pub open spec fn hunk_starts_fold(parts: Seq<Seq<char>>) -> (u32, u32)
    decreases parts.len(),
{
    if parts.len() == 0 {
        (0, 0)
    } else {
        let prev = hunk_starts_fold(parts.drop_last());
        let part = parts.last();
        if part.len() > 0 && part[0] == '-' {
            (range_start(part.drop_first()), prev.1)
        } else if part.len() > 0 && part[0] == '+' {
            (prev.0, range_start(part.drop_first()))
        } else {
            prev
        }
    }
}

/// Start lines of the header `-a,b +c,d @@ ...` (everything after `@@ `).
pub open spec fn hunk_starts(rest: Seq<char>) -> (u32, u32) {
    hunk_starts_fold(split(rest, ' '))
}

/// The parser's state between lines.
pub struct DiffSt {
    pub files: Seq<FileDiffV>,
    pub cur: Option<FileDiffV>,
    pub hunk: Option<HunkV>,
    pub old_no: u32,
    pub new_no: u32,
}

/// Closes the open hunk into the open file.
pub open spec fn flush_hunk(st: DiffSt) -> DiffSt {
    match (st.cur, st.hunk) {
        (Some(f), Some(h)) => DiffSt {
            cur: Some(FileDiffV { hunks: f.hunks.push(h), ..f }),
            hunk: None,
            ..st
        },
        _ => DiffSt { hunk: None, ..st },
    }
}

/// Closes the open hunk and the open file.
pub open spec fn flush_file(st: DiffSt) -> DiffSt {
    let s = flush_hunk(st);
    match s.cur {
        Some(f) => DiffSt { files: s.files.push(f), cur: None, ..s },
        None => s,
    }
}

/// A body line of the open hunk.
pub open spec fn body_step(st: DiffSt, line: Seq<char>) -> DiffSt {
    let h = st.hunk.unwrap();
    let f = st.cur.unwrap();
    if line.len() == 0 || line[0] == '\\' || (line[0] != '+' && line[0] != '-' && line[0] != ' ') {
        st
    } else {
        let c = line[0];
        let kind = if c == '+' {
            "add"@
        } else if c == '-' {
            "del"@
        } else {
            "context"@
        };
        let old_n = if c == '+' {
            None
        } else {
            Some(st.old_no)
        };
        let new_n = if c == '-' {
            None
        } else {
            Some(st.new_no)
        };
        let dl = DiffLineV { kind, old_no: old_n, new_no: new_n, text: line.drop_first() };
        DiffSt {
            old_no: if c != '+' {
                inc(st.old_no)
            } else {
                st.old_no
            },
            new_no: if c != '-' {
                inc(st.new_no)
            } else {
                st.new_no
            },
            cur: Some(
                FileDiffV {
                    additions: if c == '+' {
                        inc(f.additions)
                    } else {
                        f.additions
                    },
                    deletions: if c == '-' {
                        inc(f.deletions)
                    } else {
                        f.deletions
                    },
                    ..f
                },
            ),
            hunk: Some(HunkV { lines: h.lines.push(dl), ..h }),
            ..st
        }
    }
}

/// One line of diff text applied to the parser's state.
pub open spec fn diff_step(st: DiffSt, line: Seq<char>) -> DiffSt {
    if starts_with(line, "diff --git "@) {
        DiffSt { cur: Some(empty_file()), ..flush_file(st) }
    } else if st.cur is None {
        st
    } else if starts_with(line, "+++ "@) {
        let s = flush_hunk(st);
        let rest = line.skip("+++ "@.len() as int);
        let f = s.cur.unwrap();
        if starts_with(rest, "b/"@) {
            DiffSt { cur: Some(FileDiffV { path: rest.skip("b/"@.len() as int), ..f }), ..s }
        } else if rest != "/dev/null"@ {
            DiffSt { cur: Some(FileDiffV { path: rest, ..f }), ..s }
        } else {
            s
        }
    } else if starts_with(line, "Binary files "@) && ends_with(line, " differ"@) {
        DiffSt { cur: Some(FileDiffV { binary: true, ..st.cur.unwrap() }), ..st }
    } else if starts_with(line, "@@ "@) {
        let s = flush_hunk(st);
        let rest = line.skip("@@ "@.len() as int);
        let (os, ns) = hunk_starts(rest);
        DiffSt {
            old_no: os,
            new_no: ns,
            hunk: Some(HunkV { header: "@@ "@ + rest, old_start: os, new_start: ns, lines: Seq::empty() }),
            ..s
        }
    } else if st.hunk is Some {
        body_step(st, line)
    } else {
        st
    }
}

pub open spec fn diff_fold(ls: Seq<Seq<char>>) -> DiffSt
    decreases ls.len(),
{
    if ls.len() == 0 {
        DiffSt { files: Seq::empty(), cur: None, hunk: None, old_no: 0, new_no: 0 }
    } else {
        diff_step(diff_fold(ls.drop_last()), ls.last())
    }
}

/// Added lines over all files.
pub open spec fn adds_sum(fs: Seq<FileDiffV>) -> int
    decreases fs.len(),
{
    if fs.len() == 0 {
        0
    } else {
        adds_sum(fs.drop_last()) + fs.last().additions
    }
}

/// Deleted lines over all files.
pub open spec fn dels_sum(fs: Seq<FileDiffV>) -> int
    decreases fs.len(),
{
    if fs.len() == 0 {
        0
    } else {
        dels_sum(fs.drop_last()) + fs.last().deletions
    }
}

/// Changed lines counted so far, in closed files and in the open one.
pub open spec fn st_changes(st: DiffSt) -> int {
    adds_sum(st.files) + dels_sum(st.files) + match st.cur {
        Some(f) => f.additions + f.deletions,
        None => 0,
    }
}

proof fn lemma_flush_keeps_changes(st: DiffSt)
    ensures
        st_changes(flush_hunk(st)) == st_changes(st),
        st_changes(flush_file(st)) == st_changes(st),
        flush_file(st).cur is None,
{
    let s = flush_hunk(st);
    match s.cur {
        Some(f) => {
            assert(s.files.push(f).drop_last() =~= s.files);
        },
        None => {},
    }
}

proof fn lemma_fold_changes(ls: Seq<Seq<char>>)
    requires
        ls.len() < u32::MAX,
    ensures
        st_changes(diff_fold(ls)) <= ls.len(),
    decreases ls.len(),
{
    if ls.len() > 0 {
        lemma_fold_changes(ls.drop_last());
        let st = diff_fold(ls.drop_last());
        lemma_flush_keeps_changes(st);
        let line = ls.last();
        if starts_with(line, "diff --git "@) {
            assert(diff_fold(ls) == DiffSt { cur: Some(empty_file()), ..flush_file(st) });
        } else if st.cur is None {
        } else if starts_with(line, "+++ "@) {
        } else if starts_with(line, "Binary files "@) && ends_with(line, " differ"@) {
        } else if starts_with(line, "@@ "@) {
        } else if st.hunk is Some {
            assert(diff_fold(ls) == body_step(st, line));
        } else {
        }
    }
}

/// Every counted line is a line of the text: the totals over all files stay
/// within the number of lines.
pub proof fn lemma_changes_within_lines(text: Seq<char>)
    requires
        lines(text).len() < u32::MAX,
    ensures
        adds_sum(parse_unified_diff_spec(text)) + dels_sum(parse_unified_diff_spec(text)) <= lines(text).len(),
{
    lemma_fold_changes(lines(text));
    lemma_flush_keeps_changes(diff_fold(lines(text)));
}

/// How many of the lines open a file (`diff --git `).
pub open spec fn file_headers(ls: Seq<Seq<char>>) -> nat
    decreases ls.len(),
{
    if ls.len() == 0 {
        0
    } else {
        file_headers(ls.drop_last()) + if starts_with(ls.last(), "diff --git "@) {
            1nat
        } else {
            0nat
        }
    }
}

/// Files closed and open: the closed ones, and one more while a file is open.
pub open spec fn st_files(st: DiffSt) -> nat {
    st.files.len() + if st.cur is Some {
        1nat
    } else {
        0nat
    }
}

proof fn lemma_fold_files(ls: Seq<Seq<char>>)
    ensures
        st_files(diff_fold(ls)) == file_headers(ls),
    decreases ls.len(),
{
    if ls.len() > 0 {
        lemma_fold_files(ls.drop_last());
        let st = diff_fold(ls.drop_last());
        let line = ls.last();
        assert(diff_fold(ls) == diff_step(st, line));
        assert(flush_hunk(st).files == st.files && (flush_hunk(st).cur is Some <==> st.cur is Some));
        if starts_with(line, "diff --git "@) {
            assert(st_files(flush_file(st)) == st_files(st));
        } else if st.cur is None {
        } else if starts_with(line, "+++ "@) {
        } else if starts_with(line, "Binary files "@) && ends_with(line, " differ"@) {
        } else if starts_with(line, "@@ "@) {
        } else if st.hunk is Some {
            assert(diff_fold(ls) == body_step(st, line));
        } else {
        }
    }
}

/// A diff gives one file for each `diff --git ` line of its text.
pub proof fn lemma_one_file_per_header(text: Seq<char>)
    ensures
        parse_unified_diff_spec(text).len() == file_headers(lines(text)),
{
    lemma_fold_files(lines(text));
    let st = diff_fold(lines(text));
    assert(flush_hunk(st).files == st.files && (flush_hunk(st).cur is Some <==> st.cur is Some));
}

/// How many of the lines belong to the new side (all but deletions).
pub open spec fn new_side(ls: Seq<DiffLineV>) -> nat
    decreases ls.len(),
{
    if ls.len() == 0 {
        0
    } else {
        new_side(ls.drop_last()) + if ls.last().kind != "del"@ {
            1nat
        } else {
            0nat
        }
    }
}

/// How many of the lines belong to the old side (all but additions).
pub open spec fn old_side(ls: Seq<DiffLineV>) -> nat
    decreases ls.len(),
{
    if ls.len() == 0 {
        0
    } else {
        old_side(ls.drop_last()) + if ls.last().kind != "add"@ {
            1nat
        } else {
            0nat
        }
    }
}

/// `x + k` on the `u32` line numbers, which wrap at the top.
pub open spec fn wrap_add(x: u32, k: nat) -> u32 {
    ((x + k) % 4294967296) as u32
}

/// The lines of a hunk are numbered from its starts: the `k`-th line of the
/// new side (an addition or context) has new number `new_start + k`, the
/// `k`-th line of the old side (a deletion or context) has old number
/// `old_start + k`; an addition has no old number and a deletion no new one.
pub open spec fn numbered(h: HunkV) -> bool {
    forall|i: int|
        0 <= i < h.lines.len() ==> {
            &&& (#[trigger] h.lines[i]).new_no == (if h.lines[i].kind != "del"@ {
                Some(wrap_add(h.new_start, new_side(h.lines.take(i))))
            } else {
                None
            })
            &&& h.lines[i].old_no == (if h.lines[i].kind != "add"@ {
                Some(wrap_add(h.old_start, old_side(h.lines.take(i))))
            } else {
                None
            })
        }
}

pub open spec fn file_numbered(f: FileDiffV) -> bool {
    forall|j: int| 0 <= j < f.hunks.len() ==> numbered(#[trigger] f.hunks[j])
}

pub open spec fn files_numbered(fs: Seq<FileDiffV>) -> bool {
    forall|i: int| 0 <= i < fs.len() ==> file_numbered(#[trigger] fs[i])
}

/// The parser's state keeps every hunk numbered, and its counters at the next
/// numbers of the open hunk.
pub open spec fn st_numbered(st: DiffSt) -> bool {
    &&& files_numbered(st.files)
    &&& (st.cur matches Some(f) ==> file_numbered(f))
    &&& (st.hunk matches Some(h) ==> numbered(h) && st.new_no == wrap_add(h.new_start, new_side(h.lines)) && st.old_no
        == wrap_add(h.old_start, old_side(h.lines)))
}

proof fn lemma_inc_wrap(x: u32, k: nat)
    ensures
        inc(wrap_add(x, k)) == wrap_add(x, k + 1),
{
    let m: int = 4294967296;
    let a: int = (x + k) % m;
    assert(0 <= a < m);
    assert((x + k + 1) % m == if a == m - 1 { 0 } else { a + 1 }) by (nonlinear_arith)
        requires
            a == (x + k) % m,
            m == 4294967296,
            0 <= a < m,
    ;
}

proof fn lemma_flush_numbered(st: DiffSt)
    requires
        st_numbered(st),
    ensures
        st_numbered(flush_hunk(st)),
        st_numbered(flush_file(st)),
{
    let s = flush_hunk(st);
    match (st.cur, st.hunk) {
        (Some(f), Some(h)) => {
            let f2 = FileDiffV { hunks: f.hunks.push(h), ..f };
            assert(file_numbered(f2)) by {
                assert forall|j: int| 0 <= j < f2.hunks.len() implies numbered(#[trigger] f2.hunks[j]) by {
                    if j < f.hunks.len() {
                        assert(f2.hunks[j] == f.hunks[j]);
                    }
                }
            }
        },
        _ => {},
    }
    match s.cur {
        Some(f) => {
            let fs = s.files.push(f);
            assert forall|i: int| 0 <= i < fs.len() implies file_numbered(#[trigger] fs[i]) by {
                if i < s.files.len() {
                    assert(fs[i] == s.files[i]);
                }
            }
        },
        None => {},
    }
}

proof fn lemma_body_numbered(st: DiffSt, line: Seq<char>)
    requires
        st_numbered(st),
        st.cur is Some,
        st.hunk is Some,
    ensures
        st_numbered(body_step(st, line)),
{
    reveal_strlit("add");
    reveal_strlit("del");
    reveal_strlit("context");
    let h = st.hunk.unwrap();
    let f = st.cur.unwrap();
    if line.len() == 0 || line[0] == '\\' || (line[0] != '+' && line[0] != '-' && line[0] != ' ') {
    } else {
        let out = body_step(st, line);
        let c = line[0];
        let h2 = out.hunk.unwrap();
        let dl = h2.lines.last();
        assert(h2.lines == h.lines.push(dl));
        assert(h2.lines.drop_last() == h.lines);
        assert(h2.lines.take(h.lines.len() as int) == h.lines);
        assert("add"@ != "del"@ && "add"@ != "context"@ && "del"@ != "context"@) by {
            assert("add"@[0] != "del"@[0]);
            assert("add"@[0] != "context"@[0]);
            assert("del"@[0] != "context"@[0]);
        }
        lemma_inc_wrap(h.new_start, new_side(h.lines));
        lemma_inc_wrap(h.old_start, old_side(h.lines));
        assert(wrap_add(h.new_start, 0) == h.new_start);
        assert forall|i: int| 0 <= i < h2.lines.len() implies {
            &&& (#[trigger] h2.lines[i]).new_no == (if h2.lines[i].kind != "del"@ {
                Some(wrap_add(h2.new_start, new_side(h2.lines.take(i))))
            } else {
                None
            })
            &&& h2.lines[i].old_no == (if h2.lines[i].kind != "add"@ {
                Some(wrap_add(h2.old_start, old_side(h2.lines.take(i))))
            } else {
                None
            })
        } by {
            if i < h.lines.len() {
                assert(h2.lines[i] == h.lines[i]);
                assert(h2.lines.take(i) == h.lines.take(i));
            }
        }
        assert(numbered(h2));
        assert(out.cur.unwrap().hunks == f.hunks);
    }
}

proof fn lemma_fold_numbered(ls: Seq<Seq<char>>)
    ensures
        st_numbered(diff_fold(ls)),
    decreases ls.len(),
{
    if ls.len() == 0 {
        assert(files_numbered(Seq::<FileDiffV>::empty()));
    } else {
        lemma_fold_numbered(ls.drop_last());
        let st = diff_fold(ls.drop_last());
        let line = ls.last();
        lemma_flush_numbered(st);
        assert(diff_fold(ls) == diff_step(st, line));
        if starts_with(line, "diff --git "@) {
            assert(file_numbered(empty_file()));
        } else if st.cur is None {
        } else if starts_with(line, "+++ "@) {
        } else if starts_with(line, "Binary files "@) && ends_with(line, " differ"@) {
        } else if starts_with(line, "@@ "@) {
            let s = flush_hunk(st);
            let rest = line.skip("@@ "@.len() as int);
            let (os, ns) = hunk_starts(rest);
            let h = HunkV { header: "@@ "@ + rest, old_start: os, new_start: ns, lines: Seq::empty() };
            assert(numbered(h));
            assert(wrap_add(ns, 0) == ns);
            assert(wrap_add(os, 0) == os);
        } else if st.hunk is Some {
            lemma_body_numbered(st, line);
        } else {
        }
    }
}

/// Every hunk of a parsed diff is numbered from its starts: additions and
/// context lines run on from the new start, deletions and context lines from
/// the old start, each side counting only its own lines.
pub proof fn lemma_hunks_numbered(text: Seq<char>)
    ensures
        files_numbered(parse_unified_diff_spec(text)),
{
    lemma_fold_numbered(lines(text));
    lemma_flush_numbered(diff_fold(lines(text)));
}

/// The files that `parse_unified_diff` gives for `text`.
pub open spec fn parse_unified_diff_spec(text: Seq<char>) -> Seq<FileDiffV> {
    flush_file(diff_fold(lines(text))).files
}

fn range_start_exec(v: &[char]) -> (r: u32)
    ensures
        r == range_start(v@),
{
    let pieces = split_by(v, ',');
    proof {
        lemma_split_nonempty(v@, ',');
    }
    match parse_u32(&pieces[0]) {
        Some(n) => n,
        None => 0,
    }
}

/// Start lines named by a hunk header (the text after `@@ `).
pub fn parse_hunk_starts(rest: &[char]) -> (r: (u32, u32))
    ensures
        r == hunk_starts(rest@),
{
    let parts = split_by(rest, ' ');
    let mut old: u32 = 0;
    let mut new: u32 = 0;
    let n = parts.len();
    for i in 0..n
        invariant
            n == parts@.len(),
            n == split(rest@, ' ').len(),
            forall|k: int| 0 <= k < n ==> #[trigger] parts@[k]@ == split(rest@, ' ')[k],
            (old, new) == hunk_starts_fold(split(rest@, ' ').take(i as int)),
    {
        let ghost ps = split(rest@, ' ').take(i + 1);
        assert(ps.drop_last() == split(rest@, ' ').take(i as int));
        let part = &parts[i];
        assert(part@ == ps.last());
        if part.len() > 0 && part[0] == '-' {
            let tail = slice_vec(part, 1, part.len());
            assert(tail@ == part@.drop_first());
            old = range_start_exec(&tail);
        } else if part.len() > 0 && part[0] == '+' {
            let tail = slice_vec(part, 1, part.len());
            assert(tail@ == part@.drop_first());
            new = range_start_exec(&tail);
        }
    }
    assert(split(rest@, ' ').take(n as int) == split(rest@, ' '));
    (old, new)
}

pub open spec fn opt_file(o: Option<FileDiff>) -> Option<FileDiffV> {
    match o {
        Some(f) => Some(f@),
        None => None,
    }
}

pub open spec fn opt_hunk(o: Option<Hunk>) -> Option<HunkV> {
    match o {
        Some(h) => Some(h@),
        None => None,
    }
}

struct DiffParser {
    files: Vec<FileDiff>,
    cur: Option<FileDiff>,
    hunk: Option<Hunk>,
    old_no: u32,
    new_no: u32,
}

impl View for DiffParser {
    type V = DiffSt;

    closed spec fn view(&self) -> DiffSt {
        DiffSt {
            files: self.files@.map_values(|f: FileDiff| f@),
            cur: opt_file(self.cur),
            hunk: opt_hunk(self.hunk),
            old_no: self.old_no,
            new_no: self.new_no,
        }
    }
}

fn new_file() -> (f: FileDiff)
    ensures
        f@ == empty_file(),
{
    let f = FileDiff {
        path: String::new(),
        staged: false,
        untracked: false,
        binary: false,
        truncated: false,
        additions: 0,
        deletions: 0,
        hunks: Vec::new(),
    };
    assert(f@.hunks =~= Seq::<HunkV>::empty());
    f
}

impl DiffParser {
    fn flush_hunk(&mut self)
        ensures
            final(self)@ == flush_hunk(old(self)@),
    {
        let h = self.hunk.take();
        match h {
            Some(h) => {
                match self.cur.take() {
                    Some(mut f) => {
                        let ghost hv = h@;
                        let ghost before = f@;
                        f.hunks.push(h);
                        assert(f@.hunks =~= before.hunks.push(hv));
                        self.cur = Some(f);
                    },
                    None => {},
                }
            },
            None => {},
        }
    }

    fn flush_file(&mut self)
        ensures
            final(self)@ == flush_file(old(self)@),
    {
        self.flush_hunk();
        match self.cur.take() {
            Some(f) => {
                let ghost fv = f@;
                let ghost before = self.files@.map_values(|x: FileDiff| x@);
                self.files.push(f);
                assert(self.files@.map_values(|x: FileDiff| x@) =~= before.push(fv));
            },
            None => {},
        }
    }

    fn body(&mut self, line: &[char])
        requires
            old(self).cur is Some,
            old(self).hunk is Some,
        ensures
            final(self)@ == body_step(old(self)@, line@),
    {
        if line.len() == 0 || line[0] == '\\' || (line[0] != '+' && line[0] != '-' && line[0] != ' ') {
            return ;
        }
        let c = line[0];
        let kind = if c == '+' {
            owned("add")
        } else if c == '-' {
            owned("del")
        } else {
            owned("context")
        };
        let old_n = if c == '+' {
            None
        } else {
            Some(self.old_no)
        };
        let new_n = if c == '-' {
            None
        } else {
            Some(self.new_no)
        };
        let text = slice_vec(line, 1, line.len());
        assert(text@ == line@.drop_first());
        let dl = DiffLine { kind, old_no: old_n, new_no: new_n, text: string_of(&text) };
        if c != '+' {
            self.old_no = inc_exec(self.old_no);
        }
        if c != '-' {
            self.new_no = inc_exec(self.new_no);
        }
        let mut f = self.cur.take().unwrap();
        if c == '+' {
            f.additions = inc_exec(f.additions);
        } else if c == '-' {
            f.deletions = inc_exec(f.deletions);
        }
        self.cur = Some(f);
        let mut h = self.hunk.take().unwrap();
        let ghost before = h@;
        let ghost dv = dl@;
        h.lines.push(dl);
        assert(h@.lines =~= before.lines.push(dv));
        self.hunk = Some(h);
    }

    fn step(&mut self, line: &[char])
        ensures
            final(self)@ == diff_step(old(self)@, line@),
    {
        let p_diff = chars_of("diff --git ");
        let p_plus = chars_of("+++ ");
        let p_b = chars_of("b/");
        let p_bin = chars_of("Binary files ");
        let s_differ = chars_of(" differ");
        let p_at = chars_of("@@ ");
        if has_prefix(line, &p_diff) {
            self.flush_file();
            self.cur = Some(new_file());
        } else if self.cur.is_none() {
        } else if has_prefix(line, &p_plus) {
            self.flush_hunk();
            let rest = slice_vec(line, p_plus.len(), line.len());
            assert(rest@ == line@.skip("+++ "@.len() as int));
            let mut f = self.cur.take().unwrap();
            if has_prefix(&rest, &p_b) {
                let p = slice_vec(&rest, p_b.len(), rest.len());
                assert(p@ == rest@.skip("b/"@.len() as int));
                f.path = string_of(&p);
            } else if !vec_eq(&rest, &chars_of("/dev/null")) {
                f.path = string_of(&rest);
            }
            self.cur = Some(f);
        } else if has_prefix(line, &p_bin) && has_suffix(line, &s_differ) {
            let mut f = self.cur.take().unwrap();
            f.binary = true;
            self.cur = Some(f);
        } else if has_prefix(line, &p_at) {
            self.flush_hunk();
            let rest = slice_vec(line, p_at.len(), line.len());
            assert(rest@ == line@.skip("@@ "@.len() as int));
            let (os, ns) = parse_hunk_starts(&rest);
            self.old_no = os;
            self.new_no = ns;
            let mut header = string_of(&p_at);
            header.append(string_of(&rest).as_str());
            let h = Hunk { header, old_start: os, new_start: ns, lines: Vec::new() };
            assert(h@.lines =~= Seq::<DiffLineV>::empty());
            self.hunk = Some(h);
        } else if self.hunk.is_some() {
            self.body(line);
        }
    }
}

/// Parses `git diff` / `git show --patch` text into files.
pub fn parse_unified_diff(text: &str) -> (r: Vec<FileDiff>)
    ensures
        r@.map_values(|f: FileDiff| f@) == parse_unified_diff_spec(text@),
{
    let mut p = DiffParser { files: Vec::new(), cur: None, hunk: None, old_no: 0, new_no: 0 };
    assert(p@.files =~= Seq::<FileDiffV>::empty());
    let ls = lines_of(&chars_of(text));
    let n = ls.len();
    for i in 0..n
        invariant
            n == ls@.len(),
            n == lines(text@).len(),
            forall|k: int| 0 <= k < n ==> #[trigger] ls@[k]@ == lines(text@)[k],
            p@ == diff_fold(lines(text@).take(i as int)),
    {
        let ghost prefix = lines(text@).take(i + 1);
        assert(prefix.drop_last() == lines(text@).take(i as int));
        p.step(&ls[i]);
    }
    assert(lines(text@).take(n as int) == lines(text@));
    p.flush_file();
    p.files
}

} // verus!
