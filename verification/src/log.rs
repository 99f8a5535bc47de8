//! Commit history: the `git log` record parser and the lane layout of the
//! commit graph.

use vstd::prelude::*;
use crate::text::{
    chars_of, copy_chars, lemma_split_nonempty, split, split_by, string_of, trim, trimmed,
    trimmed_pieces, trimmed_pieces_exec, vec_eq, words, words_of,
};

verus! {

#[derive(Debug)]
pub struct Commit {
    pub hash: String,
    pub short: String,
    pub parents: Vec<String>,
    pub author: String,
    pub email: String,
    pub date: String,
    pub subject: String,
    pub refs: Vec<String>,
}

pub struct CommitV {
    pub hash: Seq<char>,
    pub short: Seq<char>,
    pub parents: Seq<Seq<char>>,
    pub author: Seq<char>,
    pub email: Seq<char>,
    pub date: Seq<char>,
    pub subject: Seq<char>,
    pub refs: Seq<Seq<char>>,
}

pub open spec fn strs_view(v: Seq<String>) -> Seq<Seq<char>> {
    v.map_values(|s: String| s@)
}

impl View for Commit {
    type V = CommitV;

    open spec fn view(&self) -> CommitV {
        CommitV {
            hash: self.hash@,
            short: self.short@,
            parents: strs_view(self.parents@),
            author: self.author@,
            email: self.email@,
            date: self.date@,
            subject: self.subject@,
            refs: strs_view(self.refs@),
        }
    }
}

pub open spec fn commits_view(v: Seq<Commit>) -> Seq<CommitV> {
    v.map_values(|c: Commit| c@)
}

/// Owned strings holding the given character vectors.
pub fn strings_of(v: &Vec<Vec<char>>) -> (r: Vec<String>)
    ensures
        strs_view(r@) == v@.map_values(|x: Vec<char>| x@),
{
    let mut out: Vec<String> = Vec::new();
    let n = v.len();
    for i in 0..n
        invariant
            n == v@.len(),
            strs_view(out@) == v@.take(i as int).map_values(|x: Vec<char>| x@),
    {
        let ghost ov = strs_view(out@);
        let s = string_of(&v[i]);
        let ghost sv = s@;
        out.push(s);
        assert(strs_view(out@) =~= ov.push(sv));
        assert(v@.take(i + 1).map_values(|x: Vec<char>| x@) =~= v@.take(i as int).map_values(|x: Vec<char>| x@).push(v@[i as int]@));
    }
    assert(v@.take(n as int) == v@);
    out
}

pub fn clone_strings(v: &Vec<String>) -> (r: Vec<String>)
    ensures
        strs_view(r@) == strs_view(v@),
{
    let mut out: Vec<String> = Vec::new();
    let n = v.len();
    for i in 0..n
        invariant
            n == v@.len(),
            strs_view(out@) == strs_view(v@.take(i as int)),
    {
        let ghost ov = strs_view(out@);
        let s = v[i].clone();
        out.push(s);
        assert(strs_view(out@) =~= ov.push(v@[i as int]@));
        assert(strs_view(v@.take(i + 1)) =~= strs_view(v@.take(i as int)).push(v@[i as int]@));
    }
    assert(v@.take(n as int) == v@);
    out
}

pub fn clone_commit(c: &Commit) -> (r: Commit)
    ensures
        r@ == c@,
{
    Commit {
        hash: c.hash.clone(),
        short: c.short.clone(),
        parents: clone_strings(&c.parents),
        author: c.author.clone(),
        email: c.email.clone(),
        date: c.date.clone(),
        subject: c.subject.clone(),
        refs: clone_strings(&c.refs),
    }
}

pub open spec fn is_nl(c: char) -> bool {
    c == '\n' || c == '\r'
}

pub open spec fn trim_nl_start(s: Seq<char>) -> Seq<char>
    decreases s.len(),
{
    if s.len() > 0 && is_nl(s[0]) {
        trim_nl_start(s.drop_first())
    } else {
        s
    }
}

pub open spec fn trim_nl_end(s: Seq<char>) -> Seq<char>
    decreases s.len(),
{
    if s.len() > 0 && is_nl(s.last()) {
        trim_nl_end(s.drop_last())
    } else {
        s
    }
}

/// `s` without leading and trailing `\n` / `\r`.
pub open spec fn trim_nl(s: Seq<char>) -> Seq<char> {
    trim_nl_end(trim_nl_start(s))
}

proof fn lemma_trim_nl_start_skip(s: Seq<char>, i: int)
    requires
        0 <= i <= s.len(),
        forall|j: int| 0 <= j < i ==> is_nl(s[j]),
    ensures
        trim_nl_start(s) == trim_nl_start(s.skip(i)),
    decreases i,
{
    if i > 0 {
        assert(is_nl(s[0]));
        assert forall|j: int| 0 <= j < i - 1 implies is_nl(s.drop_first()[j]) by {
            assert(s.drop_first()[j] == s[j + 1]);
        }
        lemma_trim_nl_start_skip(s.drop_first(), i - 1);
        assert(s.drop_first().skip(i - 1) == s.skip(i));
    } else {
        assert(s.skip(0) == s);
    }
}

proof fn lemma_trim_nl_end_take(s: Seq<char>, i: int)
    requires
        0 <= i <= s.len(),
        forall|j: int| i <= j < s.len() ==> is_nl(s[j]),
    ensures
        trim_nl_end(s) == trim_nl_end(s.take(i)),
    decreases s.len() - i,
{
    if i < s.len() {
        lemma_trim_nl_end_take(s.drop_last(), i);
        assert(s.drop_last().take(i) == s.take(i));
    } else {
        assert(s.take(i) == s);
    }
}

fn trim_nl_exec(s: &[char]) -> (r: Vec<char>)
    ensures
        r@ == trim_nl(s@),
{
    let mut a: usize = 0;
    while a < s.len() && (s[a] == '\n' || s[a] == '\r')
        invariant
            a <= s@.len(),
            forall|j: int| 0 <= j < a ==> is_nl(s@[j]),
        decreases s@.len() - a,
    {
        a = a + 1;
    }
    let mut b: usize = s.len();
    while b > a && (s[b - 1] == '\n' || s[b - 1] == '\r')
        invariant
            a <= b <= s@.len(),
            forall|j: int| b <= j < s@.len() ==> is_nl(s@[j]),
        decreases b,
    {
        b = b - 1;
    }
    proof {
        lemma_trim_nl_start_skip(s@, a as int);
        let t = s@.skip(a as int);
        if a < s@.len() {
            assert(!is_nl(t[0]));
        }
        assert(trim_nl_start(t) == t);
        assert forall|j: int| b - a <= j < t.len() implies is_nl(t[j]) by {
            assert(t[j] == s@[a + j]);
        }
        lemma_trim_nl_end_take(t, b - a);
        let u = t.take(b - a);
        if b > a {
            assert(u.last() == s@[b - 1]);
        }
        assert(trim_nl_end(u) == u);
        assert(u =~= s@.subrange(a as int, b as int));
    }
    crate::text::slice_vec(s, a, b)
}

/// The commit of one `\x1f`-separated log record, if it has all eight fields.
pub open spec fn commit_record(rec: Seq<char>) -> Option<CommitV> {
    let f = split(rec, '\u{1f}');
    if f.len() < 8 {
        None
    } else {
        Some(
            CommitV {
                hash: f[0],
                short: f[1],
                parents: words(f[2]),
                author: f[3],
                email: f[4],
                date: f[5],
                subject: f[6],
                refs: trimmed_pieces(split(f[7], ',')),
            },
        )
    }
}

/// Commits of the records in `rs` (empty records and malformed ones are skipped).
pub open spec fn log_fold(rs: Seq<Seq<char>>) -> Seq<CommitV>
    decreases rs.len(),
{
    if rs.len() == 0 {
        Seq::empty()
    } else {
        let prev = log_fold(rs.drop_last());
        let rec = trim_nl(rs.last());
        if rec.len() > 0 {
            match commit_record(rec) {
                Some(c) => prev.push(c),
                None => prev,
            }
        } else {
            prev
        }
    }
}

/// What `parse_log` gives for `text`.
pub open spec fn parse_log_spec(text: Seq<char>) -> Seq<CommitV> {
    log_fold(split(text, '\u{1e}'))
}

fn parse_commit_record(rec: &[char]) -> (r: Option<Commit>)
    ensures
        match commit_record(rec@) {
            Some(c) => r matches Some(x) && x@ == c,
            None => r is None,
        },
{
    let f = split_by(rec, '\u{1f}');
    let ghost fv = split(rec@, '\u{1f}');
    if f.len() < 8 {
        return None;
    }
    let parents = words_of(&f[2]);
    assert(parents@.map_values(|x: Vec<char>| x@) =~= words(fv[2]));
    let sp7 = split_by(&f[7], ',');
    assert(sp7@.map_values(|x: Vec<char>| x@) =~= split(fv[7], ','));
    let refs = trimmed_pieces_exec(&sp7);
    let c = Commit {
        hash: string_of(&f[0]),
        short: string_of(&f[1]),
        parents: strings_of(&parents),
        author: string_of(&f[3]),
        email: string_of(&f[4]),
        date: string_of(&f[5]),
        subject: string_of(&f[6]),
        refs: strings_of(&refs),
    };
    Some(c)
}

/// Parses `git log` output written with the `%x1f`/`%x1e` separated format.
pub fn parse_log(text: &str) -> (r: Vec<Commit>)
    ensures
        commits_view(r@) == parse_log_spec(text@),
{
    let rs = split_by(&chars_of(text), '\u{1e}');
    let ghost rv = split(text@, '\u{1e}');
    let mut out: Vec<Commit> = Vec::new();
    let n = rs.len();
    for i in 0..n
        invariant
            n == rs@.len(),
            n == rv.len(),
            rv == split(text@, '\u{1e}'),
            forall|k: int| 0 <= k < n ==> #[trigger] rs@[k]@ == rv[k],
            commits_view(out@) == log_fold(rv.take(i as int)),
    {
        let ghost ov = commits_view(out@);
        assert(rv.take(i + 1).drop_last() == rv.take(i as int));
        assert(rv.take(i + 1).last() == rs@[i as int]@);
        let rec = trim_nl_exec(&rs[i]);
        if rec.len() > 0 {
            match parse_commit_record(&rec) {
                Some(c) => {
                    let ghost cv = c@;
                    out.push(c);
                    assert(commits_view(out@) =~= ov.push(cv));
                },
                None => {},
            }
        }
    }
    assert(rv.take(n as int) == rv);
    out
}

/// A failed log in a work tree whose `HEAD` does not exist yet is an empty
/// history; other failures pass through, and a success is parsed.
pub fn log_result(result: Result<String, String>, in_work_tree: bool, head_exists: bool) -> (r: Result<Vec<Commit>, String>)
    ensures
        match result {
            Ok(text) => r matches Ok(x) && commits_view(x@) == parse_log_spec(text@),
            Err(e) => if in_work_tree && !head_exists {
                r matches Ok(x) && x@.len() == 0
            } else {
                r matches Err(x) && x@ == e@
            },
        },
{
    match result {
        Ok(text) => Ok(parse_log(text.as_str())),
        Err(e) => {
            if in_work_tree && !head_exists {
                Ok(Vec::new())
            } else {
                Err(e)
            }
        },
    }
}

// ---------------------------------------------------------------------------
// Graph lanes

#[derive(Debug)]
pub struct GraphEdge {
    pub from_lane: u16,
    pub to_lane: u16,
    pub parent_hash: String,
}

pub struct GraphEdgeV {
    pub from_lane: u16,
    pub to_lane: u16,
    pub parent_hash: Seq<char>,
}

impl View for GraphEdge {
    type V = GraphEdgeV;

    open spec fn view(&self) -> GraphEdgeV {
        GraphEdgeV { from_lane: self.from_lane, to_lane: self.to_lane, parent_hash: self.parent_hash@ }
    }
}

pub open spec fn edges_view(v: Seq<GraphEdge>) -> Seq<GraphEdgeV> {
    v.map_values(|e: GraphEdge| e@)
}

#[derive(Debug)]
pub struct GraphRow {
    pub commit: Commit,
    pub lane: u16,
    pub color: u8,
    pub passes: Vec<u16>,
    pub edges: Vec<GraphEdge>,
}

pub struct GraphRowV {
    pub commit: CommitV,
    pub lane: u16,
    pub color: u8,
    pub passes: Seq<u16>,
    pub edges: Seq<GraphEdgeV>,
}

impl View for GraphRow {
    type V = GraphRowV;

    open spec fn view(&self) -> GraphRowV {
        GraphRowV {
            commit: self.commit@,
            lane: self.lane,
            color: self.color,
            passes: self.passes@,
            edges: edges_view(self.edges@),
        }
    }
}

pub open spec fn rows_view(v: Seq<GraphRow>) -> Seq<GraphRowV> {
    v.map_values(|r: GraphRow| r@)
}

/// Lanes in use (each waiting for the commit it names), their colors, and the
/// color the next new lane gets.
pub struct LaneSt {
    pub lanes: Seq<Option<Seq<char>>>,
    pub colors: Seq<u8>,
    pub next: u8,
}

pub open spec fn wrap_inc8(x: u8) -> u8 {
    if x == 255 {
        0
    } else {
        (x + 1) as u8
    }
}

/// First lane waiting for `h`.
pub open spec fn find_lane(lanes: Seq<Option<Seq<char>>>, h: Seq<char>) -> Option<int>
    decreases lanes.len(),
{
    if lanes.len() == 0 {
        None
    } else {
        match find_lane(lanes.drop_last(), h) {
            Some(i) => Some(i),
            None => if lanes.last() == Some(h) {
                Some(lanes.len() - 1)
            } else {
                None
            },
        }
    }
}

/// First free lane.
pub open spec fn find_free(lanes: Seq<Option<Seq<char>>>) -> Option<int>
    decreases lanes.len(),
{
    if lanes.len() == 0 {
        None
    } else {
        match find_free(lanes.drop_last()) {
            Some(i) => Some(i),
            None => if lanes.last() is None {
                Some(lanes.len() - 1)
            } else {
                None
            },
        }
    }
}

/// A lane for a new line of descent: the first free one, else a new one with the next color.
pub open spec fn alloc_lane(st: LaneSt) -> (LaneSt, int) {
    match find_free(st.lanes) {
        Some(i) => (st, i),
        None => (
            LaneSt {
                lanes: st.lanes.push(None),
                colors: st.colors.push(st.next),
                next: wrap_inc8(st.next),
            },
            st.lanes.len() as int,
        ),
    }
}

/// The lane of the commit `h`: the first lane waiting for it (the others waiting
/// for it merge into it and are freed), else a new one.
pub open spec fn commit_lane(st: LaneSt, h: Seq<char>) -> (LaneSt, int) {
    match find_lane(st.lanes, h) {
        Some(f) => (
            LaneSt {
                lanes: Seq::new(
                    st.lanes.len(),
                    |i: int| if i != f && st.lanes[i] == Some(h) {
                        None
                    } else {
                        st.lanes[i]
                    },
                ),
                ..st
            },
            f,
        ),
        None => alloc_lane(st),
    }
}

/// The extra parents after the first one, each leading to a lane and an edge.
pub open spec fn parents_fold(st: LaneSt, lane: int, ps: Seq<Seq<char>>) -> (LaneSt, Seq<GraphEdgeV>)
    decreases ps.len(),
{
    if ps.len() == 0 {
        (st, Seq::empty())
    } else {
        let (s, edges) = parents_fold(st, lane, ps.drop_last());
        let parent = ps.last();
        let (s2, target) = match find_lane(s.lanes, parent) {
            Some(t) => (s, t),
            None => alloc_lane(s),
        };
        (
            LaneSt { lanes: s2.lanes.update(target, Some(parent)), ..s2 },
            edges.push(GraphEdgeV { from_lane: lane as u16, to_lane: target as u16, parent_hash: parent }),
        )
    }
}

/// The lanes still in use.
pub open spec fn passes_of(lanes: Seq<Option<Seq<char>>>) -> Seq<u16>
    decreases lanes.len(),
{
    if lanes.len() == 0 {
        Seq::empty()
    } else if lanes.last() is Some {
        passes_of(lanes.drop_last()).push((lanes.len() - 1) as u16)
    } else {
        passes_of(lanes.drop_last())
    }
}

/// One commit placed on the graph.
pub open spec fn lane_step(st: LaneSt, c: CommitV) -> (LaneSt, GraphRowV) {
    let (s1, lane) = commit_lane(st, c.hash);
    let first = if c.parents.len() > 0 {
        Some(c.parents[0])
    } else {
        None
    };
    let s2 = LaneSt { lanes: s1.lanes.update(lane, first), ..s1 };
    let extra = if c.parents.len() > 0 {
        c.parents.skip(1)
    } else {
        Seq::empty()
    };
    let (s3, edges) = parents_fold(s2, lane, extra);
    (
        s3,
        GraphRowV {
            commit: c,
            lane: lane as u16,
            color: if lane < s3.colors.len() {
                s3.colors[lane]
            } else {
                0
            },
            passes: passes_of(s3.lanes),
            edges,
        },
    )
}

pub open spec fn lanes_fold(cs: Seq<CommitV>) -> (LaneSt, Seq<GraphRowV>)
    decreases cs.len(),
{
    if cs.len() == 0 {
        (LaneSt { lanes: Seq::empty(), colors: Seq::empty(), next: 0 }, Seq::empty())
    } else {
        let (st, rows) = lanes_fold(cs.drop_last());
        let (st2, row) = lane_step(st, cs.last());
        (st2, rows.push(row))
    }
}

/// The rows that `assign_lanes` gives for newest-first `commits`.
pub open spec fn assign_lanes_spec(cs: Seq<CommitV>) -> Seq<GraphRowV> {
    lanes_fold(cs).1
}

proof fn lemma_find_lane_none(lanes: Seq<Option<Seq<char>>>, h: Seq<char>)
    requires
        find_lane(lanes, h) is None,
    ensures
        forall|j: int| 0 <= j < lanes.len() ==> lanes[j] != Some(h),
    decreases lanes.len(),
{
    if lanes.len() > 0 {
        lemma_find_lane_none(lanes.drop_last(), h);
        assert forall|j: int| 0 <= j < lanes.len() implies lanes[j] != Some(h) by {
            if j < lanes.len() - 1 {
                assert(lanes[j] == lanes.drop_last()[j]);
            }
        }
    }
}

proof fn lemma_find_lane_some(lanes: Seq<Option<Seq<char>>>, h: Seq<char>)
    ensures
        find_lane(lanes, h) matches Some(i) ==> 0 <= i < lanes.len() && lanes[i] == Some(h),
    decreases lanes.len(),
{
    if lanes.len() > 0 {
        lemma_find_lane_some(lanes.drop_last(), h);
    }
}

proof fn lemma_find_free_some(lanes: Seq<Option<Seq<char>>>)
    ensures
        find_free(lanes) matches Some(i) ==> 0 <= i < lanes.len() && lanes[i] is None,
    decreases lanes.len(),
{
    if lanes.len() > 0 {
        lemma_find_free_some(lanes.drop_last());
    }
}

/// A new lane lies within the lanes, which grow by at most that one free lane.
proof fn lemma_alloc_lane(st: LaneSt)
    ensures
        0 <= alloc_lane(st).1 < alloc_lane(st).0.lanes.len(),
        alloc_lane(st).0.lanes.len() >= st.lanes.len(),
        forall|j: int| 0 <= j < st.lanes.len() ==> alloc_lane(st).0.lanes[j] == st.lanes[j],
        alloc_lane(st).0.lanes.len() <= st.lanes.len() + 1,
        alloc_lane(st).0.lanes.len() > st.lanes.len() ==> alloc_lane(st).1 == st.lanes.len(),
{
    lemma_find_free_some(st.lanes);
}

proof fn lemma_parents_fold_waits(st: LaneSt, lane: int, ps: Seq<Seq<char>>, h: Seq<char>)
    requires
        forall|j: int| 0 <= j < st.lanes.len() && j != lane ==> st.lanes[j] != Some(h),
    ensures
        forall|j: int|
            0 <= j < parents_fold(st, lane, ps).0.lanes.len() && j != lane && parents_fold(st, lane, ps).0.lanes[j] == Some(
                h,
            ) ==> ps.contains(h),
    decreases ps.len(),
{
    if ps.len() > 0 {
        lemma_parents_fold_waits(st, lane, ps.drop_last(), h);
        let s = parents_fold(st, lane, ps.drop_last()).0;
        let parent = ps.last();
        let (s2, target) = match find_lane(s.lanes, parent) {
            Some(t) => (s, t),
            None => alloc_lane(s),
        };
        lemma_find_lane_some(s.lanes, parent);
        lemma_alloc_lane(s);
        assert(0 <= target < s2.lanes.len());
        assert(forall|j: int| 0 <= j < s.lanes.len() ==> s2.lanes[j] == s.lanes[j]);
        assert(s2.lanes.len() <= s.lanes.len() + 1);
        assert(s2.lanes.len() > s.lanes.len() ==> target == s.lanes.len());
        let out = parents_fold(st, lane, ps).0;
        assert(out.lanes == s2.lanes.update(target, Some(parent)));
        assert forall|j: int| 0 <= j < out.lanes.len() && j != lane && out.lanes[j] == Some(h) implies ps.contains(h) by {
            if j == target {
                assert(ps[ps.len() - 1] == h);
            } else {
                if j < s.lanes.len() {
                    assert(s2.lanes[j] == s.lanes[j]);
                    if s.lanes[j] == Some(h) {
                        assert(ps.drop_last().contains(h));
                        let k = choose|k: int| 0 <= k < ps.drop_last().len() && ps.drop_last()[k] == h;
                        assert(ps[k] == h);
                    }
                }
            }
        }
    }
}

/// Once a commit has its row, no lane but its own still waits for it: every
/// other lane that waited for the commit merges into its lane and is freed
/// (unless the commit names itself as a merge parent).
pub proof fn lemma_placed_commit_is_awaited_no_more(st: LaneSt, c: CommitV)
    ensures
        ({
            let lane = commit_lane(st, c.hash).1;
            let after = lane_step(st, c).0;
            forall|j: int|
                0 <= j < after.lanes.len() && j != lane && after.lanes[j] == Some(c.hash) ==> c.parents.len() > 1
                    && c.parents.skip(1).contains(c.hash)
        }),
{
    let h = c.hash;
    let (s1, lane) = commit_lane(st, h);
    lemma_find_lane_some(st.lanes, h);
    lemma_alloc_lane(st);
    assert(0 <= lane < s1.lanes.len());
    match find_lane(st.lanes, h) {
        Some(f) => {},
        None => {
            lemma_find_lane_none(st.lanes, h);
            match find_free(st.lanes) {
                Some(i) => {},
                None => {
                    assert forall|j: int| 0 <= j < s1.lanes.len() && j != lane implies s1.lanes[j] != Some(h) by {
                        if j < st.lanes.len() {
                            assert(s1.lanes[j] == st.lanes[j]);
                        }
                    }
                },
            }
        },
    }
    assert(forall|j: int| 0 <= j < s1.lanes.len() && j != lane ==> s1.lanes[j] != Some(h));
    let first = if c.parents.len() > 0 {
        Some(c.parents[0])
    } else {
        None
    };
    let s2 = LaneSt { lanes: s1.lanes.update(lane, first), ..s1 };
    let extra = if c.parents.len() > 0 {
        c.parents.skip(1)
    } else {
        Seq::empty()
    };
    assert(forall|j: int| 0 <= j < s2.lanes.len() && j != lane ==> s2.lanes[j] != Some(h));
    lemma_parents_fold_waits(s2, lane, extra, h);
    assert(lane_step(st, c).0 == parents_fold(s2, lane, extra).0);
    if extra.contains(h) {
        assert(extra.len() > 0);
    }
}

proof fn lemma_parents_fold_edges(st: LaneSt, lane: int, ps: Seq<Seq<char>>)
    ensures
        parents_fold(st, lane, ps).1.len() == ps.len(),
        forall|k: int|
            0 <= k < ps.len() ==> (#[trigger] parents_fold(st, lane, ps).1[k]).from_lane == lane as u16
                && parents_fold(st, lane, ps).1[k].parent_hash == ps[k],
    decreases ps.len(),
{
    if ps.len() > 0 {
        lemma_parents_fold_edges(st, lane, ps.drop_last());
        let e = parents_fold(st, lane, ps).1;
        let e0 = parents_fold(st, lane, ps.drop_last()).1;
        assert forall|k: int| 0 <= k < ps.len() implies (#[trigger] e[k]).from_lane == lane as u16 && e[k].parent_hash
            == ps[k] by {
            if k < ps.len() - 1 {
                assert(e[k] == e0[k]);
            }
        }
    }
}

/// Row `row` is the commit `c`, with one edge from its own lane to each parent
/// after the first, in order.
pub open spec fn row_fits(row: GraphRowV, c: CommitV) -> bool {
    &&& row.commit == c
    &&& row.edges.len() == (if c.parents.len() > 0 {
        c.parents.len() - 1
    } else {
        0
    })
    &&& forall|k: int|
        0 <= k < row.edges.len() ==> (#[trigger] row.edges[k]).from_lane == row.lane && row.edges[k].parent_hash
            == c.parents[k + 1]
}

proof fn lemma_lanes_fold_rows(cs: Seq<CommitV>)
    ensures
        lanes_fold(cs).1.len() == cs.len(),
        forall|i: int| 0 <= i < cs.len() ==> row_fits(#[trigger] lanes_fold(cs).1[i], cs[i]),
    decreases cs.len(),
{
    if cs.len() > 0 {
        lemma_lanes_fold_rows(cs.drop_last());
        let (st, rows) = lanes_fold(cs.drop_last());
        let c = cs.last();
        let (s1, lane) = commit_lane(st, c.hash);
        let first = if c.parents.len() > 0 {
            Some(c.parents[0])
        } else {
            None
        };
        let s2 = LaneSt { lanes: s1.lanes.update(lane, first), ..s1 };
        let extra = if c.parents.len() > 0 {
            c.parents.skip(1)
        } else {
            Seq::empty()
        };
        lemma_parents_fold_edges(s2, lane, extra);
        let row = lane_step(st, c).1;
        assert(row.edges == parents_fold(s2, lane, extra).1);
        assert forall|k: int| 0 <= k < row.edges.len() implies (#[trigger] row.edges[k]).from_lane == row.lane
            && row.edges[k].parent_hash == c.parents[k + 1] by {
            assert(extra[k] == c.parents[k + 1]);
        }
        assert(row_fits(row, c));
        assert forall|i: int| 0 <= i < cs.len() implies row_fits(#[trigger] lanes_fold(cs).1[i], cs[i]) by {
            if i < cs.len() - 1 {
                assert(lanes_fold(cs).1[i] == rows[i]);
                assert(cs[i] == cs.drop_last()[i]);
            }
        }
    }
}

/// The graph has one row per commit, in order; each row carries its commit and
/// one edge from the commit's lane to each parent after the first.
pub proof fn lemma_rows_follow_commits(cs: Seq<CommitV>)
    ensures
        assign_lanes_spec(cs).len() == cs.len(),
        forall|i: int| 0 <= i < cs.len() ==> row_fits(#[trigger] assign_lanes_spec(cs)[i], cs[i]),
{
    lemma_lanes_fold_rows(cs);
}

pub open spec fn lanes_of(v: Seq<Option<Vec<char>>>) -> Seq<Option<Seq<char>>> {
    v.map_values(|o: Option<Vec<char>>| match o {
        Some(x) => Some(x@),
        None => None,
    })
}

struct Lanes {
    lanes: Vec<Option<Vec<char>>>,
    colors: Vec<u8>,
    next: u8,
}

impl View for Lanes {
    type V = LaneSt;

    closed spec fn view(&self) -> LaneSt {
        LaneSt { lanes: lanes_of(self.lanes@), colors: self.colors@, next: self.next }
    }
}

impl Lanes {
    spec fn lens_agree(&self) -> bool {
        self.lanes@.len() == self.colors@.len()
    }

    fn len(&self) -> (n: usize)
        ensures
            n == self@.lanes.len(),
            self.lens_agree() ==> n == self@.colors.len(),
    {
        self.lanes.len()
    }

    fn find(&self, h: &[char]) -> (r: Option<usize>)
        ensures
            r is Some <==> find_lane(self@.lanes, h@) is Some,
            r matches Some(i) ==> find_lane(self@.lanes, h@) == Some(i as int) && i < self@.lanes.len(),
    {
        let ghost lv = self@.lanes;
        let n = self.lanes.len();
        for i in 0..n
            invariant
                n == lv.len(),
                lv == self@.lanes,
                n == self.lanes@.len(),
                find_lane(lv.take(i as int), h@) is None,
        {
            assert(lv.take(i + 1).drop_last() == lv.take(i as int));
            let hit = match &self.lanes[i] {
                Some(x) => vec_eq(x, h),
                None => false,
            };
            assert(lv[i as int] == (match self.lanes@[i as int] {
                Some(x) => Some(x@),
                None => None::<Seq<char>>,
            }));
            if hit {
                proof {
                    lemma_find_lane_prefix(lv, h@, i as int + 1);
                }
                return Some(i);
            }
        }
        assert(lv.take(n as int) == lv);
        None
    }

    fn find_free(&self) -> (r: Option<usize>)
        ensures
            r is Some <==> find_free(self@.lanes) is Some,
            r matches Some(i) ==> find_free(self@.lanes) == Some(i as int) && i < self@.lanes.len(),
    {
        let ghost lv = self@.lanes;
        let n = self.lanes.len();
        for i in 0..n
            invariant
                n == lv.len(),
                lv == self@.lanes,
                n == self.lanes@.len(),
                find_free(lv.take(i as int)) is None,
        {
            assert(lv.take(i + 1).drop_last() == lv.take(i as int));
            if self.lanes[i].is_none() {
                proof {
                    lemma_find_free_prefix(lv, i as int + 1);
                }
                return Some(i);
            }
        }
        assert(lv.take(n as int) == lv);
        None
    }

    fn alloc_new(&mut self) -> (r: usize)
        requires
            old(self).lens_agree(),
        ensures
            final(self).lens_agree(),
            (final(self)@, r as int) == alloc_lane(old(self)@),
            r < final(self)@.lanes.len(),
    {
        match self.find_free() {
            Some(i) => i,
            None => {
                let ghost before = self@;
                self.lanes.push(None);
                self.colors.push(self.next);
                self.next = if self.next == 255 {
                    0
                } else {
                    self.next + 1
                };
                assert(self@.lanes =~= before.lanes.push(None));
                self.lanes.len() - 1
            },
        }
    }

    fn set(&mut self, i: usize, v: Option<Vec<char>>)
        requires
            i < old(self)@.lanes.len(),
        ensures
            final(self)@ == (LaneSt {
                lanes: old(self)@.lanes.update(i as int, match v {
                    Some(x) => Some(x@),
                    None => None,
                }),
                ..old(self)@
            }),
            final(self).lens_agree() == old(self).lens_agree(),
    {
        let ghost before = self@;
        self.lanes.set(i, v);
        assert(self@.lanes =~= before.lanes.update(i as int, match v {
            Some(x) => Some(x@),
            None => None,
        }));
    }
}

proof fn lemma_find_lane_prefix(lv: Seq<Option<Seq<char>>>, h: Seq<char>, k: int)
    requires
        0 < k <= lv.len(),
        find_lane(lv.take(k - 1), h) is None,
        lv[k - 1] == Some(h),
    ensures
        find_lane(lv, h) == Some(k - 1),
    decreases lv.len() - k,
{
    if k == lv.len() {
        assert(lv.take(k - 1) == lv.drop_last());
    } else {
        assert(lv.drop_last().take(k - 1) == lv.take(k - 1));
        lemma_find_lane_prefix(lv.drop_last(), h, k);
        assert(lv.drop_last().take(k - 1) == lv.take(k - 1));
    }
}

proof fn lemma_find_free_prefix(lv: Seq<Option<Seq<char>>>, k: int)
    requires
        0 < k <= lv.len(),
        find_free(lv.take(k - 1)) is None,
        lv[k - 1] is None,
    ensures
        find_free(lv) == Some(k - 1),
    decreases lv.len() - k,
{
    if k == lv.len() {
        assert(lv.take(k - 1) == lv.drop_last());
    } else {
        assert(lv.drop_last().take(k - 1) == lv.take(k - 1));
        lemma_find_free_prefix(lv.drop_last(), k);
        assert(lv.drop_last().take(k - 1) == lv.take(k - 1));
    }
}

fn passes_exec(l: &Lanes) -> (r: Vec<u16>)
    ensures
        r@ == passes_of(l@.lanes),
{
    let ghost lv = l@.lanes;
    let mut out: Vec<u16> = Vec::new();
    let n = l.lanes.len();
    for i in 0..n
        invariant
            n == lv.len(),
            lv == l@.lanes,
            n == l.lanes@.len(),
            out@ == passes_of(lv.take(i as int)),
    {
        assert(lv.take(i + 1).drop_last() == lv.take(i as int));
        assert(lv[i as int] is Some == l.lanes@[i as int] is Some);
        if l.lanes[i].is_some() {
            out.push(i as u16);
        }
    }
    assert(lv.take(n as int) == lv);
    out
}

/// Lays out newest-first commits (with parents) on graph lanes: each row gets its
/// lane, color, the lanes passing below it and the edges to extra parents.
pub fn assign_lanes(commits: &Vec<Commit>) -> (r: Vec<GraphRow>)
    ensures
        rows_view(r@) == assign_lanes_spec(commits_view(commits@)),
{
    let ghost cv = commits_view(commits@);
    let mut st = Lanes { lanes: Vec::new(), colors: Vec::new(), next: 0 };
    assert(st@.lanes =~= Seq::<Option<Seq<char>>>::empty());
    let mut rows: Vec<GraphRow> = Vec::new();
    let n = commits.len();
    for ci in 0..n
        invariant
            n == commits@.len(),
            cv == commits_view(commits@),
            st.lens_agree(),
            (st@, rows_view(rows@)) == lanes_fold(cv.take(ci as int)),
    {
        assert(cv.take(ci + 1).drop_last() == cv.take(ci as int));
        let commit = &commits[ci];
        let ghost c = cv[ci as int];
        assert(commit@ == c);
        let hash = chars_of(commit.hash.as_str());
        let ghost s0 = st@;
        let lane: usize = match st.find(&hash) {
            Some(first) => {
                let ghost before = st@;
                let m = st.lanes.len();
                assert(st@.lanes =~= Seq::new(m as nat, |i: int| if i < 0 && i != first && before.lanes[i] == Some(hash@) {
                    None
                } else {
                    before.lanes[i]
                }));
                for j in 0..m
                    invariant
                        m == before.lanes.len(),
                        m == st.lanes@.len(),
                        st.lens_agree(),
                        first < m,
                        find_lane(before.lanes, hash@) == Some(first as int),
                        st@ == (LaneSt {
                            lanes: Seq::new(m as nat, |i: int| if i < j && i != first && before.lanes[i] == Some(hash@) {
                                None
                            } else {
                                before.lanes[i]
                            }),
                            ..before
                        }),
                {
                    let dup = j != first && match &st.lanes[j] {
                        Some(x) => vec_eq(x, &hash),
                        None => false,
                    };
                    assert(st@.lanes[j as int] == before.lanes[j as int]);
                    if dup {
                        st.set(j, None);
                    }
                    assert(st@.lanes =~= Seq::new(m as nat, |i: int| if i < j + 1 && i != first && before.lanes[i] == Some(hash@) {
                        None
                    } else {
                        before.lanes[i]
                    }));
                }
                assert(st@.lanes =~= commit_lane(before, hash@).0.lanes);
                first
            },
            None => st.alloc_new(),
        };
        assert((st@, lane as int) == commit_lane(s0, c.hash));
        // the lane always has a color: lanes and colors grow together
        let first_parent: Option<Vec<char>> = if commit.parents.len() > 0 {
            Some(chars_of(commit.parents[0].as_str()))
        } else {
            None
        };
        st.set(lane, first_parent);
        let ghost s2 = st@;
        let mut edges: Vec<GraphEdge> = Vec::new();
        let np = commit.parents.len();
        let ghost extra = if c.parents.len() > 0 {
            c.parents.skip(1)
        } else {
            Seq::empty()
        };
        let mut k: usize = 1;
        while k < np
            invariant
                1 <= k,
                k <= np || (np == 0 && k == 1),
                np == c.parents.len(),
                extra == (if c.parents.len() > 0 {
                    c.parents.skip(1)
                } else {
                    Seq::empty()
                }),
                commit@ == c,
                st.lens_agree(),
                lane < st@.lanes.len(),
                (st@, edges_view(edges@)) == parents_fold(s2, lane as int, extra.take(k - 1)),
            decreases np - k,
        {
            assert(extra.take(k as int).drop_last() == extra.take(k - 1));
            let parent = chars_of(commit.parents[k].as_str());
            assert(parent@ == extra[k - 1]);
            let target = match st.find(&parent) {
                Some(t) => t,
                None => st.alloc_new(),
            };
            let ghost pv = parent@;
            let e = GraphEdge { from_lane: lane as u16, to_lane: target as u16, parent_hash: string_of(&parent) };
            st.set(target, Some(parent));
            let ghost ev = edges_view(edges@);
            let ghost eview = e@;
            edges.push(e);
            assert(edges_view(edges@) =~= ev.push(eview));
            k = k + 1;
        }
        proof {
            if np == 0 {
                assert(k == 1);
                assert(extra.len() == 0);
            } else {
                assert(k == np);
                assert(extra.len() == np - 1);
            }
            assert(extra.take(k - 1) =~= extra);
        }
        assert((st@, edges_view(edges@)) == parents_fold(s2, lane as int, extra));
        let color = if lane < st.colors.len() {
            st.colors[lane]
        } else {
            0
        };
        let passes = passes_exec(&st);
        let row = GraphRow { commit: clone_commit(commit), lane: lane as u16, color, passes, edges };
        let ghost rv = rows_view(rows@);
        let ghost rowv = row@;
        assert(rowv == lane_step(s0, c).1);
        assert(st@ == lane_step(s0, c).0);
        rows.push(row);
        assert(rows_view(rows@) =~= rv.push(rowv));
    }
    assert(cv.take(n as int) == cv);
    rows
}

} // verus!
