//! Parsers for the output of git's porcelain commands, and the rules that turn a
//! finished git run into a result.

use vstd::prelude::*;
use vstd::utf8::{decode_utf8, encode_utf8, is_char_boundary, valid_utf8};
use crate::text::{
    cat, is_hex_digit, push_char,
    contains_seq, has_seq, trimmed_pieces, trimmed_pieces_exec,
    blank, copy_chars, ends_with, has_suffix, lt_chars, seq_lt, trim_end, trimmed_end,
    chars_of, has_prefix, lemma_split_nonempty, lines, lines_of, owned, parse_u32, parse_unsigned,
    slice_vec, split, split_by, splitn, splitn_by, starts_with, string_of, trim, trim_start_char,
    trim_start_char_vec, trimmed, vec_eq, words, words_of,
};

verus! {

/// `Option<String>` by its view.
pub open spec fn opt_view(o: Option<String>) -> Option<Seq<char>> {
    match o {
        Some(s) => Some(s@),
        None => None,
    }
}

// ---------------------------------------------------------------------------
// Repository status

#[derive(Debug)]
pub struct FileChange {
    pub path: String,
    pub index: char,
    pub worktree: char,
    pub status: String,
}

pub struct FileChangeV {
    pub path: Seq<char>,
    pub index: char,
    pub worktree: char,
    pub status: Seq<char>,
}

impl View for FileChange {
    type V = FileChangeV;

    open spec fn view(&self) -> FileChangeV {
        FileChangeV { path: self.path@, index: self.index, worktree: self.worktree, status: self.status@ }
    }
}

#[derive(Debug)]
pub struct RepoStatus {
    pub project_id: String,
    pub is_repo: bool,
    pub branch: Option<String>,
    pub detached: bool,
    pub ahead: u32,
    pub behind: u32,
    pub staged: u32,
    pub unstaged: u32,
    pub untracked: u32,
    pub conflicts: u32,
    pub operation: Option<String>,
    /// The status output hit the output cap: counts and files are incomplete.
    pub truncated: bool,
    pub files: Vec<FileChange>,
    pub error: Option<String>,
}

pub struct RepoStatusV {
    pub project_id: Seq<char>,
    pub is_repo: bool,
    pub branch: Option<Seq<char>>,
    pub detached: bool,
    pub ahead: nat,
    pub behind: nat,
    pub staged: nat,
    pub unstaged: nat,
    pub untracked: nat,
    pub conflicts: nat,
    pub operation: Option<Seq<char>>,
    pub truncated: bool,
    pub files: Seq<FileChangeV>,
    pub error: Option<Seq<char>>,
}

impl View for RepoStatus {
    type V = RepoStatusV;

    open spec fn view(&self) -> RepoStatusV {
        RepoStatusV {
            project_id: self.project_id@,
            is_repo: self.is_repo,
            branch: opt_view(self.branch),
            detached: self.detached,
            ahead: self.ahead as nat,
            behind: self.behind as nat,
            staged: self.staged as nat,
            unstaged: self.unstaged as nat,
            untracked: self.untracked as nat,
            conflicts: self.conflicts as nat,
            operation: opt_view(self.operation),
            truncated: self.truncated,
            files: self.files@.map_values(|f: FileChange| f@),
            error: opt_view(self.error),
        }
    }
}

/// The status of a directory that is not a repository.
pub open spec fn not_repo_view(project_id: Seq<char>) -> RepoStatusV {
    RepoStatusV {
        project_id,
        is_repo: false,
        branch: None,
        detached: false,
        ahead: 0,
        behind: 0,
        staged: 0,
        unstaged: 0,
        untracked: 0,
        conflicts: 0,
        operation: None,
        truncated: false,
        files: Seq::empty(),
        error: None,
    }
}

impl RepoStatus {
    pub fn not_repo(project_id: &str) -> (r: RepoStatus)
        ensures
            r@ == not_repo_view(project_id@),
    {
        let r = RepoStatus {
            project_id: owned(project_id),
            is_repo: false,
            branch: None,
            detached: false,
            ahead: 0,
            behind: 0,
            staged: 0,
            unstaged: 0,
            untracked: 0,
            conflicts: 0,
            operation: None,
            truncated: false,
            files: Vec::new(),
            error: None,
        };
        assert(r@.files =~= Seq::<FileChangeV>::empty());
        r
    }

    pub fn errored(project_id: &str, message: String) -> (r: RepoStatus)
        ensures
            r@ == (RepoStatusV { error: Some(message@), ..not_repo_view(project_id@) }),
    {
        let mut s = Self::not_repo(project_id);
        s.error = Some(message);
        s
    }
}

/// Label of a porcelain `XY` status pair.
pub open spec fn status_label_spec(index: char, worktree: char) -> Seq<char> {
    if index == '?' {
        "未跟踪"@
    } else if index == '!' {
        "忽略"@
    } else if index == 'U' || worktree == 'U' {
        "冲突"@
    } else if index == 'D' || worktree == 'D' {
        "删除"@
    } else if index == 'A' {
        "新增"@
    } else if index == 'R' {
        "重命名"@
    } else if index == 'C' {
        "复制"@
    } else if index == 'M' || worktree == 'M' {
        "修改"@
    } else {
        "变更"@
    }
}

pub fn status_label(index: char, worktree: char) -> (r: String)
    ensures
        r@ == status_label_spec(index, worktree),
{
    if index == '?' {
        owned("未跟踪")
    } else if index == '!' {
        owned("忽略")
    } else if index == 'U' || worktree == 'U' {
        owned("冲突")
    } else if index == 'D' || worktree == 'D' {
        owned("删除")
    } else if index == 'A' {
        owned("新增")
    } else if index == 'R' {
        owned("重命名")
    } else if index == 'C' {
        owned("复制")
    } else if index == 'M' || worktree == 'M' {
        owned("修改")
    } else {
        owned("变更")
    }
}

/// A counter from `# branch.ab`: sign characters stripped, unparsable means 0.
pub open spec fn ab_count(word: Option<Seq<char>>, default: Seq<char>, sign: char) -> nat {
    let w = match word {
        Some(w) => w,
        None => default,
    };
    match parse_unsigned(trim_start_char(w, sign), u32::MAX as nat) {
        Some(v) => v,
        None => 0,
    }
}

pub open spec fn word_at(ws: Seq<Seq<char>>, i: int) -> Option<Seq<char>> {
    if i < ws.len() {
        Some(ws[i])
    } else {
        None
    }
}

/// One changed-entry line (`1 `, `2 ` or `u `) applied to the status.
pub open spec fn entry_step(st: RepoStatusV, line: Seq<char>) -> RepoStatusV {
    let kind = line[0];
    let bound: nat = if kind == '1' {
        9
    } else if kind == '2' {
        10
    } else {
        11
    };
    let fields = splitn(line, bound, ' ');
    if fields.len() < 2 || fields[1].len() < 2 {
        st
    } else {
        let index = fields[1][0];
        let worktree = fields[1][1];
        let raw_path = if kind == '2' {
            split(fields.last(), '\t')[0]
        } else {
            fields.last()
        };
        let status = if kind == 'u' {
            "冲突"@
        } else {
            status_label_spec(index, worktree)
        };
        let counted = if kind == 'u' {
            RepoStatusV {
                conflicts: st.conflicts + 1,
                staged: st.staged + 1,
                unstaged: st.unstaged + 1,
                ..st
            }
        } else {
            RepoStatusV {
                staged: if index != '.' && index != '?' && index != '!' {
                    st.staged + 1
                } else {
                    st.staged
                },
                unstaged: if worktree != '.' && worktree != '?' && worktree != '!' {
                    st.unstaged + 1
                } else {
                    st.unstaged
                },
                ..st
            }
        };
        RepoStatusV {
            files: st.files.push(FileChangeV { path: raw_path, index, worktree, status }),
            ..counted
        }
    }
}

/// One line of `git status --porcelain=v2 --branch` applied to the status.
pub open spec fn status_step(st: RepoStatusV, line: Seq<char>) -> RepoStatusV {
    if starts_with(line, "# branch.head "@) {
        let rest = trim(line.skip("# branch.head "@.len() as int));
        if rest == "(detached)"@ {
            RepoStatusV { detached: true, branch: None, ..st }
        } else {
            RepoStatusV { branch: Some(rest), ..st }
        }
    } else if starts_with(line, "# branch.ab "@) {
        let ws = words(line.skip("# branch.ab "@.len() as int));
        RepoStatusV {
            ahead: ab_count(word_at(ws, 0), "+0"@, '+'),
            behind: ab_count(word_at(ws, 1), "-0"@, '-'),
            ..st
        }
    } else if starts_with(line, "? "@) {
        RepoStatusV {
            untracked: st.untracked + 1,
            files: st.files.push(
                FileChangeV { path: line.skip("? "@.len() as int), index: '?', worktree: '?', status: "未跟踪"@ },
            ),
            ..st
        }
    } else if starts_with(line, "! "@) {
        RepoStatusV {
            files: st.files.push(
                FileChangeV { path: line.skip("! "@.len() as int), index: '!', worktree: '!', status: "忽略"@ },
            ),
            ..st
        }
    } else if starts_with(line, "1 "@) || starts_with(line, "2 "@) || starts_with(line, "u "@) {
        entry_step(st, line)
    } else {
        st
    }
}

/// The status after the first `n` lines.
pub open spec fn status_fold(init: RepoStatusV, ls: Seq<Seq<char>>) -> RepoStatusV
    decreases ls.len(),
{
    if ls.len() == 0 {
        init
    } else {
        status_step(status_fold(init, ls.drop_last()), ls.last())
    }
}

/// What `parse_status` gives for the porcelain text `text`.
pub open spec fn parse_status_spec(project_id: Seq<char>, text: Seq<char>) -> RepoStatusV {
    status_fold(RepoStatusV { is_repo: true, ..not_repo_view(project_id) }, lines(text))
}

fn file_change(path: Vec<char>, index: char, worktree: char, status: String) -> (f: FileChange)
    ensures
        f@ == (FileChangeV { path: path@, index, worktree, status: status@ }),
{
    FileChange { path: string_of(&path), index, worktree, status }
}

fn push_file(st: &mut RepoStatus, f: FileChange)
    ensures
        final(st)@ == (RepoStatusV { files: old(st)@.files.push(f@), ..old(st)@ }),
{
    st.files.push(f);
    proof {
        assert(st@.files =~= old(st)@.files.push(f@));
    }
}

fn apply_entry_line(st: &mut RepoStatus, line: &[char])
    requires
        line@.len() > 0,
        old(st).staged < u32::MAX,
        old(st).unstaged < u32::MAX,
        old(st).conflicts < u32::MAX,
    ensures
        final(st)@ == entry_step(old(st)@, line@),
{
    let kind = line[0];
    let bound: usize = if kind == '1' {
        9
    } else if kind == '2' {
        10
    } else {
        11
    };
    let fields = splitn_by(line, bound, ' ');
    let ghost sf = splitn(line@, bound as nat, ' ');
    assert(fields@.len() == sf.len());
    if fields.len() < 2 {
        return ;
    }
    assert(fields@[1]@ == sf[1]);
    if fields[1].len() < 2 {
        return ;
    }
    let index = fields[1][0];
    let worktree = fields[1][1];
    let last = &fields[fields.len() - 1];
    proof {
        assert(last@ == splitn(line@, bound as nat, ' ').last());
    }
    let raw_path: Vec<char> = if kind == '2' {
        let pieces = split_by(last, '\t');
        proof {
            lemma_split_nonempty(last@, '\t');
        }
        slice_vec(&pieces[0], 0, pieces[0].len())
    } else {
        slice_vec(last, 0, last.len())
    };
    if kind == 'u' {
        st.conflicts = st.conflicts + 1;
        st.staged = st.staged + 1;
        st.unstaged = st.unstaged + 1;
    } else {
        if index != '.' && index != '?' && index != '!' {
            st.staged = st.staged + 1;
        }
        if worktree != '.' && worktree != '?' && worktree != '!' {
            st.unstaged = st.unstaged + 1;
        }
    }
    let status = if kind == 'u' {
        owned("冲突")
    } else {
        status_label(index, worktree)
    };
    assert(raw_path@ == (if kind == '2' { split(sf.last(), '\t')[0] } else { sf.last() }));
    push_file(st, file_change(raw_path, index, worktree, status));
}

fn apply_status_line(st: &mut RepoStatus, line: &[char])
    requires
        old(st).staged < u32::MAX,
        old(st).unstaged < u32::MAX,
        old(st).conflicts < u32::MAX,
        old(st).untracked < u32::MAX,
    ensures
        final(st)@ == status_step(old(st)@, line@),
{
    let head = chars_of("# branch.head ");
    let ab = chars_of("# branch.ab ");
    let q = chars_of("? ");
    let bang = chars_of("! ");
    let one = chars_of("1 ");
    let two = chars_of("2 ");
    let un = chars_of("u ");
    proof {
        reveal_strlit("1 ");
        reveal_strlit("2 ");
        reveal_strlit("u ");
    }
    if has_prefix(line, &head) {
        let rest = trimmed(&slice_vec(line, head.len(), line.len()));
        proof {
            assert(line@.subrange(head@.len() as int, line@.len() as int) == line@.skip("# branch.head "@.len() as int));
        }
        if vec_eq(&rest, &chars_of("(detached)")) {
            st.detached = true;
            st.branch = None;
        } else {
            st.branch = Some(string_of(&rest));
        }
        assert(st@ == status_step(old(st)@, line@));
    } else if has_prefix(line, &ab) {
        let ws = words_of(&slice_vec(line, ab.len(), line.len()));
        proof {
            assert(line@.subrange(ab@.len() as int, line@.len() as int) == line@.skip("# branch.ab "@.len() as int));
        }
        let ghost sw = words(line@.skip("# branch.ab "@.len() as int));
        let a = if ws.len() > 0 {
            assert(ws@[0]@.subrange(0, ws@[0]@.len() as int) == ws@[0]@);
            slice_vec(&ws[0], 0, ws[0].len())
        } else {
            chars_of("+0")
        };
        let b = if ws.len() > 1 {
            assert(ws@[1]@.subrange(0, ws@[1]@.len() as int) == ws@[1]@);
            slice_vec(&ws[1], 0, ws[1].len())
        } else {
            chars_of("-0")
        };
        assert(Some(a@) == word_at(sw, 0) || (word_at(sw, 0) is None && a@ == "+0"@));
        assert(Some(b@) == word_at(sw, 1) || (word_at(sw, 1) is None && b@ == "-0"@));
        st.ahead = match parse_u32(&trim_start_char_vec(&a, '+')) {
            Some(v) => v,
            None => 0,
        };
        st.behind = match parse_u32(&trim_start_char_vec(&b, '-')) {
            Some(v) => v,
            None => 0,
        };
        assert(st@.ahead == ab_count(word_at(words(line@.skip("# branch.ab "@.len() as int)), 0), "+0"@, '+'));
        assert(st@.behind == ab_count(word_at(words(line@.skip("# branch.ab "@.len() as int)), 1), "-0"@, '-'));
        assert(st@ == status_step(old(st)@, line@));
    } else if has_prefix(line, &q) {
        let path = slice_vec(line, q.len(), line.len());
        assert(path@ == line@.skip("? "@.len() as int));
        st.untracked = st.untracked + 1;
        push_file(st, file_change(path, '?', '?', owned("未跟踪")));
    } else if has_prefix(line, &bang) {
        let path = slice_vec(line, bang.len(), line.len());
        assert(path@ == line@.skip("! "@.len() as int));
        push_file(st, file_change(path, '!', '!', owned("忽略")));
    } else if has_prefix(line, &one) || has_prefix(line, &two) || has_prefix(line, &un) {
        apply_entry_line(st, line);
    }
}

/// The counters of a status never exceed the number of lines it has read.
proof fn lemma_status_fold_bounds(init: RepoStatusV, ls: Seq<Seq<char>>)
    ensures
        status_fold(init, ls).staged <= init.staged + ls.len(),
        status_fold(init, ls).unstaged <= init.unstaged + ls.len(),
        status_fold(init, ls).untracked <= init.untracked + ls.len(),
        status_fold(init, ls).conflicts <= init.conflicts + ls.len(),
    decreases ls.len(),
{
    if ls.len() > 0 {
        lemma_status_fold_bounds(init, ls.drop_last());
    }
}

proof fn lemma_conflicts_fold(init: RepoStatusV, ls: Seq<Seq<char>>)
    requires
        init.conflicts <= init.staged,
        init.conflicts <= init.unstaged,
    ensures
        status_fold(init, ls).conflicts <= status_fold(init, ls).staged,
        status_fold(init, ls).conflicts <= status_fold(init, ls).unstaged,
    decreases ls.len(),
{
    if ls.len() > 0 {
        lemma_conflicts_fold(init, ls.drop_last());
    }
}

/// A conflicted file counts as staged and as unstaged: the conflict count never
/// exceeds either.
pub proof fn lemma_conflicts_counted_both(project_id: Seq<char>, text: Seq<char>)
    ensures
        parse_status_spec(project_id, text).conflicts <= parse_status_spec(project_id, text).staged,
        parse_status_spec(project_id, text).conflicts <= parse_status_spec(project_id, text).unstaged,
{
    lemma_conflicts_fold(RepoStatusV { is_repo: true, ..not_repo_view(project_id) }, lines(text));
}

/// How many of the lines are untracked-file lines (`? `).
pub open spec fn untracked_lines(ls: Seq<Seq<char>>) -> nat
    decreases ls.len(),
{
    if ls.len() == 0 {
        0
    } else {
        untracked_lines(ls.drop_last()) + if starts_with(ls.last(), "? "@) {
            1nat
        } else {
            0nat
        }
    }
}

proof fn lemma_entry_step_keeps(st: RepoStatusV, line: Seq<char>)
    ensures
        entry_step(st, line).project_id == st.project_id,
        entry_step(st, line).is_repo == st.is_repo,
        entry_step(st, line).error == st.error,
        entry_step(st, line).operation == st.operation,
        entry_step(st, line).truncated == st.truncated,
        entry_step(st, line).untracked == st.untracked,
{
}

proof fn lemma_status_fold_shape(init: RepoStatusV, ls: Seq<Seq<char>>)
    ensures
        status_fold(init, ls).project_id == init.project_id,
        status_fold(init, ls).is_repo == init.is_repo,
        status_fold(init, ls).error == init.error,
        status_fold(init, ls).operation == init.operation,
        status_fold(init, ls).truncated == init.truncated,
        status_fold(init, ls).untracked == init.untracked + untracked_lines(ls),
    decreases ls.len(),
{
    reveal_strlit("? ");
    reveal_strlit("# branch.head ");
    reveal_strlit("# branch.ab ");
    reveal_strlit("! ");
    reveal_strlit("1 ");
    reveal_strlit("2 ");
    reveal_strlit("u ");
    if ls.len() > 0 {
        lemma_status_fold_shape(init, ls.drop_last());
        let line = ls.last();
        let st = status_fold(init, ls.drop_last());
        assert(status_fold(init, ls) == status_step(st, line));
        lemma_entry_step_keeps(st, line);
        if starts_with(line, "? "@) {
            assert("? "@ =~= seq!['?', ' ']);
            assert(line.take(2) == "? "@);
            assert(line[0] == line.take(2)[0]);
            assert(line[0] == '?');
            assert(!starts_with(line, "# branch.head "@)) by {
                if starts_with(line, "# branch.head "@) {
                    assert("# branch.head "@[0] == '#');
                    assert(line.take("# branch.head "@.len() as int)[0] == line[0]);
                }
            }
            assert(!starts_with(line, "# branch.ab "@)) by {
                if starts_with(line, "# branch.ab "@) {
                    assert("# branch.ab "@[0] == '#');
                    assert(line.take("# branch.ab "@.len() as int)[0] == line[0]);
                }
            }
        }
    }
}

/// The status code pair (`XY`) of a change entry line, when it has one.
pub open spec fn entry_xy(line: Seq<char>) -> Option<Seq<char>> {
    let bound: nat = if line[0] == '1' {
        9
    } else if line[0] == '2' {
        10
    } else {
        11
    };
    let fields = splitn(line, bound, ' ');
    if fields.len() < 2 || fields[1].len() < 2 {
        None
    } else {
        Some(fields[1])
    }
}

/// Whether the line is a change staged in the index: an unmerged entry
/// (`u `), or an ordinary or renamed entry (`1 `, `2 `) whose index status
/// `X` is a change (not `.`, `?` or `!`).
pub open spec fn stages_change(line: Seq<char>) -> bool {
    &&& entry_xy(line) is Some
    &&& (starts_with(line, "u "@) || ((starts_with(line, "1 "@) || starts_with(line, "2 "@)) && entry_xy(line)->0[0]
        != '.' && entry_xy(line)->0[0] != '?' && entry_xy(line)->0[0] != '!'))
}

/// How many of the lines are changes staged in the index.
pub open spec fn staged_lines(ls: Seq<Seq<char>>) -> nat
    decreases ls.len(),
{
    if ls.len() == 0 {
        0
    } else {
        staged_lines(ls.drop_last()) + if stages_change(ls.last()) {
            1nat
        } else {
            0nat
        }
    }
}

proof fn lemma_entry_step_staged(st: RepoStatusV, line: Seq<char>)
    requires
        starts_with(line, "1 "@) || starts_with(line, "2 "@) || starts_with(line, "u "@),
    ensures
        entry_step(st, line).staged == st.staged + if stages_change(line) {
            1nat
        } else {
            0nat
        },
{
    reveal_strlit("1 ");
    reveal_strlit("2 ");
    reveal_strlit("u ");
    assert(line[0] == line.take(2)[0]);
}

proof fn lemma_status_fold_staged(init: RepoStatusV, ls: Seq<Seq<char>>)
    ensures
        status_fold(init, ls).staged == init.staged + staged_lines(ls),
    decreases ls.len(),
{
    reveal_strlit("# branch.head ");
    reveal_strlit("# branch.ab ");
    reveal_strlit("? ");
    reveal_strlit("! ");
    reveal_strlit("1 ");
    reveal_strlit("2 ");
    reveal_strlit("u ");
    if ls.len() > 0 {
        lemma_status_fold_staged(init, ls.drop_last());
        let st = status_fold(init, ls.drop_last());
        let line = ls.last();
        assert(status_fold(init, ls) == status_step(st, line));
        if starts_with(line, "1 "@) || starts_with(line, "2 "@) || starts_with(line, "u "@) {
            assert(line[0] == line.take(2)[0]);
            assert(!starts_with(line, "# branch.head "@)) by {
                if starts_with(line, "# branch.head "@) {
                    assert(line[0] == line.take(14)[0]);
                }
            }
            assert(!starts_with(line, "# branch.ab "@)) by {
                if starts_with(line, "# branch.ab "@) {
                    assert(line[0] == line.take(12)[0]);
                }
            }
            assert(!starts_with(line, "? "@)) by {
                if starts_with(line, "? "@) {
                    assert(line[0] == line.take(2)[0]);
                }
            }
            assert(!starts_with(line, "! "@)) by {
                if starts_with(line, "! "@) {
                    assert(line[0] == line.take(2)[0]);
                }
            }
            lemma_entry_step_staged(st, line);
        } else {
            assert(!stages_change(line));
        }
    }
}

/// The staged count is the number of entries with a change in the index:
/// each unmerged entry, and each ordinary or renamed entry whose index status
/// is not `.` (nor `?`, `!`) — added, modified, deleted, renamed, copied and
/// type-changed files alike.
pub proof fn lemma_staged_counts_index_changes(project_id: Seq<char>, text: Seq<char>)
    ensures
        parse_status_spec(project_id, text).staged == staged_lines(lines(text)),
{
    lemma_status_fold_staged(RepoStatusV { is_repo: true, ..not_repo_view(project_id) }, lines(text));
}

/// Parsing a status gives a repository with no error, no operation and no
/// cut, and counts each `? ` line as one untracked file.
pub proof fn lemma_status_shape(project_id: Seq<char>, text: Seq<char>)
    ensures
        parse_status_spec(project_id, text).is_repo,
        parse_status_spec(project_id, text).project_id == project_id,
        parse_status_spec(project_id, text).error is None,
        parse_status_spec(project_id, text).operation is None,
        !parse_status_spec(project_id, text).truncated,
        parse_status_spec(project_id, text).untracked == untracked_lines(lines(text)),
{
    lemma_status_fold_shape(RepoStatusV { is_repo: true, ..not_repo_view(project_id) }, lines(text));
}

/// Parses `git status --porcelain=v2 --branch` output.
pub fn parse_status(project_id: &str, text: &str) -> (r: RepoStatus)
    requires
        lines(text@).len() < u32::MAX,
    ensures
        r@ == parse_status_spec(project_id@, text@),
{
    let mut st = RepoStatus::not_repo(project_id);
    st.is_repo = true;
    let ghost init = st@;
    let ls = lines_of(&chars_of(text));
    let n = ls.len();
    for i in 0..n
        invariant
            n == ls@.len(),
            n == lines(text@).len(),
            n < u32::MAX,
            forall|k: int| 0 <= k < n ==> #[trigger] ls@[k]@ == lines(text@)[k],
            init == (RepoStatusV { is_repo: true, ..not_repo_view(project_id@) }),
            st@ == status_fold(init, lines(text@).take(i as int)),
            st.staged <= i,
            st.unstaged <= i,
            st.untracked <= i,
            st.conflicts <= i,
    {
        let ghost prefix = lines(text@).take(i + 1);
        assert(prefix.drop_last() == lines(text@).take(i as int));
        apply_status_line(&mut st, &ls[i]);
        proof {
            lemma_status_fold_bounds(init, prefix);
        }
    }
    assert(lines(text@).take(n as int) == lines(text@));
    st
}

// ---------------------------------------------------------------------------
// Branches

#[derive(Debug)]
pub struct BranchInfo {
    pub name: String,
    pub current: bool,
    pub remote: bool,
    pub upstream: Option<String>,
    pub ahead: u32,
    pub behind: u32,
}

pub struct BranchInfoV {
    pub name: Seq<char>,
    pub current: bool,
    pub remote: bool,
    pub upstream: Option<Seq<char>>,
    pub ahead: u32,
    pub behind: u32,
}

impl View for BranchInfo {
    type V = BranchInfoV;

    open spec fn view(&self) -> BranchInfoV {
        BranchInfoV {
            name: self.name@,
            current: self.current,
            remote: self.remote,
            upstream: opt_view(self.upstream),
            ahead: self.ahead,
            behind: self.behind,
        }
    }
}

pub open spec fn branches_view(v: Seq<BranchInfo>) -> Seq<BranchInfoV> {
    v.map_values(|b: BranchInfo| b@)
}

/// The i-th field of `fs`, or nothing.
pub open spec fn field(fs: Seq<Seq<char>>, i: int) -> Seq<char> {
    if i < fs.len() {
        fs[i]
    } else {
        Seq::empty()
    }
}

/// The `[ahead N, behind M]` counters of an `%(upstream:track)` value.
pub open spec fn track_fold(parts: Seq<Seq<char>>) -> (u32, u32)
    decreases parts.len(),
{
    if parts.len() == 0 {
        (0, 0)
    } else {
        let prev = track_fold(parts.drop_last());
        let part = trim(parts.last());
        if starts_with(part, "ahead "@) {
            (count_or_zero(trim(part.skip("ahead "@.len() as int))), prev.1)
        } else if starts_with(part, "behind "@) {
            (prev.0, count_or_zero(trim(part.skip("behind "@.len() as int))))
        } else {
            prev
        }
    }
}

proof fn lemma_track_fold_last(parts: Seq<Seq<char>>, i: int, behind: bool)
    requires
        0 <= i < parts.len(),
        starts_with(trim(parts[i]), if behind { "behind "@ } else { "ahead "@ }),
        forall|j: int|
            i < j < parts.len() ==> !starts_with(trim(#[trigger] parts[j]), if behind { "behind "@ } else { "ahead "@ }),
    ensures
        behind ==> track_fold(parts).1 == count_or_zero(trim(trim(parts[i]).skip(7))),
        !behind ==> track_fold(parts).0 == count_or_zero(trim(trim(parts[i]).skip(6))),
    decreases parts.len(),
{
    reveal_strlit("ahead ");
    reveal_strlit("behind ");
    let last = trim(parts.last());
    if starts_with(last, "ahead "@) && starts_with(last, "behind "@) {
        assert(last.take(6)[0] == "ahead "@[0]);
        assert(last.take(7)[0] == "behind "@[0]);
    }
    if i < parts.len() - 1 {
        assert(parts.drop_last()[i] == parts[i]);
        assert forall|j: int| i < j < parts.drop_last().len() implies !starts_with(
            trim(#[trigger] parts.drop_last()[j]),
            if behind { "behind "@ } else { "ahead "@ },
        ) by {
            assert(parts.drop_last()[j] == parts[j]);
        }
        lemma_track_fold_last(parts.drop_last(), i, behind);
        assert(!starts_with(last, if behind { "behind "@ } else { "ahead "@ }));
    }
}

/// A tracking part `ahead N` or `behind N` sets its count, wherever it stands
/// among the parts; when a kind appears more than once, the last one counts.
pub proof fn lemma_track_counts_read_every_part(track: Seq<char>, i: int)
    requires
        track.len() >= 2,
        track[0] == '[',
        track.last() == ']',
        0 <= i < split(track.subrange(1, track.len() - 1), ',').len(),
    ensures
        ({
            let parts = split(track.subrange(1, track.len() - 1), ',');
            let p = trim(parts[i]);
            &&& (starts_with(p, "behind "@) && forall|j: int|
                i < j < parts.len() ==> !starts_with(trim(#[trigger] parts[j]), "behind "@)) ==> track_counts(track).1
                == count_or_zero(trim(p.skip(7)))
            &&& (starts_with(p, "ahead "@) && forall|j: int|
                i < j < parts.len() ==> !starts_with(trim(#[trigger] parts[j]), "ahead "@)) ==> track_counts(track).0
                == count_or_zero(trim(p.skip(6)))
        }),
{
    let parts = split(track.subrange(1, track.len() - 1), ',');
    let p = trim(parts[i]);
    if starts_with(p, "behind "@) && forall|j: int| i < j < parts.len() ==> !starts_with(trim(#[trigger] parts[j]), "behind "@) {
        lemma_track_fold_last(parts, i, true);
    }
    if starts_with(p, "ahead "@) && forall|j: int| i < j < parts.len() ==> !starts_with(trim(#[trigger] parts[j]), "ahead "@) {
        lemma_track_fold_last(parts, i, false);
    }
}

pub open spec fn count_or_zero(s: Seq<char>) -> u32 {
    match parse_unsigned(s, u32::MAX as nat) {
        Some(v) => v as u32,
        None => 0,
    }
}

pub open spec fn track_counts(track: Seq<char>) -> (u32, u32) {
    if track.len() >= 2 && track[0] == '[' && track.last() == ']' {
        track_fold(split(track.subrange(1, track.len() - 1), ','))
    } else {
        (0, 0)
    }
}

/// The local branch that one `for-each-ref` line describes.
pub open spec fn local_branch(line: Seq<char>, current: Option<Seq<char>>) -> BranchInfoV {
    let f = split(line, '\u{1f}');
    let name = f[0];
    let upstream = trim(field(f, 1));
    let counts = track_counts(trim(field(f, 2)));
    BranchInfoV {
        name,
        current: current == Some(name),
        remote: false,
        upstream: if upstream.len() == 0 {
            None
        } else {
            Some(upstream)
        },
        ahead: counts.0,
        behind: counts.1,
    }
}

/// The pieces of `ps` that are not empty once their ends are trimmed, trimmed.
pub open spec fn trimmed_nonempty(ps: Seq<Seq<char>>) -> Seq<Seq<char>>
    decreases ps.len(),
{
    if ps.len() == 0 {
        Seq::empty()
    } else {
        let prev = trimmed_nonempty(ps.drop_last());
        let l = trim_end(ps.last());
        if l.len() > 0 {
            prev.push(l)
        } else {
            prev
        }
    }
}

/// Non-empty lines after trimming their ends.
pub open spec fn ref_lines(text: Seq<char>) -> Seq<Seq<char>> {
    trimmed_nonempty(split(text, '\n'))
}

/// Local branches before remote ones, then by name.
pub open spec fn branch_before(a: BranchInfoV, b: BranchInfoV) -> bool {
    (!a.remote && b.remote) || (a.remote == b.remote && seq_lt(a.name, b.name))
}

pub open spec fn insert_branch(s: Seq<BranchInfoV>, x: BranchInfoV) -> Seq<BranchInfoV>
    decreases s.len(),
{
    if s.len() == 0 {
        seq![x]
    } else if branch_before(x, s.last()) {
        insert_branch(s.drop_last(), x).push(s.last())
    } else {
        s.push(x)
    }
}

/// `s` stably sorted by `branch_before`.
pub open spec fn sort_branches(s: Seq<BranchInfoV>) -> Seq<BranchInfoV>
    decreases s.len(),
{
    if s.len() == 0 {
        s
    } else {
        insert_branch(sort_branches(s.drop_last()), s.last())
    }
}

/// What `parse_branches` gives.
pub open spec fn parse_branches_spec(text: Seq<char>, current: Option<Seq<char>>) -> Seq<BranchInfoV> {
    sort_branches(ref_lines(text).map_values(|l: Seq<char>| local_branch(l, current)))
}

proof fn lemma_insert_branch_at(s: Seq<BranchInfoV>, x: BranchInfoV, p: int)
    requires
        0 <= p <= s.len(),
        forall|j: int| p <= j < s.len() ==> branch_before(x, #[trigger] s[j]),
        p == 0 || !branch_before(x, s[p - 1]),
    ensures
        insert_branch(s, x) == s.take(p).push(x) + s.skip(p),
    decreases s.len() - p,
{
    if p == s.len() {
        assert(s.skip(p).len() == 0);
        if s.len() > 0 {
            assert(s.take(p) == s);
        }
        assert(s.take(p).push(x) + s.skip(p) =~= s.push(x));
    } else {
        assert(branch_before(x, s[s.len() - 1]));
        lemma_insert_branch_at(s.drop_last(), x, p);
        assert(s.drop_last().take(p) == s.take(p));
        assert(s.take(p).push(x) + s.skip(p) =~= (s.drop_last().take(p).push(x) + s.drop_last().skip(p)).push(s.last()));
    }
}

fn before_exec(a: &BranchInfo, b: &BranchInfo) -> (r: bool)
    ensures
        r == branch_before(a@, b@),
{
    let an = chars_of(a.name.as_str());
    let bn = chars_of(b.name.as_str());
    (!a.remote && b.remote) || (a.remote == b.remote && lt_chars(&an, &bn))
}

fn sort_branch_vec(v: Vec<BranchInfo>) -> (r: Vec<BranchInfo>)
    ensures
        branches_view(r@) == sort_branches(branches_view(v@)),
{
    let ghost vv = branches_view(v@);
    let mut out: Vec<BranchInfo> = Vec::new();
    let mut src = v;
    let n = src.len();
    let mut taken: Vec<BranchInfo> = Vec::new();
    // take the elements in order by reversing then popping
    let mut rev: Vec<BranchInfo> = Vec::new();
    while src.len() > 0
        invariant
            src@.len() + rev@.len() == n,
            forall|k: int| 0 <= k < rev@.len() ==> #[trigger] rev@[k]@ == vv[n - 1 - k],
            forall|k: int| 0 <= k < src@.len() ==> #[trigger] src@[k]@ == vv[k],
            n == vv.len(),
        decreases src@.len(),
    {
        let x = src.pop().unwrap();
        rev.push(x);
    }
    let mut i: usize = 0;
    while rev.len() > 0
        invariant
            rev@.len() + i == n,
            n == vv.len(),
            forall|k: int| 0 <= k < rev@.len() ==> #[trigger] rev@[k]@ == vv[n - 1 - k],
            branches_view(out@) == sort_branches(vv.take(i as int)),
        decreases rev@.len(),
    {
        let x = rev.pop().unwrap();
        assert(x@ == vv[i as int]);
        let ghost ov = branches_view(out@);
        let mut p = out.len();
        while p > 0 && before_exec(&x, &out[p - 1])
            invariant
                p <= out@.len(),
                ov == branches_view(out@),
                forall|j: int| p <= j < ov.len() ==> branch_before(x@, #[trigger] ov[j]),
            decreases p,
        {
            p = p - 1;
        }
        proof {
            lemma_insert_branch_at(ov, x@, p as int);
            assert(vv.take(i + 1).drop_last() == vv.take(i as int));
        }
        let ghost xv = x@;
        out.insert(p, x);
        assert(branches_view(out@) =~= ov.take(p as int).push(xv) + ov.skip(p as int));
        i = i + 1;
    }
    assert(vv.take(n as int) == vv);
    out
}

fn opt_nonempty(s: Vec<char>) -> (r: Option<String>)
    ensures
        opt_view(r) == (if s@.len() == 0 {
            None
        } else {
            Some(s@)
        }),
{
    if s.len() == 0 {
        None
    } else {
        Some(string_of(&s))
    }
}

fn field_exec(fs: &Vec<Vec<char>>, i: usize) -> (r: Vec<char>)
    ensures
        r@ == field(fs@.map_values(|x: Vec<char>| x@), i as int),
{
    if i < fs.len() {
        copy_chars(&fs[i])
    } else {
        Vec::new()
    }
}

fn track_counts_exec(track: &[char]) -> (r: (u32, u32))
    ensures
        r == track_counts(track@),
{
    if !(track.len() >= 2 && track[0] == '[' && track[track.len() - 1] == ']') {
        return (0, 0);
    }
    let inner = slice_vec(track, 1, track.len() - 1);
    let parts = split_by(&inner, ',');
    let p_ahead = chars_of("ahead ");
    let p_behind = chars_of("behind ");
    let mut ahead: u32 = 0;
    let mut behind: u32 = 0;
    let n = parts.len();
    for i in 0..n
        invariant
            n == parts@.len(),
            n == split(inner@, ',').len(),
            forall|k: int| 0 <= k < n ==> #[trigger] parts@[k]@ == split(inner@, ',')[k],
            (ahead, behind) == track_fold(split(inner@, ',').take(i as int)),
            p_ahead@ == "ahead "@,
            p_behind@ == "behind "@,
    {
        let ghost ps = split(inner@, ',').take(i + 1);
        assert(ps.drop_last() == split(inner@, ',').take(i as int));
        let part = trimmed(&parts[i]);
        if has_prefix(&part, &p_ahead) {
            let v = trimmed(&slice_vec(&part, p_ahead.len(), part.len()));
            assert(part@.subrange(p_ahead@.len() as int, part@.len() as int) == part@.skip("ahead "@.len() as int));
            ahead = match parse_u32(&v) {
                Some(x) => x,
                None => 0,
            };
        } else if has_prefix(&part, &p_behind) {
            let v = trimmed(&slice_vec(&part, p_behind.len(), part.len()));
            assert(part@.subrange(p_behind@.len() as int, part@.len() as int) == part@.skip("behind "@.len() as int));
            behind = match parse_u32(&v) {
                Some(x) => x,
                None => 0,
            };
        }
    }
    assert(split(inner@, ',').take(n as int) == split(inner@, ','));
    (ahead, behind)
}

fn local_branch_exec(line: &[char], current: &Option<Vec<char>>) -> (r: BranchInfo)
    ensures
        r@ == local_branch(line@, match current {
            Some(c) => Some(c@),
            None => None,
        }),
{
    let f = split_by(line, '\u{1f}');
    proof {
        lemma_split_nonempty(line@, '\u{1f}');
    }
    let ghost fv = f@.map_values(|x: Vec<char>| x@);
    assert(fv =~= split(line@, '\u{1f}'));
    let name = copy_chars(&f[0]);
    let upstream = trimmed(&field_exec(&f, 1));
    let counts = track_counts_exec(&trimmed(&field_exec(&f, 2)));
    let is_current = match current {
        Some(c) => vec_eq(c, &name),
        None => false,
    };
    BranchInfo {
        name: string_of(&name),
        current: is_current,
        remote: false,
        upstream: opt_nonempty(upstream),
        ahead: counts.0,
        behind: counts.1,
    }
}

/// The trimmed, non-empty lines of ref listing output.
fn ref_lines_exec(text: &[char]) -> (r: Vec<Vec<char>>)
    ensures
        r@.map_values(|x: Vec<char>| x@) == ref_lines(text@),
{
    let pieces = split_by(text, '\n');
    let ghost sp = split(text@, '\n');
    let mut out: Vec<Vec<char>> = Vec::new();
    let n = pieces.len();
    for i in 0..n
        invariant
            n == pieces@.len(),
            n == sp.len(),
            sp == split(text@, '\n'),
            forall|k: int| 0 <= k < n ==> #[trigger] pieces@[k]@ == sp[k],
            out@.map_values(|x: Vec<char>| x@) == trimmed_nonempty(sp.take(i as int)),
    {
        let ghost ov = out@.map_values(|x: Vec<char>| x@);
        let l = trimmed_end(&pieces[i]);
        assert(sp.take(i + 1).drop_last() == sp.take(i as int));
        assert(sp.take(i + 1).last() == pieces@[i as int]@);
        if l.len() > 0 {
            let ghost lv = l@;
            out.push(l);
            assert(out@.map_values(|x: Vec<char>| x@) =~= ov.push(lv));
        }
    }
    assert(sp.take(n as int) == sp);
    out
}

/// Parses `for-each-ref refs/heads --format=%(refname:short)%x1f%(upstream:short)%x1f%(upstream:track)`.
pub fn parse_branches(text: &str, current: Option<&str>) -> (r: Vec<BranchInfo>)
    ensures
        branches_view(r@) == parse_branches_spec(text@, match current {
            Some(c) => Some(c@),
            None => None,
        }),
{
    let ghost cur = match current {
        Some(c) => Some(c@),
        None => None::<Seq<char>>,
    };
    let cur_chars: Option<Vec<char>> = match current {
        Some(c) => Some(chars_of(c)),
        None => None,
    };
    let ls = ref_lines_exec(&chars_of(text));
    let ghost lv = ref_lines(text@);
    let mut out: Vec<BranchInfo> = Vec::new();
    let n = ls.len();
    for i in 0..n
        invariant
            n == ls@.len(),
            lv == ref_lines(text@),
            ls@.map_values(|x: Vec<char>| x@) == lv,
            cur == (match cur_chars {
                Some(c) => Some(c@),
                None => None::<Seq<char>>,
            }),
            branches_view(out@) == lv.take(i as int).map_values(|l: Seq<char>| local_branch(l, cur)),
    {
        let ghost ov = branches_view(out@);
        assert(ls@[i as int]@ == lv[i as int]);
        let b = local_branch_exec(&ls[i], &cur_chars);
        assert(b@ == local_branch(lv[i as int], cur));
        let ghost bv = b@;
        out.push(b);
        assert(branches_view(out@) =~= ov.push(bv));
        assert(lv.take(i + 1) == lv.take(i as int).push(lv[i as int]));
        assert(branches_view(out@) =~= lv.take(i + 1).map_values(|l: Seq<char>| local_branch(l, cur)));
    }
    assert(lv.take(n as int) == lv);
    sort_branch_vec(out)
}

/// The remote branch named by one `for-each-ref refs/remotes` line, if it is one
/// (remote `HEAD` symbolic refs are left out).
pub open spec fn remote_branch(line: Seq<char>) -> Option<BranchInfoV> {
    let it = split(line, '\u{1f}');
    let name = trim(it[0]);
    let symbolic = it.len() > 1 && trim(it[1]).len() > 0;
    if !symbolic && name.len() > 0 && !ends_with(name, "/HEAD"@) {
        Some(BranchInfoV { name, current: false, remote: true, upstream: None, ahead: 0, behind: 0 })
    } else {
        None
    }
}

pub open spec fn remote_fold(ls: Seq<Seq<char>>) -> Seq<BranchInfoV>
    decreases ls.len(),
{
    if ls.len() == 0 {
        Seq::empty()
    } else {
        match remote_branch(ls.last()) {
            Some(b) => remote_fold(ls.drop_last()).push(b),
            None => remote_fold(ls.drop_last()),
        }
    }
}

/// Parses `for-each-ref refs/remotes --format=%(refname:short)%x1f%(symref)`.
pub fn parse_remote_branches(text: &str) -> (r: Vec<BranchInfo>)
    ensures
        branches_view(r@) == remote_fold(ref_lines(text@)),
{
    let ls = ref_lines_exec(&chars_of(text));
    let ghost lv = ref_lines(text@);
    let suffix = chars_of("/HEAD");
    let mut out: Vec<BranchInfo> = Vec::new();
    let n = ls.len();
    for i in 0..n
        invariant
            n == ls@.len(),
            lv == ref_lines(text@),
            ls@.map_values(|x: Vec<char>| x@) == lv,
            suffix@ == "/HEAD"@,
            branches_view(out@) == remote_fold(lv.take(i as int)),
    {
        let ghost ov = branches_view(out@);
        assert(ls@[i as int]@ == lv[i as int]);
        assert(lv.take(i + 1).drop_last() == lv.take(i as int));
        let it = split_by(&ls[i], '\u{1f}');
        proof {
            lemma_split_nonempty(ls@[i as int]@, '\u{1f}');
        }
        let name = trimmed(&it[0]);
        let symbolic = it.len() > 1 && !blank(&it[1]);
        if !symbolic && name.len() > 0 && !has_suffix(&name, &suffix) {
            let b = BranchInfo { name: string_of(&name), current: false, remote: true, upstream: None, ahead: 0, behind: 0 };
            out.push(b);
            assert(branches_view(out@) =~= ov.push(b@));
        }
    }
    assert(lv.take(n as int) == lv);
    out
}

// ---------------------------------------------------------------------------
// Turning a git run into a result

/// The text of `bytes`: their UTF-8 decoding when they are well-formed,
/// else what `String::from_utf8_lossy` makes of them.
pub open spec fn text_of(bytes: Seq<u8>) -> Seq<char> {
    if valid_utf8(bytes) {
        decode_utf8(bytes)
    } else {
        utf8_lossy(bytes)
    }
}

/// What `String::from_utf8_lossy` gives for `bytes`.
pub uninterp spec fn utf8_lossy(bytes: Seq<u8>) -> Seq<char>;

/// `String::from_utf8_lossy` of std: decodes UTF-8, replacing malformed sequences
/// with U+FFFD. The contract names the result and states that well-formed UTF-8
/// decodes exactly; how malformed input is replaced is left unstated.
#[verifier::external_body]
pub(crate) fn lossy_string(bytes: &[u8]) -> (r: String)
    ensures
        r@ == utf8_lossy(bytes@),
        valid_utf8(bytes@) ==> r@ == decode_utf8(bytes@),
{
    String::from_utf8_lossy(bytes).into_owned()
}

pub open spec fn not_repo_marker() -> Seq<char> {
    "not a git repository"@
}

pub open spec fn is_not_repo_spec(stderr: Seq<char>) -> bool {
    contains_seq(stderr, not_repo_marker())
}

pub fn is_not_repo(stderr: &str) -> (r: bool)
    ensures
        r == is_not_repo_spec(stderr@),
{
    has_seq(&chars_of(stderr), &chars_of("not a git repository"))
}

/// A line that carries git's own diagnosis.
pub open spec fn is_diag(l: Seq<char>) -> bool {
    starts_with(l, "error:"@) || starts_with(l, "fatal:"@)
}

/// The last element of `ls` that is a diagnosis.
pub open spec fn last_diag(ls: Seq<Seq<char>>) -> Option<Seq<char>>
    decreases ls.len(),
{
    if ls.len() == 0 {
        None
    } else if is_diag(ls.last()) {
        Some(ls.last())
    } else {
        last_diag(ls.drop_last())
    }
}

/// The message shown for a failed git command with `stderr`.
pub open spec fn friendly_git_error_spec(stderr: Seq<char>) -> Seq<char> {
    if is_not_repo_spec(stderr) {
        "不是 git 仓库"@
    } else {
        let ls = trimmed_pieces(lines(stderr));
        match last_diag(ls) {
            Some(l) => l,
            None => if ls.len() > 0 {
                ls.last()
            } else {
                "git 执行失败"@
            },
        }
    }
}

fn is_diag_exec(l: &[char]) -> (r: bool)
    ensures
        r == is_diag(l@),
{
    has_prefix(l, &chars_of("error:")) || has_prefix(l, &chars_of("fatal:"))
}

fn last_diag_exec(ls: &Vec<Vec<char>>) -> (r: Option<Vec<char>>)
    ensures
        match last_diag(ls@.map_values(|x: Vec<char>| x@)) {
            Some(l) => r matches Some(x) && x@ == l,
            None => r is None,
        },
{
    let ghost lv = ls@.map_values(|x: Vec<char>| x@);
    let mut i = ls.len();
    proof {
        lemma_take_all(lv);
    }
    while i > 0
        invariant
            i <= ls@.len(),
            lv == ls@.map_values(|x: Vec<char>| x@),
            last_diag(lv) == last_diag(lv.take(i as int)),
        decreases i,
    {
        assert(lv.take(i as int).drop_last() == lv.take(i - 1));
        assert(lv.take(i as int).last() == ls@[i - 1]@);
        if is_diag_exec(&ls[i - 1]) {
            return Some(copy_chars(&ls[i - 1]));
        }
        i = i - 1;
    }
    None
}

proof fn lemma_take_all<A>(s: Seq<A>)
    ensures
        s.take(s.len() as int) == s,
{
    assert(s.take(s.len() as int) =~= s);
}

/// A readable message for a failed git command: "not a repository", else the last
/// `error:`/`fatal:` line, else the last non-blank line.
pub fn friendly_git_error(stderr: &str) -> (r: String)
    ensures
        r@ == friendly_git_error_spec(stderr@),
{
    if is_not_repo(stderr) {
        return owned("不是 git 仓库");
    }
    let raw = lines_of(&chars_of(stderr));
    assert(raw@.map_values(|x: Vec<char>| x@) =~= lines(stderr@));
    let ls = trimmed_pieces_exec(&raw);
    let ghost lv = ls@.map_values(|x: Vec<char>| x@);
    proof {
        lemma_take_all(lv);
    }
    match last_diag_exec(&ls) {
        Some(l) => string_of(&l),
        None => {
            if ls.len() > 0 {
                string_of(&ls[ls.len() - 1])
            } else {
                owned("git 执行失败")
            }
        },
    }
}

/// Whether some line of `stderr` is a diagnosis once trimmed.
pub open spec fn has_diag_spec(stderr: Seq<char>) -> bool {
    exists|i: int| 0 <= i < lines(stderr).len() && is_diag(trim(#[trigger] lines(stderr)[i]))
}

pub fn has_diagnostic_line(stderr: &str) -> (r: bool)
    ensures
        r == has_diag_spec(stderr@),
{
    let ls = lines_of(&chars_of(stderr));
    let n = ls.len();
    for i in 0..n
        invariant
            n == ls@.len(),
            n == lines(stderr@).len(),
            forall|k: int| 0 <= k < n ==> #[trigger] ls@[k]@ == lines(stderr@)[k],
            forall|k: int| 0 <= k < i ==> !is_diag(trim(#[trigger] lines(stderr@)[k])),
    {
        if is_diag_exec(&trimmed(&ls[i])) {
            assert(is_diag(trim(lines(stderr@)[i as int])));
            return true;
        }
    }
    false
}

/// Largest stdout that a git run keeps.
pub const MAX_OUTPUT_BYTES: usize = 4194304;

pub open spec fn timeout_message() -> Seq<char> {
    "git 执行超时（已强制结束 Git 进程）"@
}

/// `msg`, followed by `；` and the note when there is one.
pub open spec fn with_note(msg: Seq<char>, note: Option<String>) -> Seq<char> {
    match note {
        Some(n) => msg + seq!['；'] + n@,
        None => msg,
    }
}

fn append_note(msg: &mut String, note: Option<String>)
    ensures
        final(msg)@ == with_note(old(msg)@, note),
{
    match note {
        Some(n) => {
            push_char(msg, '；');
            msg.append(n.as_str());
        },
        None => {},
    }
}

/// What a read-only git run gives: a capped stdout is cut at the cap and still
/// returned; a timeout or failure is an error.
pub open spec fn capped_result_spec(
    out: Seq<u8>,
    capped: bool,
    exit_ok: bool,
    timed_out: bool,
    stderr: Seq<char>,
    note: Option<String>,
) -> Result<Seq<char>, Seq<char>> {
    if capped {
        Ok(text_of(out.take(if out.len() < MAX_OUTPUT_BYTES {
            out.len() as int
        } else {
            MAX_OUTPUT_BYTES as int
        })))
    } else if timed_out {
        Err(with_note(timeout_message(), note))
    } else if exit_ok {
        Ok(text_of(out))
    } else {
        Err(friendly_git_error_spec(stderr))
    }
}

pub open spec fn result_view(r: Result<String, String>) -> Result<Seq<char>, Seq<char>> {
    match r {
        Ok(s) => Ok(s@),
        Err(e) => Err(e@),
    }
}

pub fn capped_result(
    out: Vec<u8>,
    capped: bool,
    exit_ok: bool,
    timed_out: bool,
    stderr: &str,
    note: Option<String>,
) -> (r: Result<String, String>)
    ensures
        result_view(r) == capped_result_spec(out@, capped, exit_ok, timed_out, stderr@, note),
{
    if capped {
        let mut o = out;
        let end = if o.len() < MAX_OUTPUT_BYTES {
            o.len()
        } else {
            MAX_OUTPUT_BYTES
        };
        let ghost before = o@;
        o.truncate(end);
        assert(o@ == before.take(end as int));
        return Ok(lossy_string(o.as_slice()));
    }
    if timed_out {
        let mut msg = owned("git 执行超时（已强制结束 Git 进程）");
        append_note(&mut msg, note);
        return Err(msg);
    }
    if exit_ok {
        Ok(lossy_string(out.as_slice()))
    } else {
        Err(friendly_git_error(stderr))
    }
}

/// The raw outcome of one git run.
#[derive(Debug)]
pub struct GitRaw {
    pub out: Vec<u8>,
    pub err: Vec<u8>,
    /// stdout reached the output cap and the process was stopped.
    pub capped: bool,
    pub exit_ok: bool,
    pub timed_out: bool,
}

/// The last non-blank line of `text`, trimmed.
pub open spec fn last_nonblank(text: Seq<char>) -> Option<Seq<char>> {
    let ls = trimmed_pieces(lines(text));
    if ls.len() > 0 {
        Some(ls.last())
    } else {
        None
    }
}

/// The text a failed run is explained by: stderr, unless it holds no diagnosis and
/// stdout has a last non-blank line (git writes some conclusions to stdout).
pub open spec fn explained_stderr(raw_out: Seq<u8>, raw_err: Seq<u8>, exit_ok: bool) -> Seq<char> {
    let stderr = text_of(raw_err);
    if !exit_ok && !has_diag_spec(stderr) {
        match last_nonblank(text_of(raw_out)) {
            Some(l) => l,
            None => stderr,
        }
    } else {
        stderr
    }
}

pub open spec fn into_result_spec(raw: GitRaw, note: Option<String>) -> Result<Seq<char>, Seq<char>> {
    capped_result_spec(raw.out@, raw.capped, raw.exit_ok, raw.timed_out, explained_stderr(raw.out@, raw.err@, raw.exit_ok), note)
}

pub open spec fn write_cap_message() -> Seq<char> {
    "git 输出超过 4 MB 上限，命令已强制终止；命令结果可能已部分生效"@
}

pub open spec fn write_timeout_message() -> Seq<char> {
    "git 执行超时（已强制结束 Git 进程）；命令结果可能已部分生效"@
}

/// For a run that may have changed the repository, a cap or a timeout is an error
/// that says the change may be partly done.
pub open spec fn into_write_result_spec(raw: GitRaw, note: Option<String>) -> Result<Seq<char>, Seq<char>> {
    if raw.capped {
        Err(with_note(write_cap_message(), note))
    } else if raw.timed_out {
        Err(with_note(write_timeout_message(), note))
    } else {
        into_result_spec(raw, note)
    }
}

impl GitRaw {
    pub fn into_result(self, note: Option<String>) -> (r: Result<String, String>)
        ensures
            result_view(r) == into_result_spec(self, note),
    {
        let stderr = lossy_string(self.err.as_slice());
        let stderr = if !self.exit_ok && !has_diagnostic_line(stderr.as_str()) {
            let stdout = lossy_string(self.out.as_slice());
            let raw = lines_of(&chars_of(stdout.as_str()));
            assert(raw@.map_values(|x: Vec<char>| x@) =~= lines(stdout@));
            let ls = trimmed_pieces_exec(&raw);
            if ls.len() > 0 {
                string_of(&ls[ls.len() - 1])
            } else {
                stderr
            }
        } else {
            stderr
        };
        capped_result(self.out, self.capped, self.exit_ok, self.timed_out, stderr.as_str(), note)
    }

    /// The raw bytes of a run whose output is a file's content: `None` when
    /// they reached the output cap (the content is incomplete).
    pub fn into_bytes_result(self) -> (r: Result<Option<Vec<u8>>, String>)
        ensures
            self.timed_out ==> (r matches Err(e) && e@ == "git 执行超时（已强制结束 Git 进程）"@),
            !self.timed_out && !self.exit_ok ==> (r matches Err(e) && e@ == friendly_git_error_spec(text_of(self.err@))),
            !self.timed_out && self.exit_ok ==> (r matches Ok(o) && (if self.capped {
                o is None
            } else {
                (o matches Some(b) && b@ == self.out@)
            })),
    {
        if self.timed_out {
            return Err(owned("git 执行超时（已强制结束 Git 进程）"));
        }
        if !self.exit_ok {
            let stderr = lossy_string(self.err.as_slice());
            return Err(friendly_git_error(stderr.as_str()));
        }
        if self.capped {
            Ok(None)
        } else {
            Ok(Some(self.out))
        }
    }

    pub fn into_write_result(self, note: Option<String>) -> (r: Result<String, String>)
        ensures
            result_view(r) == into_write_result_spec(self, note),
    {
        if self.capped {
            let mut msg = owned("git 输出超过 4 MB 上限，命令已强制终止；命令结果可能已部分生效");
            append_note(&mut msg, note);
            return Err(msg);
        }
        if self.timed_out {
            let mut msg = owned("git 执行超时（已强制结束 Git 进程）；命令结果可能已部分生效");
            append_note(&mut msg, note);
            return Err(msg);
        }
        self.into_result(note)
    }
}

pub open spec fn git_dir_args() -> Seq<Seq<char>> {
    seq!["rev-parse"@, "--absolute-git-dir"@]
}

/// The index lock of the repository whose git directory git named as `git_dir`.
pub open spec fn index_lock_of(git_dir: Seq<char>) -> Seq<char> {
    crate::paths::join_raw(trim(git_dir), "index.lock"@)
}

/// `modified` gave `m` as the modification time of `p`.
pub open spec fn stamped<M: Fn(String) -> Option<u128>>(modified: M, p: Seq<char>, m: Option<u128>) -> bool {
    exists|x: String| x@ == p && #[trigger] modified.ensures((x,), m)
}

pub open spec fn lock_held_elsewhere_msg() -> Seq<char> {
    "索引锁由其他 Git 操作持有，未清理"@
}

pub open spec fn lock_busy_msg() -> Seq<char> {
    "索引锁仍被占用，未清理"@
}

pub open spec fn lock_removed_msg() -> Seq<char> {
    "已清理中断残留的 index.lock"@
}

pub open spec fn lock_stuck_msg(lock: Seq<char>) -> Seq<char> {
    "索引锁未释放，请手动删除："@ + lock
}

/// What is reported about the index lock once the lock at `lock` was found
/// with modification time `mtime`: a lock older than the run belongs to
/// someone else; one still open is left; otherwise it is removed.
pub open spec fn lock_outcome<B: Fn(String) -> bool, R: Fn(String) -> bool>(
    is_free: B,
    remove: R,
    lock: Seq<char>,
    mtime: u128,
    started_at: u128,
    r: Option<Seq<char>>,
) -> bool {
    if mtime < started_at {
        r == Some(lock_held_elsewhere_msg())
    } else {
        exists|free: bool|
            #[trigger] crate::worktree::answered(is_free, lock, free) && if !free {
                r == Some(lock_busy_msg())
            } else {
                exists|gone: bool|
                    #[trigger] crate::worktree::answered(remove, lock, gone) && r == Some(
                        if gone {
                            lock_removed_msg()
                        } else {
                            lock_stuck_msg(lock)
                        },
                    )
            }
    }
}

/// What is reported, given what git answered for the git directory.
pub open spec fn lock_report<M: Fn(String) -> Option<u128>, B: Fn(String) -> bool, R: Fn(String) -> bool>(
    modified: M,
    is_free: B,
    remove: R,
    o: Result<Seq<char>, Seq<char>>,
    started_at: u128,
    r: Option<Seq<char>>,
) -> bool {
    if o is Ok {
        exists|m: Option<u128>|
            #[trigger] stamped(modified, index_lock_of(o->Ok_0), m) && stamp_outcome(
                is_free,
                remove,
                index_lock_of(o->Ok_0),
                m,
                started_at,
                r,
            )
    } else {
        r is None
    }
}

/// What is reported once the lock's modification time was read as `m`
/// (`None`: there is no lock).
pub open spec fn stamp_outcome<B: Fn(String) -> bool, R: Fn(String) -> bool>(
    is_free: B,
    remove: R,
    lock: Seq<char>,
    m: Option<u128>,
    started_at: u128,
    r: Option<Seq<char>>,
) -> bool {
    match m {
        None => r is None,
        Some(t) => lock_outcome(is_free, remove, lock, t, started_at, r),
    }
}

/// After git was killed for running too long, the `index.lock` it may have
/// left behind is removed, but only when it is not older than the run
/// (`started_at`, on the clock of `modified`) and nobody holds it open. Says
/// what was done; `None` when there is no lock or its git directory cannot
/// be found. `git` runs git in the repository; `modified` reads a file's
/// modification time, `is_free` tells whether nobody has the file open, and
/// `remove` deletes a file, answering whether it did.
pub fn cleanup_killed_index_lock<
    F: Fn(Vec<String>) -> Result<String, String>,
    M: Fn(String) -> Option<u128>,
    B: Fn(String) -> bool,
    R: Fn(String) -> bool,
>(git: &F, modified: &M, is_free: &B, remove: &R, started_at: u128) -> (r: Option<String>)
    requires
        crate::runner::callable(*git),
        forall|x: String| modified.requires((x,)),
        forall|x: String| is_free.requires((x,)),
        forall|x: String| remove.requires((x,)),
    ensures
        exists|o: Result<Seq<char>, Seq<char>>|
            #[trigger] crate::runner::ran(*git, git_dir_args(), o) && lock_report(
                *modified,
                *is_free,
                *remove,
                o,
                started_at,
                opt_view(r),
            ),
{
    let mut a = crate::runner::Args::new();
    a.lit("rev-parse");
    a.lit("--absolute-git-dir");
    assert(crate::config::strs(a.v@) =~= git_dir_args());
    let git_dir = match crate::runner::call(git, a.v) {
        Err(e) => {
            assert(crate::runner::ran(*git, git_dir_args(), Err(e@)));
            return None;
        },
        Ok(d) => d,
    };
    assert(crate::runner::ran(*git, git_dir_args(), Ok(git_dir@)));
    let lock_chars = crate::paths::join_raw_chars(&trimmed(&chars_of(git_dir.as_str())), &chars_of("index.lock"));
    let ghost lockv = index_lock_of(git_dir@);
    let ghost o: Result<Seq<char>, Seq<char>> = Ok(git_dir@);
    assert(lock_chars@ == lockv);
    let arg = string_of(&lock_chars);
    let ghost argv = arg;
    let m = modified(arg);
    assert(stamped(*modified, lockv, m)) by {
        assert(modified.ensures((argv,), m));
    }
    let r: Option<String> = match m {
        None => None,
        Some(t) => {
            if t < started_at {
                Some(owned("索引锁由其他 Git 操作持有，未清理"))
            } else {
                let a2 = string_of(&lock_chars);
                let ghost a2v = a2;
                let free = is_free(a2);
                assert(crate::worktree::answered(*is_free, lockv, free)) by {
                    assert(is_free.ensures((a2v,), free));
                }
                if !free {
                    Some(owned("索引锁仍被占用，未清理"))
                } else {
                    let a3 = string_of(&lock_chars);
                    let ghost a3v = a3;
                    let gone = remove(a3);
                    assert(crate::worktree::answered(*remove, lockv, gone)) by {
                        assert(remove.ensures((a3v,), gone));
                    }
                    if gone {
                        Some(owned("已清理中断残留的 index.lock"))
                    } else {
                        let mut msg = chars_of("索引锁未释放，请手动删除：");
                        crate::text::extend_chars(&mut msg, &lock_chars);
                        Some(string_of(&msg))
                    }
                }
            }
        },
    };
    assert(stamp_outcome(*is_free, *remove, lockv, m, started_at, opt_view(r)));
    assert(o is Ok && o->Ok_0 == git_dir@);
    assert(lock_report(*modified, *is_free, *remove, o, started_at, opt_view(r)));
    r
}

/// A commit hash: 4 to 40 hex digits.
pub open spec fn valid_hash(h: Seq<char>) -> bool {
    4 <= h.len() <= 40 && forall|i: int| 0 <= i < h.len() ==> is_hex_digit(#[trigger] h[i])
}

pub fn validate_hash(hash: &str) -> (r: Result<(), String>)
    ensures
        r is Ok <==> valid_hash(hash@),
        r matches Err(e) ==> e@ == "无效的提交哈希："@ + hash@,
{
    let h = chars_of(hash);
    let mut ok = 4 <= h.len() && h.len() <= 40;
    if ok {
        let n = h.len();
        for i in 0..n
            invariant
                n == h@.len(),
                ok == (forall|k: int| 0 <= k < i ==> is_hex_digit(#[trigger] h@[k])),
        {
            let c = h[i];
            if !(('0' <= c && c <= '9') || ('a' <= c && c <= 'f') || ('A' <= c && c <= 'F')) {
                ok = false;
            }
        }
    }
    if ok {
        Ok(())
    } else {
        Err(cat("无效的提交哈希：", hash))
    }
}

/// Largest patch text shown.
pub const MAX_PATCH_BYTES: usize = 262144;

/// The largest char boundary of `b` that is at most `limit`.
pub open spec fn boundary_at_most(b: Seq<u8>, limit: int) -> int
    decreases limit,
{
    if limit <= 0 || is_char_boundary(b, limit) {
        if limit <= 0 {
            0
        } else {
            limit
        }
    } else {
        boundary_at_most(b, limit - 1)
    }
}

/// The cut of a long patch lies at the greatest char boundary that does not
/// pass the limit: no boundary lies between it and the limit.
pub proof fn lemma_cut_is_greatest_boundary(b: Seq<u8>, limit: int)
    ensures
        0 <= boundary_at_most(b, limit),
        limit > 0 ==> boundary_at_most(b, limit) <= limit,
        boundary_at_most(b, limit) > 0 ==> is_char_boundary(b, boundary_at_most(b, limit)),
        forall|j: int| boundary_at_most(b, limit) < j <= limit ==> !#[trigger] is_char_boundary(b, j),
    decreases limit,
{
    if limit > 0 && !is_char_boundary(b, limit) {
        lemma_cut_is_greatest_boundary(b, limit - 1);
    }
}

/// Whether a patch is longer than `MAX_PATCH_BYTES` bytes.
pub open spec fn patch_too_long(s: Seq<char>) -> bool {
    encode_utf8(s).len() > MAX_PATCH_BYTES
}

/// A patch cut at the last char boundary within `MAX_PATCH_BYTES` bytes.
pub open spec fn patch_cut(s: Seq<char>) -> Seq<char> {
    if patch_too_long(s) {
        decode_utf8(encode_utf8(s).take(boundary_at_most(encode_utf8(s), MAX_PATCH_BYTES as int)))
    } else {
        s
    }
}

/// A string has at least as many bytes as chars.
pub proof fn lemma_chars_le_bytes(s: Seq<char>)
    ensures
        s.len() <= encode_utf8(s).len(),
    decreases s.len(),
{
    if s.len() > 0 {
        lemma_chars_le_bytes(s.drop_first());
    }
}

/// A patch longer than `MAX_PATCH_BYTES` bytes is cut at the last char boundary
/// within the limit, and marked truncated.
pub fn truncate_patch(patch: String) -> (r: (String, bool))
    ensures
        r.0@ == patch_cut(patch@),
        r.1 == patch_too_long(patch@),
        encode_utf8(r.0@).len() <= MAX_PATCH_BYTES,
        encode_utf8(patch@).len() <= MAX_PATCH_BYTES ==> r.0@ == patch@ && !r.1,
        encode_utf8(patch@).len() > MAX_PATCH_BYTES ==> r.1 && encode_utf8(r.0@)
            == encode_utf8(patch@).take(boundary_at_most(encode_utf8(patch@), MAX_PATCH_BYTES as int)),
{
    let s = patch.as_str();
    let n = s.as_bytes().len();
    assert(n == encode_utf8(s@).len());
    if n <= MAX_PATCH_BYTES {
        return (patch, false);
    }
    let mut end = MAX_PATCH_BYTES;
    while end > 0 && !s.is_char_boundary(end)
        invariant
            end <= MAX_PATCH_BYTES,
            s@ == patch@,
            boundary_at_most(encode_utf8(s@), end as int) == boundary_at_most(encode_utf8(s@), MAX_PATCH_BYTES as int),
        decreases end,
    {
        end = end - 1;
    }
    proof {
        vstd::utf8::encode_utf8_valid_utf8(s@);
        vstd::utf8::is_char_boundary_start_end_of_seq(encode_utf8(s@));
    }
    let (head, _) = s.split_at(end);
    let h = head.to_owned();
    proof {
        vstd::utf8::encode_utf8_decode_utf8(h@);
    }
    (h, true)
}

} // verus!
