//! Reading configurations of the first formats (v1/v2): a project was a list
//! of groups of steps; each group becomes one start item whose command runs
//! the steps in order, changing directory where a step's directory changes.

use vstd::prelude::*;
use crate::config::{
    copy_string, items_view, opt_str, strs, AppConfig, Item, ItemV, Project, ProjectTemplate, ProjectV, Settings, Shell,
    CONFIG_VERSION, TEMPLATE_VERSION,
};
use crate::paths::{is_absolute_chars, is_absolute_path, join_parts, join_with, parts, parts_of, replace_chars};
use crate::text::{chars_of, extend_chars, owned, replace_char, string_of, trim, trimmed, vec_eq};

verus! {

/// The terminal a legacy group or step asked for.
#[derive(Debug, Clone, Copy, PartialEq, Eq, Structural)]
pub enum LegacyTerminal {
    Cmd,
    PowerShell,
    WindowsTerminal,
}

#[derive(Debug)]
pub struct LegacyStep {
    pub work_dir: Option<String>,
    pub terminal: LegacyTerminal,
    pub command: String,
}

#[derive(Debug)]
pub struct LegacyGroup {
    pub id: String,
    pub name: String,
    pub terminal: LegacyTerminal,
    pub steps: Vec<LegacyStep>,
}

#[derive(Debug)]
pub struct LegacyProject {
    pub id: String,
    pub name: String,
    pub root_dir: String,
    pub groups: Vec<LegacyGroup>,
}

#[derive(Debug)]
pub struct LegacySettings {
    pub autostart: bool,
}

#[derive(Debug)]
pub struct LegacyAppConfig {
    pub settings: LegacySettings,
    pub projects: Vec<LegacyProject>,
}

#[derive(Debug)]
pub struct LegacyTemplate {
    pub name: String,
    pub groups: Vec<LegacyGroup>,
}

pub struct StepV {
    pub work_dir: Option<Seq<char>>,
    pub terminal: LegacyTerminal,
    pub command: Seq<char>,
}

pub open spec fn step_view(s: LegacyStep) -> StepV {
    StepV { work_dir: opt_str(s.work_dir), terminal: s.terminal, command: s.command@ }
}

pub open spec fn steps_view(v: Seq<LegacyStep>) -> Seq<StepV> {
    v.map_values(|s: LegacyStep| step_view(s))
}

/// The first step terminal other than `cmd`, if any.
pub open spec fn first_non_cmd(steps: Seq<StepV>) -> Option<LegacyTerminal>
    decreases steps.len(),
{
    if steps.len() == 0 {
        None
    } else if steps[0].terminal != LegacyTerminal::Cmd {
        Some(steps[0].terminal)
    } else {
        first_non_cmd(steps.drop_first())
    }
}

/// The shell of a migrated group: its own terminal unless that is `cmd`, else
/// the first step terminal that is not; PowerShell stays PowerShell and
/// everything else (Windows Terminal included) becomes cmd.
pub open spec fn group_shell_spec(terminal: LegacyTerminal, steps: Seq<StepV>) -> Shell {
    let chosen = if terminal != LegacyTerminal::Cmd {
        terminal
    } else {
        match first_non_cmd(steps) {
            Some(t) => t,
            None => LegacyTerminal::Cmd,
        }
    };
    if chosen == LegacyTerminal::PowerShell {
        Shell::PowerShell
    } else {
        Shell::Cmd
    }
}

impl LegacyGroup {
    pub fn shell(&self) -> (r: Shell)
        ensures
            r == group_shell_spec(self.terminal, steps_view(self.steps@)),
    {
        let ghost sv = steps_view(self.steps@);
        let mut chosen = self.terminal;
        if chosen == LegacyTerminal::Cmd {
            let mut found: Option<LegacyTerminal> = None;
            let mut i: usize = 0;
            assert(sv.skip(0) == sv);
            while i < self.steps.len() && found.is_none()
                invariant
                    i <= self.steps@.len(),
                    sv == steps_view(self.steps@),
                    found is None ==> first_non_cmd(sv) == first_non_cmd(sv.skip(i as int)),
                    found is Some ==> first_non_cmd(sv) == found,
                decreases self.steps@.len() - i + (if found is None { 1int } else { 0int }),
            {
                assert(sv.skip(i as int)[0] == step_view(self.steps@[i as int]));
                if self.steps[i].terminal != LegacyTerminal::Cmd {
                    found = Some(self.steps[i].terminal);
                } else {
                    assert(sv.skip(i as int).drop_first() == sv.skip(i + 1));
                    i = i + 1;
                }
            }
            assert(found is None ==> sv.skip(i as int).len() == 0);
            chosen = match found {
                Some(t) => t,
                None => LegacyTerminal::Cmd,
            };
        }
        if chosen == LegacyTerminal::PowerShell {
            Shell::PowerShell
        } else {
            Shell::Cmd
        }
    }
}

/// The line that changes directory to `dir` in the given shell.
pub open spec fn cd_line_spec(shell: Shell, dir: Seq<char>) -> Seq<char> {
    match shell {
        Shell::Cmd => "cd /d \""@ + dir + "\""@,
        Shell::PowerShell => "Set-Location -LiteralPath '"@ + quote_doubled(dir) + "'"@,
        Shell::Bash => "cd '"@ + bash_single_quoted(replace_char(dir, '\\', '/')) + "'"@,
    }
}

/// `'` doubled, as PowerShell single-quoted strings write it.
pub open spec fn quote_doubled(s: Seq<char>) -> Seq<char>
    decreases s.len(),
{
    if s.len() == 0 {
        s
    } else {
        quote_doubled(s.drop_last()) + if s.last() == '\'' {
            seq!['\'', '\'']
        } else {
            seq![s.last()]
        }
    }
}

/// `'` written as `'\''`, as a POSIX shell single-quoted string needs.
pub open spec fn bash_single_quoted(s: Seq<char>) -> Seq<char>
    decreases s.len(),
{
    if s.len() == 0 {
        s
    } else {
        bash_single_quoted(s.drop_last()) + if s.last() == '\'' {
            seq!['\'', '\\', '\'', '\'']
        } else {
            seq![s.last()]
        }
    }
}

fn escape_each(s: &[char], bash: bool) -> (r: Vec<char>)
    ensures
        r@ == (if bash {
            bash_single_quoted(s@)
        } else {
            quote_doubled(s@)
        }),
{
    let mut out: Vec<char> = Vec::new();
    for i in 0..s.len()
        invariant
            out@ == (if bash {
                bash_single_quoted(s@.take(i as int))
            } else {
                quote_doubled(s@.take(i as int))
            }),
    {
        assert(s@.take(i + 1).drop_last() == s@.take(i as int));
        assert(s@.take(i + 1).last() == s@[i as int]);
        let c = s[i];
        if c == '\'' {
            if bash {
                out.push('\'');
                out.push('\\');
                out.push('\'');
                out.push('\'');
            } else {
                out.push('\'');
                out.push('\'');
            }
        } else {
            out.push(c);
        }
        assert(out@ =~= (if bash {
            bash_single_quoted(s@.take(i + 1))
        } else {
            quote_doubled(s@.take(i + 1))
        }));
    }
    assert(s@.take(s@.len() as int) == s@);
    out
}

pub fn cd_line(shell: Shell, dir: &str) -> (r: String)
    ensures
        r@ == cd_line_spec(shell, dir@),
{
    let d = chars_of(dir);
    let mut m: Vec<char>;
    match shell {
        Shell::Cmd => {
            m = chars_of("cd /d \"");
            extend_chars(&mut m, &d);
            extend_chars(&mut m, &chars_of("\""));
        },
        Shell::PowerShell => {
            m = chars_of("Set-Location -LiteralPath '");
            extend_chars(&mut m, &escape_each(&d, false));
            extend_chars(&mut m, &chars_of("'"));
        },
        Shell::Bash => {
            m = chars_of("cd '");
            extend_chars(&mut m, &escape_each(&replace_chars(&d, '\\', '/'), true));
            extend_chars(&mut m, &chars_of("'"));
        },
    }
    string_of(&m)
}

/// The number of leading parts two part lists share.
pub open spec fn common_len(f: Seq<Seq<char>>, t: Seq<Seq<char>>) -> nat
    decreases f.len(),
{
    if f.len() == 0 || t.len() == 0 || f[0] != t[0] {
        0
    } else {
        1 + common_len(f.drop_first(), t.drop_first())
    }
}

pub open spec fn opt_seq(o: Option<&str>) -> Option<Seq<char>> {
    match o {
        Some(s) => Some(s@),
        None => None,
    }
}

pub open spec fn parts_or_root(o: Option<Seq<char>>) -> Seq<Seq<char>> {
    match o {
        Some(s) => parts(s),
        None => seq![],
    }
}

/// The path from directory `from` to directory `to` (both relative to the
/// project root; none is the root): `..` up to their common part, then down.
/// An absolute `to` is kept as it is; the same directory is `.`.
pub open spec fn rel_path_spec(from: Option<Seq<char>>, to: Option<Seq<char>>) -> Seq<char> {
    if to matches Some(t) && is_absolute_path(t) {
        to->0
    } else {
        let f = parts_or_root(from);
        let t = parts_or_root(to);
        let c = common_len(f, t);
        let ps = Seq::new((f.len() - c) as nat, |i: int| ".."@) + t.skip(c as int);
        if ps.len() == 0 {
            "."@
        } else {
            join_with(ps, '\\')
        }
    }
}

proof fn lemma_common_len(f: Seq<Seq<char>>, t: Seq<Seq<char>>, k: int)
    requires
        0 <= k <= f.len(),
        k <= t.len(),
        forall|j: int| 0 <= j < k ==> f[j] == t[j],
        k == f.len() || k == t.len() || f[k] != t[k],
    ensures
        common_len(f, t) == k,
    decreases k,
{
    if k > 0 {
        lemma_common_len(f.drop_first(), t.drop_first(), k - 1);
    }
}

fn parts_opt(o: Option<&str>) -> (r: Vec<Vec<char>>)
    ensures
        r@.map_values(|x: Vec<char>| x@) == parts_or_root(opt_seq(o)),
{
    match o {
        Some(s) => parts_of(&chars_of(s)),
        None => {
            let v: Vec<Vec<char>> = Vec::new();
            assert(v@.map_values(|x: Vec<char>| x@) =~= Seq::<Seq<char>>::empty());
            v
        },
    }
}

pub fn rel_path(from: Option<&str>, to: Option<&str>) -> (r: String)
    ensures
        r@ == rel_path_spec(opt_seq(from), opt_seq(to)),
{
    match to {
        Some(t) => {
            if is_absolute_chars(&chars_of(t)) {
                return owned(t);
            }
        },
        None => {},
    }
    let f = parts_opt(from);
    let t = parts_opt(to);
    let ghost fv = f@.map_values(|x: Vec<char>| x@);
    let ghost tv = t@.map_values(|x: Vec<char>| x@);
    let mut c: usize = 0;
    while c < f.len() && c < t.len() && vec_eq(&f[c], &t[c])
        invariant
            c <= f@.len(),
            c <= t@.len(),
            fv == f@.map_values(|x: Vec<char>| x@),
            tv == t@.map_values(|x: Vec<char>| x@),
            forall|j: int| 0 <= j < c ==> fv[j] == tv[j],
        decreases f@.len() - c,
    {
        c = c + 1;
    }
    proof {
        lemma_common_len(fv, tv, c as int);
    }
    let mut ps: Vec<Vec<char>> = Vec::new();
    let ups = f.len() - c;
    for i in 0..ups
        invariant
            ps@.map_values(|x: Vec<char>| x@) == Seq::new(i as nat, |j: int| ".."@),
    {
        let ghost before = ps@.map_values(|x: Vec<char>| x@);
        ps.push(chars_of(".."));
        assert(ps@.map_values(|x: Vec<char>| x@) =~= before.push(".."@));
        assert(ps@.map_values(|x: Vec<char>| x@) =~= Seq::new((i + 1) as nat, |j: int| ".."@));
    }
    let ghost up = ps@.map_values(|x: Vec<char>| x@);
    for k in c..t.len()
        invariant
            c <= t@.len(),
            tv == t@.map_values(|x: Vec<char>| x@),
            ps@.map_values(|x: Vec<char>| x@) == up + tv.subrange(c as int, k as int),
    {
        let ghost before = ps@.map_values(|x: Vec<char>| x@);
        ps.push(crate::text::copy_chars(&t[k]));
        assert(ps@.map_values(|x: Vec<char>| x@) =~= before.push(tv[k as int]));
        assert(tv.subrange(c as int, k + 1) =~= tv.subrange(c as int, k as int).push(tv[k as int]));
        assert(ps@.map_values(|x: Vec<char>| x@) =~= up + tv.subrange(c as int, k + 1));
    }
    assert(tv.subrange(c as int, tv.len() as int) == tv.skip(c as int));
    if ps.len() == 0 {
        return owned(".");
    }
    string_of(&join_parts(&ps, '\\'))
}

/// The command lines of a group's steps: blank commands dropped; before a step
/// whose directory differs from the one in effect, a change of directory
/// (none when the path is `.`).
pub struct LinesSt {
    pub lines: Seq<Seq<char>>,
    pub prev: Option<Seq<char>>,
}

pub open spec fn lines_fold(shell: Shell, steps: Seq<StepV>, start: Option<Seq<char>>) -> LinesSt
    decreases steps.len(),
{
    if steps.len() == 0 {
        LinesSt { lines: seq![], prev: start }
    } else {
        let st = lines_fold(shell, steps.drop_last(), start);
        let s = steps.last();
        let cmd = trim(s.command);
        if cmd.len() == 0 {
            st
        } else if s.work_dir != st.prev {
            let rel = rel_path_spec(st.prev, s.work_dir);
            let ls = if rel != "."@ {
                st.lines.push(cd_line_spec(shell, rel))
            } else {
                st.lines
            };
            LinesSt { lines: ls.push(cmd), prev: s.work_dir }
        } else {
            LinesSt { lines: st.lines.push(cmd), prev: st.prev }
        }
    }
}

pub open spec fn first_work_dir(steps: Seq<StepV>) -> Option<Seq<char>> {
    if steps.len() > 0 {
        steps[0].work_dir
    } else {
        None
    }
}

/// The start item a legacy group becomes; none when it has no command.
pub open spec fn group_item_spec(id: Seq<char>, name: Seq<char>, terminal: LegacyTerminal, steps: Seq<StepV>) -> Option<
    ItemV,
> {
    let shell = group_shell_spec(terminal, steps);
    let wd = first_work_dir(steps);
    let ls = lines_fold(shell, steps, wd).lines;
    if ls.len() == 0 {
        None
    } else {
        Some(ItemV { id, name, work_dir: wd, shell, command: join_with(ls, '\n') })
    }
}

pub open spec fn group_item(g: LegacyGroup) -> Option<ItemV> {
    group_item_spec(g.id@, g.name@, g.terminal, steps_view(g.steps@))
}

fn opt_as_str(o: &Option<String>) -> (r: Option<&str>)
    ensures
        opt_seq(r) == opt_str(*o),
{
    match o {
        Some(s) => Some(s.as_str()),
        None => None,
    }
}

fn same_opt(a: &Option<String>, b: &Option<String>) -> (r: bool)
    ensures
        r == (opt_str(*a) == opt_str(*b)),
{
    match (a, b) {
        (Some(x), Some(y)) => vec_eq(&chars_of(x.as_str()), &chars_of(y.as_str())),
        (None, None) => true,
        _ => false,
    }
}

impl LegacyGroup {
    /// The group as one start item: its steps' commands joined by newlines,
    /// in the shell the group or its steps chose, starting in the first
    /// step's directory.
    pub fn into_item(self) -> (r: Option<Item>)
        ensures
            match r {
                Some(i) => group_item(self) == Some(i@),
                None => group_item(self) is None,
            },
    {
        let ghost sv = steps_view(self.steps@);
        let shell = self.shell();
        let work_dir = if self.steps.len() > 0 {
            crate::config::copy_opt_string(&self.steps[0].work_dir)
        } else {
            None
        };
        assert(opt_str(work_dir) == first_work_dir(sv));
        let mut prev = crate::config::copy_opt_string(&work_dir);
        let mut lines: Vec<Vec<char>> = Vec::new();
        let n = self.steps.len();
        for i in 0..n
            invariant
                n == self.steps@.len(),
                sv == steps_view(self.steps@),
                shell == group_shell_spec(self.terminal, sv),
                lines@.map_values(|x: Vec<char>| x@) == lines_fold(shell, sv.take(i as int), first_work_dir(sv)).lines,
                opt_str(prev) == lines_fold(shell, sv.take(i as int), first_work_dir(sv)).prev,
        {
            assert(sv.take(i + 1).drop_last() == sv.take(i as int));
            assert(sv.take(i + 1).last() == step_view(self.steps@[i as int]));
            let step = &self.steps[i];
            let cmd = trimmed(&chars_of(step.command.as_str()));
            if cmd.len() > 0 {
                if !same_opt(&step.work_dir, &prev) {
                    let rel = rel_path(opt_as_str(&prev), opt_as_str(&step.work_dir));
                    if !vec_eq(&chars_of(rel.as_str()), &chars_of(".")) {
                        let ghost before = lines@.map_values(|x: Vec<char>| x@);
                        lines.push(chars_of(cd_line(shell, rel.as_str()).as_str()));
                        assert(lines@.map_values(|x: Vec<char>| x@) =~= before.push(
                            cd_line_spec(shell, rel_path_spec(opt_str(prev), opt_str(step.work_dir))),
                        ));
                    }
                    prev = crate::config::copy_opt_string(&step.work_dir);
                }
                let ghost before = lines@.map_values(|x: Vec<char>| x@);
                let ghost cv = cmd@;
                lines.push(cmd);
                assert(lines@.map_values(|x: Vec<char>| x@) =~= before.push(cv));
            }
        }
        assert(sv.take(n as int) == sv);
        if lines.len() == 0 {
            return None;
        }
        let command = string_of(&join_parts(&lines, '\n'));
        Some(Item { id: self.id, name: self.name, work_dir, shell, command })
    }
}

pub open spec fn groups_items(gs: Seq<LegacyGroup>) -> Seq<ItemV>
    decreases gs.len(),
{
    if gs.len() == 0 {
        seq![]
    } else {
        match group_item(gs.last()) {
            Some(i) => groups_items(gs.drop_last()).push(i),
            None => groups_items(gs.drop_last()),
        }
    }
}

fn items_of(groups: Vec<LegacyGroup>) -> (r: Vec<Item>)
    ensures
        items_view(r@) == groups_items(groups@),
{
    let ghost gv = groups@;
    let mut out: Vec<Item> = Vec::new();
    let mut rest = groups;
    let mut taken: usize = 0;
    let n = rest.len();
    let mut rev: Vec<LegacyGroup> = Vec::new();
    while rest.len() > 0
        invariant
            rev@.len() + rest@.len() == n,
            rest@ + rev@.reverse() == gv,
        decreases rest@.len(),
    {
        let g = rest.pop().unwrap();
        let ghost before_rest = rest@;
        rev.push(g);
        assert(before_rest.push(g) + rev@.drop_last().reverse() == gv);
        assert(rev@.reverse() =~= seq![g] + rev@.drop_last().reverse());
        assert(rest@ + rev@.reverse() =~= before_rest.push(g) + rev@.drop_last().reverse());
    }
    assert(rev@.reverse() =~= gv);
    let total = rev.len();
    while rev.len() > 0
        invariant
            total == gv.len(),
            rev@.reverse() == gv.skip(taken as int),
            taken <= gv.len(),
            rev@.len() + taken == gv.len(),
            items_view(out@) == groups_items(gv.take(taken as int)),
        decreases rev@.len(),
    {
        let ghost rv = rev@;
        let g = rev.pop().unwrap();
        assert(rv.reverse()[0] == g);
        assert(gv.skip(taken as int)[0] == gv[taken as int]);
        assert(rev@.reverse() =~= rv.reverse().drop_first());
        assert(gv.skip(taken + 1) =~= gv.skip(taken as int).drop_first());
        assert(gv.take(taken + 1).drop_last() == gv.take(taken as int));
        assert(gv.take(taken + 1).last() == g);
        let ghost gi = group_item(g);
        match g.into_item() {
            Some(i) => {
                let ghost before = items_view(out@);
                let ghost iv = i@;
                out.push(i);
                assert(items_view(out@) =~= before.push(iv));
            },
            None => {},
        }
        taken = taken + 1;
    }
    assert(gv.take(gv.len() as int) == gv);
    out
}

pub open spec fn legacy_project_view(p: LegacyProject) -> ProjectV {
    ProjectV {
        id: p.id@,
        name: p.name@,
        root_dir: p.root_dir@,
        favorite: false,
        last_launched_at: None,
        items: groups_items(p.groups@),
        worktree: None,
    }
}

impl LegacyProject {
    /// The project with each group as a start item.
    pub fn into_config(self) -> (r: Project)
        ensures
            r@ == legacy_project_view(self),
    {
        Project {
            id: self.id,
            name: self.name,
            root_dir: self.root_dir,
            favorite: false,
            last_launched_at: None,
            items: items_of(self.groups),
            worktree: None,
        }
    }
}

impl LegacyAppConfig {
    /// A configuration of the current version: the legacy autostart flag kept,
    /// other settings defaulted, every project migrated.
    pub fn into_config(self) -> (r: AppConfig)
        ensures
            r.version == CONFIG_VERSION,
            r.settings@ == (crate::config::SettingsV { autostart: self.settings.autostart, ..crate::config::default_settings() }),
            crate::config::projects_view(r.projects@) == self.projects@.map_values(|p: LegacyProject| legacy_project_view(p)),
    {
        let mut settings = Settings::default();
        settings.autostart = self.settings.autostart;
        let ghost pv = self.projects@;
        let mut out: Vec<Project> = Vec::new();
        let mut rest = self.projects;
        let mut rev: Vec<LegacyProject> = Vec::new();
        let n = rest.len();
        while rest.len() > 0
            invariant
                rev@.len() + rest@.len() == n,
                rest@ + rev@.reverse() == pv,
            decreases rest@.len(),
        {
            let g = rest.pop().unwrap();
            let ghost before_rest = rest@;
            rev.push(g);
            assert(rev@.reverse() =~= seq![g] + rev@.drop_last().reverse());
            assert(rest@ + rev@.reverse() =~= before_rest.push(g) + rev@.drop_last().reverse());
        }
        assert(rev@.reverse() =~= pv);
        let mut taken: usize = 0;
        let total = rev.len();
        while rev.len() > 0
            invariant
                total == pv.len(),
                rev@.reverse() == pv.skip(taken as int),
                taken <= pv.len(),
                rev@.len() + taken == pv.len(),
                crate::config::projects_view(out@) == pv.take(taken as int).map_values(|p: LegacyProject| legacy_project_view(p)),
            decreases rev@.len(),
        {
            let ghost rv = rev@;
            let p = rev.pop().unwrap();
            assert(rv.reverse()[0] == p);
            assert(pv.skip(taken as int)[0] == pv[taken as int]);
            assert(rev@.reverse() =~= rv.reverse().drop_first());
            assert(pv.skip(taken + 1) =~= pv.skip(taken as int).drop_first());
            let ghost before = crate::config::projects_view(out@);
            let ghost lv = legacy_project_view(p);
            let q = p.into_config();
            out.push(q);
            assert(crate::config::projects_view(out@) =~= before.push(lv));
            assert(pv.take(taken + 1).map_values(|p: LegacyProject| legacy_project_view(p)) =~= pv.take(taken as int).map_values(
                |p: LegacyProject| legacy_project_view(p),
            ).push(lv));
            taken = taken + 1;
        }
        assert(pv.take(pv.len() as int) == pv);
        AppConfig { version: CONFIG_VERSION, settings, projects: out }
    }
}

impl LegacyTemplate {
    /// A template of the current version with each group as a start item.
    pub fn into_template(self) -> (r: ProjectTemplate)
        ensures
            r.version == TEMPLATE_VERSION,
            r.name@ == self.name@,
            items_view(r.items@) == groups_items(self.groups@),
            r.worktree is None,
    {
        ProjectTemplate { version: TEMPLATE_VERSION, name: self.name, items: items_of(self.groups), worktree: None }
    }
}

} // verus!
