//! Turning start items into panes: where each runs and what it carries.

use vstd::prelude::*;
use crate::config::{copy_string, items_view, opt_str, Item, ItemV, Project};
use crate::paths::{join_normalized, join_normalized_chars, normalize_path, normalize_path_chars};
use crate::platform::{LaunchMode, PaneSpec};
use crate::commands::{find_project, project_dir, project_dir_spec, project_index};
use crate::config::{projects_view, AppConfig, ProjectV};
use crate::text::decimal;
use crate::text::{blank, chars_of, extend_chars, is_blank, owned, string_of, trim};
use crate::worktree::{env_pair_result, pairs_error, pairs_view, validate_env_pair};

verus! {

/// The directory a start item runs in: its own directory when set (absolute,
/// or relative to `root_dir`), else `root_dir`; rebuilt from its components.
pub open spec fn work_dir_spec(root_dir: Seq<char>, work_dir: Option<Seq<char>>) -> Seq<char> {
    match work_dir {
        Some(w) if !is_blank(w) => join_normalized(root_dir, w),
        _ => normalize_path(root_dir),
    }
}

pub fn resolve_work_dir(root_dir: &str, work_dir: &Option<String>) -> (r: String)
    ensures
        r@ == work_dir_spec(root_dir@, opt_str(*work_dir)),
{
    let root = chars_of(root_dir);
    match work_dir {
        Some(w) => {
            let wc = chars_of(w.as_str());
            if !blank(&wc) {
                return string_of(&join_normalized_chars(&root, &wc));
            }
        },
        None => {},
    }
    string_of(&normalize_path_chars(&root))
}

/// The name used for an item in messages.
pub open spec fn item_label(name: Seq<char>) -> Seq<char> {
    if is_blank(name) {
        "未命名启动项"@
    } else {
        name
    }
}

pub open spec fn empty_command_msg(name: Seq<char>) -> Seq<char> {
    "「"@ + item_label(name) + "」还没有填写命令，请先在编辑器里补上"@
}

pub open spec fn missing_dir_msg(name: Seq<char>, dir: Seq<char>) -> Seq<char> {
    "「"@ + item_label(name) + "」目录不存在："@ + dir
}

/// `is_dir` was asked about `path` and answered `b`.
pub open spec fn dir_answer<D: Fn(String) -> bool>(is_dir: D, path: Seq<char>, b: bool) -> bool {
    exists|x: String| x@ == path && #[trigger] is_dir.ensures((x,), b)
}

/// Item `i` passed both checks: it has a command and its directory exists.
pub open spec fn item_ready<D: Fn(String) -> bool>(is_dir: D, base: Seq<char>, it: ItemV) -> bool {
    !is_blank(it.command) && dir_answer(is_dir, work_dir_spec(base, it.work_dir), true)
}

/// Item `it` is the one refused, with error `e`.
pub open spec fn item_refused<D: Fn(String) -> bool>(is_dir: D, base: Seq<char>, it: ItemV, e: Seq<char>) -> bool {
    (is_blank(it.command) && e == empty_command_msg(it.name)) || (!is_blank(it.command) && dir_answer(
        is_dir,
        work_dir_spec(base, it.work_dir),
        false,
    ) && e == missing_dir_msg(it.name, work_dir_spec(base, it.work_dir)))
}

pub open spec fn env_prefix_msg(e: Seq<char>) -> Seq<char> {
    "环境注入失败："@ + e
}

fn copy_env(env: &Vec<(String, String)>) -> (r: Vec<(String, String)>)
    ensures
        pairs_view(r@) == pairs_view(env@),
{
    let mut out: Vec<(String, String)> = Vec::new();
    for i in 0..env.len()
        invariant
            pairs_view(out@) == pairs_view(env@.take(i as int)),
    {
        let ghost ov = pairs_view(out@);
        let p = (copy_string(&env[i].0), copy_string(&env[i].1));
        let ghost pv = (p.0@, p.1@);
        out.push(p);
        assert(pairs_view(out@) =~= ov.push(pv));
        assert(pairs_view(env@.take(i + 1)) =~= pairs_view(env@.take(i as int)).push(pv));
    }
    assert(env@.take(env@.len() as int) == env@);
    out
}

/// The panes for `items` run from `base_dir`: relative item directories are
/// resolved there, absolute ones are kept, and each pane carries `env`.
/// Refuses no items, a bad variable, an item without a command and a missing
/// directory (asked of `is_dir`), naming the item.
pub fn build_panes_in<D: Fn(String) -> bool>(
    is_dir: &D,
    items: &Vec<Item>,
    base_dir: &str,
    env: &Vec<(String, String)>,
) -> (r: Result<Vec<PaneSpec>, String>)
    requires
        forall|x: String| is_dir.requires((x,)),
    ensures
        items@.len() == 0 ==> (r matches Err(e) && e@ == "没有可启动的启动项"@),
        items@.len() > 0 && pairs_error(pairs_view(env@)) is Some ==> (r matches Err(e) && e@ == env_prefix_msg(
            pairs_error(pairs_view(env@))->0,
        )),
        items@.len() > 0 && pairs_error(pairs_view(env@)) is None ==> match r {
            Ok(panes) => panes@.len() == items@.len() && forall|i: int|
                0 <= i < items@.len() ==> {
                    &&& item_ready(*is_dir, base_dir@, items@[i]@)
                    &&& (#[trigger] panes@[i]).title@ == items@[i].name@
                    &&& panes@[i].work_dir@ == work_dir_spec(base_dir@, opt_str(items@[i].work_dir))
                    &&& panes@[i].shell == items@[i].shell
                    &&& panes@[i].command@ == items@[i].command@
                    &&& pairs_view(panes@[i].env@) == pairs_view(env@)
                },
            Err(e) => exists|k: int|
                0 <= k < items@.len() && (forall|j: int| 0 <= j < k ==> item_ready(*is_dir, base_dir@, #[trigger] items@[j]@))
                    && item_refused(*is_dir, base_dir@, #[trigger] items@[k]@, e@),
        },
{
    if items.len() == 0 {
        return Err(owned("没有可启动的启动项"));
    }
    let ghost want = pairs_view(env@);
    let n = env.len();
    for i in 0..n
        invariant
            n == env@.len(),
            items@.len() > 0,
            want == pairs_view(env@),
            pairs_error(want.take(i as int)) is None,
    {
        assert(want.take(i + 1).drop_last() == want.take(i as int));
        assert(want.take(i + 1).last() == want[i as int]);
        assert(want[i as int] == (env@[i as int].0@, env@[i as int].1@));
        match validate_env_pair(env[i].0.as_str(), env[i].1.as_str()) {
            Err(e) => {
                proof {
                    crate::worktree::lemma_pairs_error_prefix(want, i + 1);
                }
                let mut m = chars_of("环境注入失败：");
                extend_chars(&mut m, &chars_of(e.as_str()));
                return Err(string_of(&m));
            },
            Ok(()) => {},
        }
    }
    assert(want.take(n as int) == want);
    let mut panes: Vec<PaneSpec> = Vec::new();
    let m = items.len();
    for i in 0..m
        invariant
            m == items@.len(),
            m > 0,
            pairs_error(pairs_view(env@)) is None,
            forall|x: String| is_dir.requires((x,)),
            panes@.len() == i,
            forall|k: int| 0 <= k < i ==> item_ready(*is_dir, base_dir@, #[trigger] items@[k]@),
            forall|k: int|
                0 <= k < i ==> {
                    &&& item_ready(*is_dir, base_dir@, items@[k]@)
                    &&& (#[trigger] panes@[k]).title@ == items@[k].name@
                    &&& panes@[k].work_dir@ == work_dir_spec(base_dir@, opt_str(items@[k].work_dir))
                    &&& panes@[k].shell == items@[k].shell
                    &&& panes@[k].command@ == items@[k].command@
                    &&& pairs_view(panes@[k].env@) == pairs_view(env@)
                },
    {
        let item = &items[i];
        assert(items@[i as int]@.work_dir == opt_str(item.work_dir));
        let name = chars_of(item.name.as_str());
        let label = if blank(&name) {
            chars_of("未命名启动项")
        } else {
            name
        };
        if blank(&chars_of(item.command.as_str())) {
            let mut msg = chars_of("「");
            extend_chars(&mut msg, &label);
            extend_chars(&mut msg, &chars_of("」还没有填写命令，请先在编辑器里补上"));
            let e = string_of(&msg);
            assert(item_refused(*is_dir, base_dir@, items@[i as int]@, e@));
            assert(forall|j: int| 0 <= j < i ==> item_ready(*is_dir, base_dir@, #[trigger] items@[j]@));
            return Err(e);
        }
        let wd = resolve_work_dir(base_dir, &item.work_dir);
        let ghost wv = wd@;
        let probe_arg = copy_string(&wd);
        let ghost pa = probe_arg;
        let ok = is_dir(probe_arg);
        assert(is_dir.ensures((pa,), ok));
        if !ok {
            assert(dir_answer(*is_dir, wv, false));
            let mut msg = chars_of("「");
            extend_chars(&mut msg, &label);
            extend_chars(&mut msg, &chars_of("」目录不存在："));
            extend_chars(&mut msg, &chars_of(wd.as_str()));
            let e = string_of(&msg);
            assert(item_refused(*is_dir, base_dir@, items@[i as int]@, e@));
            assert(forall|j: int| 0 <= j < i ==> item_ready(*is_dir, base_dir@, #[trigger] items@[j]@));
            return Err(e);
        }
        assert(dir_answer(*is_dir, wv, true));
        let pane = PaneSpec {
            title: copy_string(&item.name),
            work_dir: wd,
            shell: item.shell,
            command: copy_string(&item.command),
            env: copy_env(env),
        };
        panes.push(pane);
    }
    Ok(panes)
}

/// The panes for `items` of a project, run from its root directory with no
/// injected variables.
pub fn build_panes<D: Fn(String) -> bool>(is_dir: &D, project: &Project, items: &Vec<Item>) -> (r: Result<
    Vec<PaneSpec>,
    String,
>)
    requires
        forall|x: String| is_dir.requires((x,)),
    ensures
        items@.len() == 0 ==> (r matches Err(e) && e@ == "没有可启动的启动项"@),
        items@.len() > 0 ==> match r {
            Ok(panes) => panes@.len() == items@.len() && forall|i: int|
                0 <= i < items@.len() ==> {
                    &&& item_ready(*is_dir, project.root_dir@, items@[i]@)
                    &&& (#[trigger] panes@[i]).title@ == items@[i].name@
                    &&& panes@[i].work_dir@ == work_dir_spec(project.root_dir@, opt_str(items@[i].work_dir))
                    &&& panes@[i].shell == items@[i].shell
                    &&& panes@[i].command@ == items@[i].command@
                    &&& panes@[i].env@.len() == 0
                },
            Err(e) => exists|k: int|
                0 <= k < items@.len() && (forall|j: int|
                    0 <= j < k ==> item_ready(*is_dir, project.root_dir@, #[trigger] items@[j]@)) && item_refused(
                    *is_dir,
                    project.root_dir@,
                    #[trigger] items@[k]@,
                    e@,
                ),
        },
{
    let env: Vec<(String, String)> = Vec::new();
    assert(pairs_view(env@) =~= Seq::<(Seq<char>, Seq<char>)>::empty());
    let r = build_panes_in(is_dir, items, project.root_dir.as_str(), &env);
    match r {
        Ok(panes) => {
            assert forall|i: int| 0 <= i < items@.len() implies (#[trigger] panes@[i]).env@.len() == 0 by {
                assert(pairs_view(panes@[i].env@).len() == 0);
            }
            Ok(panes)
        },
        Err(e) => Err(e),
    }
}

/// What to tell the user after a launch: with the main window open, only
/// that Windows Terminal was missing (the window shows the rest); from the
/// tray, what was started and how.
pub open spec fn launch_report_spec(visible: bool, mode: LaunchMode, label: Seq<char>, panes: nat) -> Option<Seq<char>> {
    if visible {
        if mode == LaunchMode::Fallback {
            Some("未检测到 Windows Terminal，已降级为 "@ + decimal(panes) + " 个独立终端窗口"@)
        } else {
            None
        }
    } else if mode == LaunchMode::Fallback {
        Some("未检测到 Windows Terminal，已用 "@ + decimal(panes) + " 个独立终端窗口启动「"@ + label + "」"@)
    } else {
        Some("已启动「"@ + label + "」（"@ + decimal(panes) + " 个窗格）"@)
    }
}

pub fn launch_report(visible: bool, mode: LaunchMode, label: &str, panes: usize) -> (r: Option<String>)
    ensures
        opt_str(r) == launch_report_spec(visible, mode, label@, panes as nat),
{
    let n = crate::text::decimal_chars(panes as u64);
    let mut m: Vec<char>;
    if visible {
        if mode == LaunchMode::Fallback {
            m = chars_of("未检测到 Windows Terminal，已降级为 ");
            extend_chars(&mut m, &n);
            extend_chars(&mut m, &chars_of(" 个独立终端窗口"));
        } else {
            return None;
        }
    } else if mode == LaunchMode::Fallback {
        m = chars_of("未检测到 Windows Terminal，已用 ");
        extend_chars(&mut m, &n);
        extend_chars(&mut m, &chars_of(" 个独立终端窗口启动「"));
        extend_chars(&mut m, &chars_of(label));
        extend_chars(&mut m, &chars_of("」"));
    } else {
        m = chars_of("已启动「");
        extend_chars(&mut m, &chars_of(label));
        extend_chars(&mut m, &chars_of("」（"));
        extend_chars(&mut m, &n);
        extend_chars(&mut m, &chars_of(" 个窗格）"));
    }
    Some(string_of(&m))
}

pub open spec fn missing_project_msg(id: Seq<char>) -> Seq<char> {
    "未找到项目 "@ + id
}

fn not_found(prefix: &str, id: &str) -> (r: String)
    ensures
        r@ == prefix@ + id@,
{
    let mut m = chars_of(prefix);
    extend_chars(&mut m, &chars_of(id));
    string_of(&m)
}

/// The panes that launching the whole project `project_id` opens.
pub fn project_panes<D: Fn(String) -> bool>(is_dir: &D, cfg: &AppConfig, project_id: &str) -> (r: Result<
    Vec<PaneSpec>,
    String,
>)
    requires
        forall|x: String| is_dir.requires((x,)),
    ensures
        project_index(projects_view(cfg.projects@), project_id@) is None ==> (r matches Err(e) && e@
            == missing_project_msg(project_id@)),
        project_index(projects_view(cfg.projects@), project_id@) matches Some(i) ==> {
            let p = cfg.projects@[i];
            &&& p.items@.len() == 0 ==> (r matches Err(e) && e@ == "没有可启动的启动项"@)
            &&& r matches Ok(panes) ==> panes@.len() == p.items@.len() && forall|k: int|
                0 <= k < p.items@.len() ==> {
                    &&& item_ready(*is_dir, p.root_dir@, p.items@[k]@)
                    &&& (#[trigger] panes@[k]).title@ == p.items@[k].name@
                    &&& panes@[k].work_dir@ == work_dir_spec(p.root_dir@, opt_str(p.items@[k].work_dir))
                    &&& panes@[k].command@ == p.items@[k].command@
                    &&& panes@[k].shell == p.items@[k].shell
                }
            &&& p.items@.len() > 0 ==> (r matches Err(e) ==> exists|k: int|
                0 <= k < p.items@.len() && item_refused(*is_dir, p.root_dir@, #[trigger] p.items@[k]@, e@))
        },
{
    match find_project(&cfg.projects, project_id) {
        None => Err(not_found("未找到项目 ", project_id)),
        Some(i) => {
            assert(projects_view(cfg.projects@)[i as int] == cfg.projects@[i as int]@);
            build_panes(is_dir, &cfg.projects[i], &cfg.projects[i].items)
        },
    }
}

pub open spec fn item_index(items: Seq<ItemV>, id: Seq<char>) -> Option<int>
    decreases items.len(),
{
    if items.len() == 0 {
        None
    } else {
        match item_index(items.drop_last(), id) {
            Some(i) => Some(i),
            None => if items.last().id == id {
                Some(items.len() - 1)
            } else {
                None
            },
        }
    }
}

fn find_item(items: &Vec<Item>, id: &str) -> (r: Option<usize>)
    ensures
        match r {
            Some(i) => i < items@.len() && item_index(items_view(items@), id@) == Some(i as int),
            None => item_index(items_view(items@), id@) is None,
        },
{
    let ghost iv = items_view(items@);
    let idc = chars_of(id);
    for i in 0..items.len()
        invariant
            iv == items_view(items@),
            idc@ == id@,
            item_index(iv.take(i as int), id@) is None,
    {
        assert(iv.take(i + 1).drop_last() == iv.take(i as int));
        assert(iv.take(i + 1).last() == items@[i as int]@);
        if crate::text::vec_eq(&chars_of(items[i].id.as_str()), &idc) {
            proof {
                lemma_item_index_prefix(iv, id@, i + 1);
            }
            return Some(i);
        }
    }
    assert(iv.take(items@.len() as int) == iv);
    None
}

proof fn lemma_item_index_prefix(s: Seq<ItemV>, id: Seq<char>, j: int)
    requires
        0 <= j <= s.len(),
        item_index(s.take(j), id) is Some,
    ensures
        item_index(s, id) == item_index(s.take(j), id),
    decreases s.len() - j,
{
    if j < s.len() {
        assert(s.drop_last().take(j) == s.take(j));
        lemma_item_index_prefix(s.drop_last(), id, j);
    } else {
        assert(s.take(j) == s);
    }
}

/// The single pane that launching one start item opens.
pub fn item_panes<D: Fn(String) -> bool>(is_dir: &D, cfg: &AppConfig, project_id: &str, item_id: &str) -> (r: Result<
    Vec<PaneSpec>,
    String,
>)
    requires
        forall|x: String| is_dir.requires((x,)),
    ensures
        project_index(projects_view(cfg.projects@), project_id@) is None ==> (r matches Err(e) && e@
            == missing_project_msg(project_id@)),
        project_index(projects_view(cfg.projects@), project_id@) matches Some(i) ==> {
            let p = cfg.projects@[i];
            match item_index(items_view(p.items@), item_id@) {
                None => r matches Err(e) && e@ == "未找到启动项 "@ + item_id@,
                Some(k) => {
                    let it = p.items@[k]@;
                    &&& r matches Ok(panes) ==> panes@.len() == 1 && item_ready(*is_dir, p.root_dir@, it)
                        && panes@[0].title@ == it.name && panes@[0].work_dir@ == work_dir_spec(p.root_dir@, it.work_dir)
                        && panes@[0].command@ == it.command && panes@[0].shell == it.shell
                    &&& r matches Err(e) ==> item_refused(*is_dir, p.root_dir@, it, e@)
                },
            }
        },
{
    let i = match find_project(&cfg.projects, project_id) {
        None => {
            return Err(not_found("未找到项目 ", project_id));
        },
        Some(i) => i,
    };
    let p = &cfg.projects[i];
    assert(projects_view(cfg.projects@)[i as int] == p@);
    let k = match find_item(&p.items, item_id) {
        None => {
            return Err(not_found("未找到启动项 ", item_id));
        },
        Some(k) => k,
    };
    assert(items_view(p.items@)[k as int] == p.items@[k as int]@);
    let one = vec![crate::config::copy_item(&p.items[k])];
    let r = build_panes(is_dir, p, &one);
    proof {
        assert(one@[0]@ == p.items@[k as int]@);
    }
    r
}

/// The label of a launch in an environment: the project and the branch.
pub open spec fn env_label(name: Seq<char>, branch: Seq<char>) -> Seq<char> {
    name + " · "@ + trim(branch)
}

pub open spec fn no_env_msg(name: Seq<char>) -> Seq<char> {
    "项目「"@ + name + "」未启用按任务环境"@
}

/// The panes for launching all of a project's items in the environment of
/// `branch`: relative directories resolved in that work tree, with the
/// environment's variables (its port lease, its path and branch). `git` runs
/// git in the project's repository.
pub fn worktree_panes<F: Fn(Vec<String>) -> Result<String, String>, D: Fn(String) -> bool>(
    git: &F,
    is_dir: &D,
    cfg: &AppConfig,
    project_id: &str,
    branch: &str,
) -> (r: Result<(String, Vec<PaneSpec>), String>)
    requires
        crate::runner::callable(*git),
        forall|x: String| is_dir.requires((x,)),
    ensures
        project_index(projects_view(cfg.projects@), project_id@) is None ==> (r matches Err(e) && e@
            == missing_project_msg(project_id@)),
        project_index(projects_view(cfg.projects@), project_id@) matches Some(i) ==> {
            let p = cfg.projects@[i];
            &&& p.worktree is None ==> (r matches Err(e) && e@ == no_env_msg(p.name@))
            &&& p.worktree is Some ==> (project_dir_spec(projects_view(cfg.projects@), project_id@) matches Err(m) ==> (
            r matches Err(e) && e@ == m))
            &&& r matches Ok(out) ==> {
                &&& p.worktree matches Some(w)
                &&& out.0@ == env_label(p.name@, branch@)
                &&& exists|o: Seq<char>|
                    #[trigger] crate::runner::ran(*git, crate::worktree::list_args(), Ok(o))
                        && crate::worktree::resolve_worktree_spec(crate::worktree::parse_worktree_list_spec(o), branch@)
                        is Ok && {
                        let dir = crate::worktree::resolve_worktree_spec(crate::worktree::parse_worktree_list_spec(o), branch@)->Ok_0;
                        out.1@.len() == p.items@.len() && forall|k: int|
                        0 <= k < p.items@.len() ==> {
                            &&& item_ready(*is_dir, dir, p.items@[k]@)
                            &&& (#[trigger] out.1@[k]).work_dir@ == work_dir_spec(dir, opt_str(p.items@[k].work_dir))
                            &&& out.1@[k].command@ == p.items@[k].command@
                            &&& pairs_view(out.1@[k].env@) == crate::worktree::pane_env_pairs(w@, branch@, dir)
                        }
                    }
            }
        },
{
    let i = match find_project(&cfg.projects, project_id) {
        None => {
            return Err(not_found("未找到项目 ", project_id));
        },
        Some(i) => i,
    };
    let p = &cfg.projects[i];
    assert(projects_view(cfg.projects@)[i as int] == p@);
    let settings = match &p.worktree {
        None => {
            let mut m = chars_of("项目「");
            extend_chars(&mut m, &chars_of(p.name.as_str()));
            extend_chars(&mut m, &chars_of("」未启用按任务环境"));
            return Err(string_of(&m));
        },
        Some(w) => w,
    };
    let _repo = project_dir(cfg, project_id)?;
    let list = crate::worktree::list(git)?;
    let ghost o = choose|o: Seq<char>|
        #[trigger] crate::runner::ran(*git, crate::worktree::list_args(), Ok(o)) && crate::worktree::infos_view(list@)
            == crate::worktree::parse_worktree_list_spec(o);
    let dir = crate::worktree::resolve_worktree_path(&list, branch)?;
    let env = crate::worktree::pane_env(settings, branch, dir.as_str())?;
    let panes = build_panes_in(is_dir, &p.items, dir.as_str(), &env)?;
    let mut label = chars_of(p.name.as_str());
    extend_chars(&mut label, &chars_of(" · "));
    extend_chars(&mut label, &trimmed_chars(branch));
    let out = (string_of(&label), panes);
    assert(crate::runner::ran(*git, crate::worktree::list_args(), Ok(o)));
    Ok(out)
}

fn trimmed_chars(s: &str) -> (r: Vec<char>)
    ensures
        r@ == trim(s@),
{
    crate::text::trimmed(&chars_of(s))
}

} // verus!
