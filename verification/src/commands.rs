//! The rules behind the window's commands: checking a configuration before it
//! is saved, finding a project, recording a launch, comparing paths.

use vstd::prelude::*;
use crate::config::{
    copy_project, copy_string, opt_str, projects_view, AppConfig, ItemV, Project, ProjectTemplate, ProjectV,
};
use crate::detect::{copy_suggestions, DetectResult, ScannedRepo, Suggestion};
use crate::text::{blank, chars_of, extend_chars, is_blank, lower, lower_char, owned, replace_char, string_of, to_lower_char, trim, vec_eq};
use crate::config::trim_seps;
use crate::config::strs;
use crate::detect::dir_entries_view;
use crate::text::{sort_strs, sorted_strs};

verus! {

/// A repository found by a workspace scan, marked when already a project.
#[derive(Debug)]
pub struct DetectedProject {
    pub name: String,
    pub root_dir: String,
    pub already_imported: bool,
    pub ecosystems: Vec<String>,
    pub suggestions: Vec<Suggestion>,
}

/// The git executable the settings name, and the one actually found.
#[derive(Debug)]
pub struct GitInfo {
    pub configured: Option<String>,
    pub resolved: Option<String>,
}

/// The first problem with the items of project `name`, in order: a blank id,
/// or an id already used by an earlier item.
pub open spec fn items_problem(name: Seq<char>, items: Seq<ItemV>) -> Option<Seq<char>>
    decreases items.len(),
{
    if items.len() == 0 {
        None
    } else {
        match items_problem(name, items.drop_last()) {
            Some(e) => Some(e),
            None => {
                let it = items.last();
                if is_blank(it.id) {
                    Some("项目「"@ + name + "」存在缺少 ID 的启动项"@)
                } else if exists|j: int| 0 <= j < items.len() - 1 && #[trigger] items[j].id == it.id {
                    Some("项目「"@ + name + "」的启动项 ID 重复，请重新导入该启动项"@)
                } else {
                    None
                }
            },
        }
    }
}

/// The first problem with the projects, in order: a blank id, an id already
/// used by an earlier project, or a problem with its items.
pub open spec fn config_problem(ps: Seq<ProjectV>) -> Option<Seq<char>>
    decreases ps.len(),
{
    if ps.len() == 0 {
        None
    } else {
        match config_problem(ps.drop_last()) {
            Some(e) => Some(e),
            None => {
                let p = ps.last();
                if is_blank(p.id) {
                    Some("项目「"@ + p.name + "」缺少 ID，请重新创建该项目"@)
                } else if exists|j: int| 0 <= j < ps.len() - 1 && #[trigger] ps[j].id == p.id {
                    Some("项目 ID 重复："@ + p.id)
                } else {
                    items_problem(p.name, p.items)
                }
            },
        }
    }
}

/// Ids of the items: none blank, no two alike.
pub open spec fn item_ids_ok(items: Seq<ItemV>) -> bool {
    &&& forall|i: int| 0 <= i < items.len() ==> !is_blank(#[trigger] items[i].id)
    &&& forall|i: int, j: int| 0 <= i < j < items.len() ==> items[i].id != items[j].id
}

/// Ids of the projects, and of each project's items: none blank, no two alike.
pub open spec fn config_ids_ok(ps: Seq<ProjectV>) -> bool {
    &&& forall|i: int| 0 <= i < ps.len() ==> !is_blank(#[trigger] ps[i].id)
    &&& forall|i: int, j: int| 0 <= i < j < ps.len() ==> ps[i].id != ps[j].id
    &&& forall|i: int| 0 <= i < ps.len() ==> item_ids_ok(#[trigger] ps[i].items)
}

proof fn lemma_items_ok_iff(name: Seq<char>, items: Seq<ItemV>)
    ensures
        items_problem(name, items) is None <==> item_ids_ok(items),
    decreases items.len(),
{
    if items.len() > 0 {
        let prev = items.drop_last();
        lemma_items_ok_iff(name, prev);
        let n = items.len() - 1;
        if item_ids_ok(items) {
            assert(item_ids_ok(prev)) by {
                assert forall|i: int, j: int| 0 <= i < j < prev.len() implies prev[i].id != prev[j].id by {
                    assert(items[i].id != items[j].id);
                }
                assert forall|i: int| 0 <= i < prev.len() implies !is_blank(#[trigger] prev[i].id) by {
                    assert(!is_blank(items[i].id));
                }
            }
            assert(!is_blank(items[n].id));
            assert(!(exists|j: int| 0 <= j < items.len() - 1 && #[trigger] items[j].id == items.last().id)) by {
                if exists|j: int| 0 <= j < items.len() - 1 && #[trigger] items[j].id == items.last().id {
                    let j = choose|j: int| 0 <= j < items.len() - 1 && #[trigger] items[j].id == items.last().id;
                    assert(items[j].id != items[n].id);
                }
            }
        }
        if items_problem(name, items) is None {
            assert forall|i: int, j: int| 0 <= i < j < items.len() implies items[i].id != items[j].id by {
                if j < n {
                    assert(prev[i].id != prev[j].id);
                } else {
                    assert(items[i].id != items.last().id) by {
                        if items[i].id == items.last().id {
                            assert(0 <= i < items.len() - 1 && items[i].id == items.last().id);
                        }
                    }
                }
            }
            assert forall|i: int| 0 <= i < items.len() implies !is_blank(#[trigger] items[i].id) by {
                if i < n {
                    assert(!is_blank(prev[i].id));
                }
            }
        }
    }
}

/// A configuration passes validation exactly when every project id, and
/// every item id within a project, is non-blank and used once.
pub proof fn lemma_valid_config_iff_ids_ok(ps: Seq<ProjectV>)
    ensures
        config_problem(ps) is None <==> config_ids_ok(ps),
    decreases ps.len(),
{
    if ps.len() > 0 {
        let prev = ps.drop_last();
        lemma_valid_config_iff_ids_ok(prev);
        let n = ps.len() - 1;
        lemma_items_ok_iff(ps[n].name, ps[n].items);
        if config_ids_ok(ps) {
            assert(config_ids_ok(prev)) by {
                assert forall|i: int, j: int| 0 <= i < j < prev.len() implies prev[i].id != prev[j].id by {
                    assert(ps[i].id != ps[j].id);
                }
                assert forall|i: int| 0 <= i < prev.len() implies !is_blank(#[trigger] prev[i].id) by {
                    assert(!is_blank(ps[i].id));
                }
                assert forall|i: int| 0 <= i < prev.len() implies item_ids_ok(#[trigger] prev[i].items) by {
                    assert(item_ids_ok(ps[i].items));
                }
            }
            assert(!is_blank(ps[n].id));
            assert(item_ids_ok(ps[n].items));
            assert(!(exists|j: int| 0 <= j < ps.len() - 1 && #[trigger] ps[j].id == ps.last().id)) by {
                if exists|j: int| 0 <= j < ps.len() - 1 && #[trigger] ps[j].id == ps.last().id {
                    let j = choose|j: int| 0 <= j < ps.len() - 1 && #[trigger] ps[j].id == ps.last().id;
                    assert(ps[j].id != ps[n].id);
                }
            }
        }
        if config_problem(ps) is None {
            assert forall|i: int, j: int| 0 <= i < j < ps.len() implies ps[i].id != ps[j].id by {
                if j < n {
                    assert(prev[i].id != prev[j].id);
                } else {
                    assert(ps[i].id != ps.last().id) by {
                        if ps[i].id == ps.last().id {
                            assert(0 <= i < ps.len() - 1 && ps[i].id == ps.last().id);
                        }
                    }
                }
            }
            assert forall|i: int| 0 <= i < ps.len() implies !is_blank(#[trigger] ps[i].id) by {
                if i < n {
                    assert(!is_blank(prev[i].id));
                }
            }
            assert forall|i: int| 0 <= i < ps.len() implies item_ids_ok(#[trigger] ps[i].items) by {
                if i < n {
                    assert(item_ids_ok(prev[i].items));
                }
            }
        }
    }
}

proof fn lemma_items_problem_prefix(name: Seq<char>, s: Seq<ItemV>, j: int)
    requires
        0 <= j <= s.len(),
        items_problem(name, s.take(j)) is Some,
    ensures
        items_problem(name, s) == items_problem(name, s.take(j)),
    decreases s.len() - j,
{
    if j < s.len() {
        assert(s.drop_last().take(j) == s.take(j));
        lemma_items_problem_prefix(name, s.drop_last(), j);
    } else {
        assert(s.take(j) == s);
    }
}

proof fn lemma_config_problem_prefix(s: Seq<ProjectV>, j: int)
    requires
        0 <= j <= s.len(),
        config_problem(s.take(j)) is Some,
    ensures
        config_problem(s) == config_problem(s.take(j)),
    decreases s.len() - j,
{
    if j < s.len() {
        assert(s.drop_last().take(j) == s.take(j));
        lemma_config_problem_prefix(s.drop_last(), j);
    } else {
        assert(s.take(j) == s);
    }
}

fn items_check(p: &Project) -> (r: Result<(), String>)
    ensures
        match items_problem(p.name@, p@.items) {
            Some(e) => r matches Err(m) && m@ == e,
            None => r is Ok,
        },
{
    let ghost iv = p@.items;
    let n = p.items.len();
    for i in 0..n
        invariant
            n == p.items@.len(),
            iv == p@.items,
            iv.len() == n,
            items_problem(p.name@, iv.take(i as int)) is None,
    {
        let ghost t = iv.take(i + 1);
        assert(t.drop_last() == iv.take(i as int));
        assert(t.last() == p.items@[i as int]@);
        let id = chars_of(p.items[i].id.as_str());
        if blank(&id) {
            proof {
                lemma_items_problem_prefix(p.name@, iv, i + 1);
            }
            let mut m = chars_of("项目「");
            extend_chars(&mut m, &chars_of(p.name.as_str()));
            extend_chars(&mut m, &chars_of("」存在缺少 ID 的启动项"));
            return Err(string_of(&m));
        }
        let mut dup = false;
        for j in 0..i
            invariant
                i < n,
                n == p.items@.len(),
                iv == p@.items,
                t == iv.take(i + 1),
                id@ == p.items@[i as int].id@,
                t.len() == i + 1,
                t.last().id == id@,
                dup == (exists|q: int| 0 <= q < j && #[trigger] t[q].id == t.last().id),
        {
            assert(t[j as int] == p.items@[j as int]@);
            if vec_eq(&chars_of(p.items[j].id.as_str()), &id) {
                assert(t[j as int].id == t.last().id);
                dup = true;
            } else {
                assert(t[j as int].id != t.last().id);
            }
        }
        if dup {
            proof {
                lemma_items_problem_prefix(p.name@, iv, i + 1);
            }
            let mut m = chars_of("项目「");
            extend_chars(&mut m, &chars_of(p.name.as_str()));
            extend_chars(&mut m, &chars_of("」的启动项 ID 重复，请重新导入该启动项"));
            return Err(string_of(&m));
        }
    }
    assert(iv.take(n as int) == iv);
    Ok(())
}

/// Refuses a configuration in which a project or a start item lacks an id, or
/// an id is used twice (among projects, or among one project's items).
pub fn validate_config(cfg: &AppConfig) -> (r: Result<(), String>)
    ensures
        match config_problem(projects_view(cfg.projects@)) {
            Some(e) => r matches Err(m) && m@ == e,
            None => r is Ok,
        },
{
    let ghost pv = projects_view(cfg.projects@);
    let n = cfg.projects.len();
    for i in 0..n
        invariant
            n == cfg.projects@.len(),
            pv == projects_view(cfg.projects@),
            config_problem(pv.take(i as int)) is None,
    {
        let ghost t = pv.take(i + 1);
        assert(t.drop_last() == pv.take(i as int));
        assert(t.last() == cfg.projects@[i as int]@);
        let p = &cfg.projects[i];
        let id = chars_of(p.id.as_str());
        if blank(&id) {
            proof {
                lemma_config_problem_prefix(pv, i + 1);
            }
            let mut m = chars_of("项目「");
            extend_chars(&mut m, &chars_of(p.name.as_str()));
            extend_chars(&mut m, &chars_of("」缺少 ID，请重新创建该项目"));
            return Err(string_of(&m));
        }
        let mut dup = false;
        for j in 0..i
            invariant
                i < n,
                n == cfg.projects@.len(),
                pv == projects_view(cfg.projects@),
                t == pv.take(i + 1),
                id@ == cfg.projects@[i as int].id@,
                t.len() == i + 1,
                t.last().id == id@,
                dup == (exists|q: int| 0 <= q < j && #[trigger] t[q].id == t.last().id),
        {
            assert(t[j as int] == cfg.projects@[j as int]@);
            if vec_eq(&chars_of(cfg.projects[j].id.as_str()), &id) {
                assert(t[j as int].id == t.last().id);
                dup = true;
            } else {
                assert(t[j as int].id != t.last().id);
            }
        }
        if dup {
            proof {
                lemma_config_problem_prefix(pv, i + 1);
            }
            let mut m = chars_of("项目 ID 重复：");
            extend_chars(&mut m, &id);
            return Err(string_of(&m));
        }
        match items_check(p) {
            Err(e) => {
                proof {
                    lemma_config_problem_prefix(pv, i + 1);
                }
                return Err(e);
            },
            Ok(()) => {},
        }
    }
    assert(pv.take(n as int) == pv);
    Ok(())
}

/// Index of the first project with id `id`.
pub open spec fn project_index(ps: Seq<ProjectV>, id: Seq<char>) -> Option<int>
    decreases ps.len(),
{
    if ps.len() == 0 {
        None
    } else {
        match project_index(ps.drop_last(), id) {
            Some(i) => Some(i),
            None => if ps.last().id == id {
                Some(ps.len() - 1)
            } else {
                None
            },
        }
    }
}

proof fn lemma_project_index_prefix(s: Seq<ProjectV>, id: Seq<char>, j: int)
    requires
        0 <= j <= s.len(),
        project_index(s.take(j), id) is Some,
    ensures
        project_index(s, id) == project_index(s.take(j), id),
    decreases s.len() - j,
{
    if j < s.len() {
        assert(s.drop_last().take(j) == s.take(j));
        lemma_project_index_prefix(s.drop_last(), id, j);
    } else {
        assert(s.take(j) == s);
    }
}

proof fn lemma_project_index_bounds(s: Seq<ProjectV>, id: Seq<char>)
    ensures
        project_index(s, id) matches Some(i) ==> 0 <= i < s.len() && s[i].id == id,
    decreases s.len(),
{
    if s.len() > 0 {
        lemma_project_index_bounds(s.drop_last(), id);
    }
}

/// Position of the first project with id `id`.
pub fn find_project(projects: &Vec<Project>, id: &str) -> (r: Option<usize>)
    ensures
        r matches Some(i) ==> i < projects@.len() && project_index(projects_view(projects@), id@) == Some(i as int),
        r is None <==> project_index(projects_view(projects@), id@) is None,
{
    let ghost pv = projects_view(projects@);
    let idc = chars_of(id);
    let n = projects.len();
    for i in 0..n
        invariant
            n == projects@.len(),
            pv == projects_view(projects@),
            idc@ == id@,
            project_index(pv.take(i as int), id@) is None,
    {
        assert(pv.take(i + 1).drop_last() == pv.take(i as int));
        assert(pv.take(i + 1).last() == projects@[i as int]@);
        if vec_eq(&chars_of(projects[i].id.as_str()), &idc) {
            proof {
                lemma_project_index_prefix(pv, id@, i + 1);
            }
            return Some(i);
        }
    }
    assert(pv.take(n as int) == pv);
    None
}

/// The one way a configuration is replaced: it is checked first, then saved
/// through `save`, and only a successful save makes it the configuration in
/// memory, so that memory and disk never part.
pub fn apply_config<S: Fn(&AppConfig) -> Result<(), String>>(current: &mut AppConfig, config: AppConfig, save: &S) -> (r:
    Result<(), String>)
    requires
        forall|c: &AppConfig| save.requires((c,)),
    ensures
        match config_problem(projects_view(config.projects@)) {
            Some(e) => r matches Err(m) && m@ == e && *final(current) == *old(current),
            None => exists|o: Result<(), String>|
                #[trigger] save.ensures((&config,), o) && r == o && (o is Ok ==> *final(current) == config) && (o is Err
                    ==> *final(current) == *old(current)),
        },
{
    validate_config(&config)?;
    let o = save(&config);
    assert(save.ensures((&config,), o));
    if o.is_ok() {
        *current = config;
    }
    o
}

/// Records the launch time on the project with id `project_id`; nothing else
/// changes. Answers whether such a project exists.
pub fn touch_last_launched(cfg: &mut AppConfig, project_id: &str, ts: u64) -> (r: bool)
    ensures
        final(cfg).version == old(cfg).version,
        final(cfg).settings@ == old(cfg).settings@,
        match project_index(projects_view(old(cfg).projects@), project_id@) {
            Some(i) => r && projects_view(final(cfg).projects@) == projects_view(old(cfg).projects@).update(
                i,
                ProjectV { last_launched_at: Some(ts), ..projects_view(old(cfg).projects@)[i] },
            ),
            None => !r && projects_view(final(cfg).projects@) == projects_view(old(cfg).projects@),
        },
{
    let ghost pv = projects_view(cfg.projects@);
    match find_project(&cfg.projects, project_id) {
        Some(i) => {
            let mut p = copy_project(&cfg.projects[i]);
            p.last_launched_at = Some(ts);
            let ghost p2 = p@;
            cfg.projects.set(i, p);
            assert(projects_view(cfg.projects@) =~= pv.update(i as int, p2));
            true
        },
        None => false,
    }
}

pub open spec fn project_dir_spec(ps: Seq<ProjectV>, id: Seq<char>) -> Result<Seq<char>, Seq<char>> {
    match project_index(ps, id) {
        None => Err("项目不存在："@ + id),
        Some(i) => if is_blank(ps[i].root_dir) {
            Err("项目未设置根目录"@)
        } else {
            Ok(ps[i].root_dir)
        },
    }
}

/// The root directory of the project with id `project_id`.
pub fn project_dir(cfg: &AppConfig, project_id: &str) -> (r: Result<String, String>)
    ensures
        crate::runner::str_result(r) == project_dir_spec(projects_view(cfg.projects@), project_id@),
{
    match find_project(&cfg.projects, project_id) {
        None => {
            let mut m = chars_of("项目不存在：");
            extend_chars(&mut m, &chars_of(project_id));
            Err(string_of(&m))
        },
        Some(i) => {
            assert(projects_view(cfg.projects@)[i as int] == cfg.projects@[i as int]@);
            if blank(&chars_of(cfg.projects[i].root_dir.as_str())) {
                Err(owned("项目未设置根目录"))
            } else {
                Ok(copy_string(&cfg.projects[i].root_dir))
            }
        },
    }
}

/// A Windows path for comparison: no trailing separators, `\` throughout,
/// ASCII letters in lower case.
pub open spec fn compare_key(path: Seq<char>) -> Seq<char> {
    lower(replace_char(trim_seps(path), '/', '\\'))
}

pub fn normalize_for_compare(path: &str) -> (r: String)
    ensures
        r@ == compare_key(path@),
{
    let s = chars_of(path);
    let mut k: usize = s.len();
    assert(s@.take(k as int) == s@);
    while k > 0 && (s[k - 1] == '\\' || s[k - 1] == '/')
        invariant
            k <= s@.len(),
            trim_seps(s@) == trim_seps(s@.take(k as int)),
        decreases k,
    {
        assert(s@.take(k as int).drop_last() == s@.take(k - 1));
        k = k - 1;
    }
    let mut out: Vec<char> = Vec::new();
    for i in 0..k
        invariant
            k <= s@.len(),
            out@ == lower(replace_char(s@.take(k as int), '/', '\\')).take(i as int),
    {
        let c = s[i];
        let d = if c == '/' { '\\' } else { c };
        out.push(to_lower_char(d));
        assert(out@ =~= lower(replace_char(s@.take(k as int), '/', '\\')).take(i + 1));
    }
    assert(lower(replace_char(s@.take(k as int), '/', '\\')).take(k as int) =~= lower(
        replace_char(s@.take(k as int), '/', '\\'),
    ));
    string_of(&out)
}

/// Writes the template of the project with id `project_id` through `save`.
pub fn export_project_to<S: Fn(ProjectTemplate) -> Result<(), String>>(
    save: &S,
    cfg: &AppConfig,
    project_id: &str,
) -> (r: Result<(), String>)
    requires
        forall|t: ProjectTemplate| save.requires((t,)),
    ensures
        project_index(projects_view(cfg.projects@), project_id@) is None ==> (r matches Err(e) && e@ == "项目不存在："@
            + project_id@),
        project_index(projects_view(cfg.projects@), project_id@) matches Some(i) ==> exists|t: ProjectTemplate|
            #[trigger] save.ensures((t,), r) && t.version == crate::config::TEMPLATE_VERSION && t.name@
                == cfg.projects@[i].name@ && crate::config::items_view(t.items@) == crate::config::items_view(
                cfg.projects@[i].items@,
            ),
{
    match find_project(&cfg.projects, project_id) {
        None => {
            let mut m = chars_of("项目不存在：");
            extend_chars(&mut m, &chars_of(project_id));
            Err(string_of(&m))
        },
        Some(i) => {
            let t = ProjectTemplate::from_project(&cfg.projects[i]);
            let ghost tg = t;
            let r = save(t);
            assert(save.ensures((tg,), r));
            r
        },
    }
}

/// Scans `path` for repositories (through `scan`) and marks those whose root is
/// already a project's, compared as Windows paths.
pub fn scan_with_config<D: Fn(String) -> bool, S: Fn(String) -> Vec<ScannedRepo>>(
    is_dir: &D,
    scan: &S,
    path: &str,
    cfg: &AppConfig,
) -> (r: Result<Vec<DetectedProject>, String>)
    requires
        forall|x: String| is_dir.requires((x,)),
        forall|x: String| scan.requires((x,)),
    ensures
        r matches Err(e) ==> e@ == "目录不存在："@ + path@ && exists|x: String| x@ == path@ && #[trigger] is_dir.ensures((x,), false),
        r matches Ok(v) ==> exists|x: String, repos: Vec<ScannedRepo>|
            x@ == path@ && #[trigger] scan.ensures((x,), repos) && v@.len() == repos@.len() && forall|i: int|
                0 <= i < repos@.len() ==> {
                    &&& (#[trigger] v@[i]).name@ == repos@[i].name@
                    &&& v@[i].root_dir@ == repos@[i].root_dir@
                    &&& v@[i].already_imported == exists|k: int|
                        0 <= k < cfg.projects@.len() && compare_key(#[trigger] cfg.projects@[k].root_dir@)
                            == compare_key(repos@[i].root_dir@)
                    &&& crate::config::strs(v@[i].ecosystems@) == crate::config::strs(repos@[i].ecosystems@)
                    &&& crate::detect::suggestions_view(v@[i].suggestions@) == crate::detect::suggestions_view(
                        repos@[i].suggestions@,
                    )
                },
{
    let px = owned(path);
    let ghost pg = px;
    let ok = is_dir(px);
    assert(is_dir.ensures((pg,), ok));
    if !ok {
        let mut m = chars_of("目录不存在：");
        extend_chars(&mut m, &chars_of(path));
        return Err(string_of(&m));
    }
    let mut existing: Vec<Vec<char>> = Vec::new();
    let n = cfg.projects.len();
    for k in 0..n
        invariant
            n == cfg.projects@.len(),
            existing@.len() == k,
            forall|q: int| 0 <= q < k ==> (#[trigger] existing@[q])@ == compare_key(cfg.projects@[q].root_dir@),
    {
        let key = chars_of(normalize_for_compare(cfg.projects[k].root_dir.as_str()).as_str());
        existing.push(key);
    }
    let sx = owned(path);
    let ghost sg = sx;
    let repos = scan(sx);
    assert(scan.ensures((sg,), repos));
    let mut out: Vec<DetectedProject> = Vec::new();
    let m = repos.len();
    for i in 0..m
        invariant
            m == repos@.len(),
            n == cfg.projects@.len(),
            existing@.len() == n,
            forall|q: int| 0 <= q < n ==> (#[trigger] existing@[q])@ == compare_key(cfg.projects@[q].root_dir@),
            out@.len() == i,
            forall|j: int|
                0 <= j < i ==> {
                    &&& (#[trigger] out@[j]).name@ == repos@[j].name@
                    &&& out@[j].root_dir@ == repos@[j].root_dir@
                    &&& out@[j].already_imported == exists|k: int|
                        0 <= k < cfg.projects@.len() && compare_key(#[trigger] cfg.projects@[k].root_dir@)
                            == compare_key(repos@[j].root_dir@)
                    &&& crate::config::strs(out@[j].ecosystems@) == crate::config::strs(repos@[j].ecosystems@)
                    &&& crate::detect::suggestions_view(out@[j].suggestions@) == crate::detect::suggestions_view(
                        repos@[j].suggestions@,
                    )
                },
    {
        let r = &repos[i];
        let key = chars_of(normalize_for_compare(r.root_dir.as_str()).as_str());
        let mut hit = false;
        for k in 0..n
            invariant
                n == cfg.projects@.len(),
                existing@.len() == n,
                forall|q: int| 0 <= q < n ==> (#[trigger] existing@[q])@ == compare_key(cfg.projects@[q].root_dir@),
                key@ == compare_key(r.root_dir@),
                hit == exists|q: int|
                    0 <= q < k && compare_key(#[trigger] cfg.projects@[q].root_dir@) == compare_key(r.root_dir@),
        {
            assert(existing@[k as int]@ == compare_key(cfg.projects@[k as int].root_dir@));
            if vec_eq(&existing[k], &key) {
                hit = true;
            }
        }
        let d = DetectedProject {
            name: copy_string(&r.name),
            root_dir: copy_string(&r.root_dir),
            already_imported: hit,
            ecosystems: crate::config::copy_strings(&r.ecosystems),
            suggestions: copy_suggestions(&r.suggestions),
        };
        out.push(d);
    }
    Ok(out)
}

/// `detect` was asked about `path` and answered `d`.
pub open spec fn detected<T: Fn(String) -> DetectResult>(detect: T, path: Seq<char>, d: DetectResult) -> bool {
    exists|x: String| x@ == path && #[trigger] detect.ensures((x,), d)
}

/// What `detect` finds in `path`, or an error when it is not a directory.
pub fn detect_dir<D: Fn(String) -> bool, T: Fn(String) -> DetectResult>(
    is_dir: &D,
    detect: &T,
    path: &str,
) -> (r: Result<DetectResult, String>)
    requires
        forall|x: String| is_dir.requires((x,)),
        forall|x: String| detect.requires((x,)),
    ensures
        r matches Err(e) ==> e@ == "目录不存在："@ + path@ && exists|x: String| x@ == path@ && #[trigger] is_dir.ensures((x,), false),
        r matches Ok(d) ==> detected(*detect, path@, d),
{
    let px = owned(path);
    let ghost pg = px;
    let ok = is_dir(px);
    assert(is_dir.ensures((pg,), ok));
    if !ok {
        let mut m = chars_of("目录不存在：");
        extend_chars(&mut m, &chars_of(path));
        return Err(string_of(&m));
    }
    let dx = owned(path);
    let ghost dg = dx;
    let d = detect(dx);
    assert(detect.ensures((dg,), d));
    assert(detected(*detect, path@, d));
    Ok(d)
}

/// The names of the directories among `entries` (name, is a directory), in
/// listing order.
pub open spec fn dir_names_fold(es: Seq<(Seq<char>, bool)>) -> Seq<Seq<char>>
    decreases es.len(),
{
    if es.len() == 0 {
        seq![]
    } else if es.last().1 {
        dir_names_fold(es.drop_last()).push(es.last().0)
    } else {
        dir_names_fold(es.drop_last())
    }
}

/// The subdirectories of a listed directory, sorted by name.
pub fn subdir_names(entries: &Vec<(String, bool)>) -> (r: Vec<String>)
    ensures
        strs(r@) == sorted_strs(dir_names_fold(dir_entries_view(entries@))),
{
    let ghost ev = dir_entries_view(entries@);
    let mut names: Vec<Vec<char>> = Vec::new();
    for i in 0..entries.len()
        invariant
            ev == dir_entries_view(entries@),
            names@.map_values(|x: Vec<char>| x@) == dir_names_fold(ev.take(i as int)),
    {
        assert(ev.take(i + 1).drop_last() == ev.take(i as int));
        assert(ev.take(i + 1).last() == (entries@[i as int].0@, entries@[i as int].1));
        if entries[i].1 {
            let ghost before = names@.map_values(|x: Vec<char>| x@);
            let n = chars_of(entries[i].0.as_str());
            let ghost nv = n@;
            names.push(n);
            assert(names@.map_values(|x: Vec<char>| x@) =~= before.push(nv));
        }
    }
    assert(ev.take(entries@.len() as int) == ev);
    let sorted = sort_strs(names);
    let mut out: Vec<String> = Vec::new();
    for i in 0..sorted.len()
        invariant
            strs(out@) == sorted@.take(i as int).map_values(|x: Vec<char>| x@),
    {
        let ghost before = strs(out@);
        out.push(string_of(&sorted[i]));
        assert(strs(out@) =~= before.push(sorted@[i as int]@));
        assert(sorted@.take(i + 1).map_values(|x: Vec<char>| x@) =~= sorted@.take(i as int).map_values(
            |x: Vec<char>| x@,
        ).push(sorted@[i as int]@));
    }
    assert(sorted@.take(sorted@.len() as int) == sorted@);
    out
}

} // verus!
