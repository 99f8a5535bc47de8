//! Guessing start items from what a directory holds.

use vstd::prelude::*;
use crate::config::{copy_opt_string, copy_string, opt_str, strs, Shell};
use crate::paths::{join_raw, join_raw_chars};
use crate::text::{
    chars_of, extend_chars, has_prefix, lines, lines_of, owned, sort_strs, sorted_strs, string_of, trim, trimmed,
    vec_eq,
};
use crate::worktree::answered;

verus! {

pub const MAX_FILE_BYTES: u64 = 1048576;

pub const MAX_TOTAL_SUGGESTIONS: usize = 8;

pub const MAX_VISITED_DIRS: usize = 2000;

pub const MAX_SCAN_RESULTS: usize = 200;

/// A start item proposed for a project.
#[derive(Debug)]
pub struct Suggestion {
    pub name: String,
    pub work_dir: Option<String>,
    pub shell: Shell,
    pub command: String,
    pub ecosystem: String,
}

pub struct SuggestionV {
    pub name: Seq<char>,
    pub work_dir: Option<Seq<char>>,
    pub shell: Shell,
    pub command: Seq<char>,
    pub ecosystem: Seq<char>,
}

impl View for Suggestion {
    type V = SuggestionV;

    open spec fn view(&self) -> SuggestionV {
        SuggestionV {
            name: self.name@,
            work_dir: opt_str(self.work_dir),
            shell: self.shell,
            command: self.command@,
            ecosystem: self.ecosystem@,
        }
    }
}

pub open spec fn suggestions_view(v: Seq<Suggestion>) -> Seq<SuggestionV> {
    v.map_values(|s: Suggestion| s@)
}

pub fn copy_suggestion(s: &Suggestion) -> (r: Suggestion)
    ensures
        r@ == s@,
{
    Suggestion {
        name: copy_string(&s.name),
        work_dir: copy_opt_string(&s.work_dir),
        shell: s.shell,
        command: copy_string(&s.command),
        ecosystem: copy_string(&s.ecosystem),
    }
}

pub fn copy_suggestions(v: &Vec<Suggestion>) -> (r: Vec<Suggestion>)
    ensures
        suggestions_view(r@) == suggestions_view(v@),
{
    let mut out: Vec<Suggestion> = Vec::new();
    for i in 0..v.len()
        invariant
            suggestions_view(out@) == suggestions_view(v@.take(i as int)),
    {
        let ghost ov = suggestions_view(out@);
        let s = copy_suggestion(&v[i]);
        let ghost sv = s@;
        out.push(s);
        assert(suggestions_view(out@) =~= ov.push(sv));
        assert(suggestions_view(v@.take(i + 1)) =~= suggestions_view(v@.take(i as int)).push(v@[i as int]@));
    }
    assert(v@.take(v@.len() as int) == v@);
    out
}

/// What was found in a directory.
#[derive(Debug)]
pub struct DetectResult {
    pub ecosystems: Vec<String>,
    pub suggestions: Vec<Suggestion>,
}

/// A repository found under a workspace directory.
#[derive(Debug)]
pub struct ScannedRepo {
    pub name: String,
    pub root_dir: String,
    pub ecosystems: Vec<String>,
    pub suggestions: Vec<Suggestion>,
}

/// The ecosystems of the suggestions, each once, in order of first appearance.
pub open spec fn unique_ecosystems_spec(s: Seq<SuggestionV>) -> Seq<Seq<char>>
    decreases s.len(),
{
    if s.len() == 0 {
        Seq::empty()
    } else {
        let prev = unique_ecosystems_spec(s.drop_last());
        if prev.contains(s.last().ecosystem) {
            prev
        } else {
            prev.push(s.last().ecosystem)
        }
    }
}

pub fn unique_ecosystems(suggestions: &Vec<Suggestion>) -> (r: Vec<String>)
    ensures
        strs(r@) == unique_ecosystems_spec(suggestions_view(suggestions@)),
{
    let ghost sv = suggestions_view(suggestions@);
    let mut out: Vec<String> = Vec::new();
    let n = suggestions.len();
    for i in 0..n
        invariant
            n == suggestions@.len(),
            sv == suggestions_view(suggestions@),
            strs(out@) == unique_ecosystems_spec(sv.take(i as int)),
    {
        assert(sv.take(i + 1).drop_last() == sv.take(i as int));
        assert(sv.take(i + 1).last() == suggestions@[i as int]@);
        let e = chars_of(suggestions[i].ecosystem.as_str());
        let ghost ov = strs(out@);
        let mut found = false;
        for k in 0..out.len()
            invariant
                ov == strs(out@),
                e@ == suggestions@[i as int].ecosystem@,
                found == (exists|q: int| 0 <= q < k && ov[q] == e@),
        {
            if vec_eq(&chars_of(out[k].as_str()), &e) {
                assert(ov[k as int] == e@);
                found = true;
            }
        }
        assert(found == ov.contains(e@));
        if !found {
            let s = copy_string(&suggestions[i].ecosystem);
            let ghost s2 = s@;
            out.push(s);
            assert(strs(out@) =~= ov.push(s2));
        }
    }
    assert(sv.take(n as int) == sv);
    out
}

/// An item's name: the subdirectory it lives in, else `fallback`.
pub fn item_name(subdir: Option<&str>, fallback: &str) -> (r: String)
    ensures
        r@ == match subdir {
            Some(d) => d@,
            None => fallback@,
        },
{
    match subdir {
        Some(d) => owned(d),
        None => owned(fallback),
    }
}

// ---------------------------------------------------------------------------
// Reading what a directory holds

/// `probe` may be asked about any path.
pub open spec fn ready<D: Fn(String) -> bool>(probe: D) -> bool {
    forall|x: String| probe.requires((x,))
}

fn ask<D: Fn(String) -> bool>(probe: &D, p: &Vec<char>) -> (r: bool)
    requires
        ready(*probe),
    ensures
        answered(*probe, p@, r),
{
    let s = string_of(p);
    let ghost sv = s;
    let r = probe(s);
    assert(probe.ensures((sv,), r));
    r
}

fn under(dir: &str, name: &str) -> (r: Vec<char>)
    ensures
        r@ == join_raw(dir@, name@),
{
    join_raw_chars(&chars_of(dir), &chars_of(name))
}

/// `size_of` gave `out` as the size of `p`.
pub open spec fn size_answer<Z: Fn(String) -> Option<u64>>(size_of: Z, p: Seq<char>, out: Option<u64>) -> bool {
    exists|x: String| x@ == p && #[trigger] size_of.ensures((x,), out)
}

/// `read` gave `out` as the text of `p`.
pub open spec fn read_answer<T: Fn(String) -> Option<String>>(read: T, p: Seq<char>, out: Option<Seq<char>>) -> bool {
    exists|x: String, o: Option<String>| #[trigger] read.ensures((x,), o) && x@ == p && opt_str(o) == out
}

/// Reading a small text file: nothing when its size is unknown or over
/// `MAX_FILE_BYTES`, else what reading it gave.
pub open spec fn text_outcome<Z: Fn(String) -> Option<u64>, T: Fn(String) -> Option<String>>(
    size_of: Z,
    read: T,
    p: Seq<char>,
    t: Option<Seq<char>>,
) -> bool {
    (size_answer(size_of, p, None) && t is None) || exists|z: u64|
        #[trigger] size_answer(size_of, p, Some(z)) && if z > MAX_FILE_BYTES {
            t is None
        } else {
            read_answer(read, p, t)
        }
}

/// The text of a file of at most `MAX_FILE_BYTES` bytes.
pub fn read_text<Z: Fn(String) -> Option<u64>, T: Fn(String) -> Option<String>>(size_of: &Z, read: &T, p: &Vec<char>) -> (r: Option<
    String,
>)
    requires
        forall|x: String| size_of.requires((x,)),
        forall|x: String| read.requires((x,)),
    ensures
        text_outcome(*size_of, *read, p@, opt_str(r)),
{
    let a = string_of(p);
    let ghost av = a;
    let z = size_of(a);
    assert(size_of.ensures((av,), z));
    match z {
        None => None,
        Some(n) => {
            assert(size_answer(*size_of, p@, Some(n)));
            if n > MAX_FILE_BYTES {
                return None;
            }
            let b = string_of(p);
            let ghost bv = b;
            let t = read(b);
            assert(read.ensures((bv,), t));
            assert(read_answer(*read, p@, opt_str(t)));
            t
        },
    }
}

/// What a filter of names gives: the directories among the entries that are
/// neither hidden (`.`) nor build or tool output, sorted.
pub open spec fn skip_dirs() -> Seq<Seq<char>> {
    seq![
        "node_modules"@,
        ".git"@,
        "target"@,
        "dist"@,
        "build"@,
        "out"@,
        "bin"@,
        "obj"@,
        ".venv"@,
        "venv"@,
        "__pycache__"@,
        ".idea"@,
        ".vscode"@,
        ".next"@,
    ]
}

pub open spec fn visible(name: Seq<char>, is_dir: bool) -> bool {
    is_dir && !(name.len() > 0 && name[0] == '.') && !skip_dirs().contains(name)
}

pub open spec fn visible_fold(es: Seq<(Seq<char>, bool)>) -> Seq<Seq<char>>
    decreases es.len(),
{
    if es.len() == 0 {
        seq![]
    } else {
        let prev = visible_fold(es.drop_last());
        if visible(es.last().0, es.last().1) {
            prev.push(es.last().0)
        } else {
            prev
        }
    }
}

pub open spec fn dir_entries_view(es: Seq<(String, bool)>) -> Seq<(Seq<char>, bool)> {
    es.map_values(|e: (String, bool)| (e.0@, e.1))
}

fn skipped_name(n: &Vec<char>) -> (r: bool)
    ensures
        r == skip_dirs().contains(n@),
{
    let names = [
        "node_modules",
        ".git",
        "target",
        "dist",
        "build",
        "out",
        "bin",
        "obj",
        ".venv",
        "venv",
        "__pycache__",
        ".idea",
        ".vscode",
        ".next",
    ];
    let ghost sd = skip_dirs();
    assert(names@.map_values(|x: &str| x@) =~= sd);
    for i in 0..names.len()
        invariant
            sd == skip_dirs(),
            names@.map_values(|x: &str| x@) == sd,
            names@.len() == sd.len(),
            forall|k: int| 0 <= k < i ==> sd[k] != n@,
    {
        assert(sd[i as int] == names@.map_values(|x: &str| x@)[i as int]);
        if vec_eq(n, &chars_of(names[i])) {
            assert(sd[i as int] == n@);
            assert(sd.contains(n@));
            return true;
        }
    }
    false
}

/// The visible subdirectories among directory entries (name, is a directory
/// without following links), sorted by name.
pub fn visible_subdir_names(entries: &Vec<(String, bool)>) -> (r: Vec<String>)
    ensures
        strs(r@) == sorted_strs(visible_fold(dir_entries_view(entries@))),
{
    let ghost ev = dir_entries_view(entries@);
    let mut names: Vec<Vec<char>> = Vec::new();
    for i in 0..entries.len()
        invariant
            ev == dir_entries_view(entries@),
            names@.map_values(|x: Vec<char>| x@) == visible_fold(ev.take(i as int)),
    {
        assert(ev.take(i + 1).drop_last() == ev.take(i as int));
        assert(ev.take(i + 1).last() == (entries@[i as int].0@, entries@[i as int].1));
        let n = chars_of(entries[i].0.as_str());
        let hidden = n.len() > 0 && n[0] == '.';
        if entries[i].1 && !hidden && !skipped_name(&n) {
            let ghost before = names@.map_values(|x: Vec<char>| x@);
            let ghost nv = n@;
            names.push(n);
            assert(names@.map_values(|x: Vec<char>| x@) =~= before.push(nv));
        }
    }
    assert(ev.take(entries@.len() as int) == ev);
    let sorted = sort_strs(names);
    let mut out: Vec<String> = Vec::new();
    for i in 0..sorted.len()
        invariant
            strs(out@) == sorted@.take(i as int).map_values(|x: Vec<char>| x@),
    {
        let ghost before = strs(out@);
        out.push(string_of(&sorted[i]));
        assert(strs(out@) =~= before.push(sorted@[i as int]@));
        assert(sorted@.take(i + 1).map_values(|x: Vec<char>| x@) =~= sorted@.take(i as int).map_values(
            |x: Vec<char>| x@,
        ).push(sorted@[i as int]@));
    }
    assert(sorted@.take(sorted@.len() as int) == sorted@);
    out
}

pub open spec fn listing_view(o: Option<Vec<(String, bool)>>) -> Option<Seq<(Seq<char>, bool)>> {
    match o {
        Some(v) => Some(dir_entries_view(v@)),
        None => None,
    }
}

/// `list_dir` gave `out` as the entries of `p` (none when it cannot be read).
pub open spec fn listed<L: Fn(String) -> Option<Vec<(String, bool)>>>(
    list_dir: L,
    p: Seq<char>,
    out: Option<Seq<(Seq<char>, bool)>>,
) -> bool {
    exists|x: String, o: Option<Vec<(String, bool)>>| #[trigger] list_dir.ensures((x,), o) && x@ == p && listing_view(o) == out
}

pub open spec fn subdirs_of(listing: Option<Seq<(Seq<char>, bool)>>) -> Seq<Seq<char>> {
    match listing {
        Some(es) => sorted_strs(visible_fold(es)),
        None => seq![],
    }
}

/// The visible subdirectories of `root`, sorted; none when it cannot be listed.
pub fn visible_subdirs<L: Fn(String) -> Option<Vec<(String, bool)>>>(list_dir: &L, root: &str) -> (r: Vec<String>)
    requires
        forall|x: String| list_dir.requires((x,)),
    ensures
        exists|o: Option<Seq<(Seq<char>, bool)>>| #[trigger] listed(*list_dir, root@, o) && strs(r@) == subdirs_of(o),
{
    let a = owned(root);
    let ghost av = a;
    let got = list_dir(a);
    assert(list_dir.ensures((av,), got));
    assert(listed(*list_dir, root@, listing_view(got)));
    match got {
        Some(es) => visible_subdir_names(&es),
        None => {
            let v: Vec<String> = Vec::new();
            assert(strs(v@) =~= Seq::<Seq<char>>::empty());
            v
        },
    }
}

// ---------------------------------------------------------------------------
// Node

/// The scripts worth a start item, most wanted first.
pub open spec fn priority_scripts() -> Seq<Seq<char>> {
    seq!["dev"@, "start"@, "serve"@, "preview"@]
}

/// The first two of `cands` that `keys` holds.
pub open spec fn picks_fold(cands: Seq<Seq<char>>, keys: Seq<Seq<char>>) -> Seq<Seq<char>>
    decreases cands.len(),
{
    if cands.len() == 0 {
        seq![]
    } else {
        let prev = picks_fold(cands.drop_last(), keys);
        if prev.len() < 2 && keys.contains(cands.last()) {
            prev.push(cands.last())
        } else {
            prev
        }
    }
}

pub open spec fn opt_seq_str(o: Option<&str>) -> Option<Seq<char>> {
    match o {
        Some(s) => Some(s@),
        None => None,
    }
}

/// A start item for `script`, the `i`-th picked: in a subdirectory the first
/// is named after the directory, the second `dir: script`.
pub open spec fn node_item(script: Seq<char>, i: int, pm: Seq<char>, subdir: Option<Seq<char>>) -> SuggestionV {
    SuggestionV {
        name: match subdir {
            None => script,
            Some(d) => if i == 0 {
                d
            } else {
                d + ": "@ + script
            },
        },
        work_dir: subdir,
        shell: Shell::Cmd,
        command: pm + " run "@ + script,
        ecosystem: "node"@,
    }
}

pub open spec fn node_items_spec(keys: Option<Seq<Seq<char>>>, pm: Seq<char>, subdir: Option<Seq<char>>) -> Seq<SuggestionV> {
    match keys {
        None => seq![],
        Some(k) => {
            let ps = picks_fold(priority_scripts(), k);
            Seq::new(ps.len(), |i: int| node_item(ps[i], i, pm, subdir))
        },
    }
}

pub open spec fn opt_strs(o: Option<Vec<String>>) -> Option<Seq<Seq<char>>> {
    match o {
        Some(v) => Some(strs(v@)),
        None => None,
    }
}

fn has_key(keys: &Vec<String>, k: &str) -> (r: bool)
    ensures
        r == strs(keys@).contains(k@),
{
    let ghost kv = strs(keys@);
    let kc = chars_of(k);
    for i in 0..keys.len()
        invariant
            kv == strs(keys@),
            kc@ == k@,
            forall|j: int| 0 <= j < i ==> kv[j] != k@,
    {
        if vec_eq(&chars_of(keys[i].as_str()), &kc) {
            assert(kv[i as int] == k@);
            return true;
        }
    }
    false
}

fn opt_owned(o: Option<&str>) -> (r: Option<String>)
    ensures
        opt_str(r) == opt_seq_str(o),
{
    match o {
        Some(x) => Some(owned(x)),
        None => None,
    }
}

/// Start items for a Node project with the scripts `scripts` (none when
/// `package.json` gave no `scripts` object): `dev`, `start`, `serve`,
/// `preview`, at most two, run with the package manager `pm`.
pub fn node_items(scripts: &Option<Vec<String>>, pm: &str, subdir: Option<&str>) -> (r: Vec<Suggestion>)
    ensures
        suggestions_view(r@) == node_items_spec(opt_strs(*scripts), pm@, opt_seq_str(subdir)),
{
    let mut out: Vec<Suggestion> = Vec::new();
    let keys = match scripts {
        None => {
            assert(suggestions_view(out@) =~= Seq::<SuggestionV>::empty());
            return out;
        },
        Some(k) => k,
    };
    let ghost kv = strs(keys@);
    let ghost sub = opt_seq_str(subdir);
    let cands = ["dev", "start", "serve", "preview"];
    let ghost cv = priority_scripts();
    assert(cands@.map_values(|x: &str| x@) =~= cv);
    let mut picked: Vec<&str> = Vec::new();
    for i in 0..4
        invariant
            cands@.map_values(|x: &str| x@) == cv,
            cv == priority_scripts(),
            cands@.len() == 4,
            kv == strs(keys@),
            picked@.map_values(|x: &str| x@) == picks_fold(cv.take(i as int), kv),
            picked@.len() <= 2,
    {
        assert(cv.take(i + 1).drop_last() == cv.take(i as int));
        assert(cv.take(i + 1).last() == cands@[i as int]@);
        if picked.len() < 2 && has_key(keys, cands[i]) {
            let ghost before = picked@.map_values(|x: &str| x@);
            picked.push(cands[i]);
            assert(picked@.map_values(|x: &str| x@) =~= before.push(cands@[i as int]@));
        }
    }
    assert(cv.take(4) == cv);
    let ghost ps = picks_fold(cv, kv);
    for i in 0..picked.len()
        invariant
            picked@.map_values(|x: &str| x@) == ps,
            ps == picks_fold(priority_scripts(), kv),
            kv == strs(keys@),
            sub == opt_seq_str(subdir),
            suggestions_view(out@) == Seq::new(i as nat, |j: int| node_item(ps[j], j, pm@, sub)),
    {
        let script = picked[i];
        assert(script@ == ps[i as int]);
        let name = match subdir {
            None => owned(script),
            Some(d) => if i == 0 {
                owned(d)
            } else {
                let mut m = chars_of(d);
                extend_chars(&mut m, &chars_of(": "));
                extend_chars(&mut m, &chars_of(script));
                string_of(&m)
            },
        };
        let mut c = chars_of(pm);
        extend_chars(&mut c, &chars_of(" run "));
        extend_chars(&mut c, &chars_of(script));
        let sg = Suggestion {
            name,
            work_dir: opt_owned(subdir),
            shell: Shell::Cmd,
            command: string_of(&c),
            ecosystem: owned("node"),
        };
        assert(sg@ == node_item(ps[i as int], i as int, pm@, sub));
        let ghost before = suggestions_view(out@);
        let ghost sgv = sg@;
        out.push(sg);
        assert(suggestions_view(out@) =~= before.push(sgv));
        assert(suggestions_view(out@) =~= Seq::new((i + 1) as nat, |j: int| node_item(ps[j], j, pm@, sub)));
    }
    assert(suggestions_view(out@) =~= node_items_spec(opt_strs(*scripts), pm@, sub));
    out
}

/// The keys of the `scripts` object of a `package.json` text (`None` when the
/// text is not JSON or has no such object).
pub uninterp spec fn package_scripts(text: Seq<char>) -> Option<Seq<Seq<char>>>;

/// `serde_json::from_str` into a `serde_json::Value`, then the keys of its
/// `scripts` member when that is an object. The contract names the result;
/// JSON parsing is not stated.
#[verifier::external_body]
fn script_names(text: &str) -> (r: Option<Vec<String>>)
    ensures
        opt_strs(r) == package_scripts(text@),
{
    let v: serde_json::Value = serde_json::from_str(text).ok()?;
    let scripts = v.get("scripts")?.as_object()?;
    Some(scripts.keys().cloned().collect())
}

/// The package manager a Node project uses, from its lock files:
/// `pnpm-lock.yaml`, `yarn.lock`, `bun.lockb` or `bun.lock`, else npm.
pub open spec fn pm_outcome<D: Fn(String) -> bool>(is_file: D, dir: Seq<char>, pm: Seq<char>) -> bool {
    let a = answered(is_file, join_raw(dir, "pnpm-lock.yaml"@), true);
    let na = answered(is_file, join_raw(dir, "pnpm-lock.yaml"@), false);
    let b = answered(is_file, join_raw(dir, "yarn.lock"@), true);
    let nb = answered(is_file, join_raw(dir, "yarn.lock"@), false);
    let c = answered(is_file, join_raw(dir, "bun.lockb"@), true);
    let nc = answered(is_file, join_raw(dir, "bun.lockb"@), false);
    let d = answered(is_file, join_raw(dir, "bun.lock"@), true);
    let nd = answered(is_file, join_raw(dir, "bun.lock"@), false);
    ||| a && pm == "pnpm"@
    ||| na && b && pm == "yarn"@
    ||| na && nb && (c || (nc && d)) && pm == "bun"@
    ||| na && nb && nc && nd && pm == "npm"@
}

pub fn package_manager<D: Fn(String) -> bool>(is_file: &D, dir: &str) -> (r: String)
    requires
        ready(*is_file),
    ensures
        pm_outcome(*is_file, dir@, r@),
{
    if ask(is_file, &under(dir, "pnpm-lock.yaml")) {
        owned("pnpm")
    } else if ask(is_file, &under(dir, "yarn.lock")) {
        owned("yarn")
    } else if ask(is_file, &under(dir, "bun.lockb")) || ask(is_file, &under(dir, "bun.lock")) {
        owned("bun")
    } else {
        owned("npm")
    }
}

/// Start items from `package.json`: none unless it is read and has a
/// `scripts` object; then the picks, with the package manager.
pub open spec fn node_outcome<D: Fn(String) -> bool, Z: Fn(String) -> Option<u64>, T: Fn(String) -> Option<String>>(
    is_file: D,
    size_of: Z,
    read: T,
    dir: Seq<char>,
    subdir: Option<Seq<char>>,
    out: Seq<SuggestionV>,
) -> bool {
    exists|t: Option<Seq<char>>|
        #[trigger] text_outcome(size_of, read, join_raw(dir, "package.json"@), t) && match t {
            None => out == Seq::<SuggestionV>::empty(),
            Some(x) => match package_scripts(x) {
                None => out == Seq::<SuggestionV>::empty(),
                Some(keys) => exists|pm: Seq<char>|
                    #[trigger] pm_outcome(is_file, dir, pm) && out == node_items_spec(Some(keys), pm, subdir),
            },
        }
}

pub fn node_suggestions<D: Fn(String) -> bool, Z: Fn(String) -> Option<u64>, T: Fn(String) -> Option<String>>(
    is_file: &D,
    size_of: &Z,
    read: &T,
    dir: &str,
    subdir: Option<&str>,
) -> (r: Vec<Suggestion>)
    requires
        ready(*is_file),
        forall|x: String| size_of.requires((x,)),
        forall|x: String| read.requires((x,)),
    ensures
        node_outcome(*is_file, *size_of, *read, dir@, opt_seq_str(subdir), suggestions_view(r@)),
{
    let text = read_text(size_of, read, &under(dir, "package.json"));
    let ghost tv = opt_str(text);
    assert(text_outcome(*size_of, *read, join_raw(dir@, "package.json"@), tv));
    let scripts = match &text {
        None => {
            let v: Vec<Suggestion> = Vec::new();
            assert(suggestions_view(v@) =~= Seq::<SuggestionV>::empty());
            return v;
        },
        Some(t) => script_names(t.as_str()),
    };
    if scripts.is_none() {
        let v: Vec<Suggestion> = Vec::new();
        assert(suggestions_view(v@) =~= Seq::<SuggestionV>::empty());
        return v;
    }
    let pm = package_manager(is_file, dir);
    let r = node_items(&scripts, pm.as_str(), subdir);
    assert(pm_outcome(*is_file, dir@, pm@));
    r
}

// ---------------------------------------------------------------------------
// Rust, Go, Python

/// A manifest with a `[package]` table (a workspace alone runs nothing).
pub open spec fn has_package_table(text: Seq<char>) -> bool {
    exists|i: int| 0 <= i < lines(text).len() && trim(#[trigger] lines(text)[i]) == "[package]"@
}

pub open spec fn one_item(name: Seq<char>, subdir: Option<Seq<char>>, command: Seq<char>, eco: Seq<char>) -> Seq<SuggestionV> {
    seq![
        SuggestionV {
            name: match subdir {
                Some(d) => d,
                None => name,
            },
            work_dir: subdir,
            shell: Shell::Cmd,
            command,
            ecosystem: eco,
        },
    ]
}

fn make_one(fallback: &str, subdir: Option<&str>, command: String, eco: &str) -> (r: Vec<Suggestion>)
    ensures
        suggestions_view(r@) == one_item(fallback@, opt_seq_str(subdir), command@, eco@),
{
    let s = Suggestion {
        name: item_name(subdir, fallback),
        work_dir: opt_owned(subdir),
        shell: Shell::Cmd,
        command,
        ecosystem: owned(eco),
    };
    let v = vec![s];
    assert(suggestions_view(v@) =~= one_item(fallback@, opt_seq_str(subdir), command@, eco@));
    v
}

pub open spec fn rust_items_spec(text: Option<Seq<char>>, subdir: Option<Seq<char>>) -> Seq<SuggestionV> {
    match text {
        Some(t) => if has_package_table(t) {
            one_item("run"@, subdir, "cargo run"@, "rust"@)
        } else {
            seq![]
        },
        None => seq![],
    }
}

/// `cargo run` for a manifest with a `[package]` table.
pub fn rust_items(text: Option<&str>, subdir: Option<&str>) -> (r: Vec<Suggestion>)
    ensures
        suggestions_view(r@) == rust_items_spec(opt_seq_str(text), opt_seq_str(subdir)),
{
    let t = match text {
        Some(t) => t,
        None => {
            let v: Vec<Suggestion> = Vec::new();
            assert(suggestions_view(v@) =~= Seq::<SuggestionV>::empty());
            return v;
        },
    };
    let ls = lines_of(&chars_of(t));
    let pk = chars_of("[package]");
    let mut found = false;
    for i in 0..ls.len()
        invariant
            ls@.len() == lines(t@).len(),
            forall|k: int| 0 <= k < ls@.len() ==> #[trigger] ls@[k]@ == lines(t@)[k],
            pk@ == "[package]"@,
            found == exists|k: int| 0 <= k < i && trim(#[trigger] lines(t@)[k]) == "[package]"@,
    {
        if vec_eq(&trimmed(&ls[i]), &pk) {
            assert(trim(lines(t@)[i as int]) == "[package]"@);
            found = true;
        }
    }
    if found {
        make_one("run", subdir, owned("cargo run"), "rust")
    } else {
        let v: Vec<Suggestion> = Vec::new();
        assert(suggestions_view(v@) =~= Seq::<SuggestionV>::empty());
        v
    }
}

pub open spec fn rust_outcome<Z: Fn(String) -> Option<u64>, T: Fn(String) -> Option<String>>(
    size_of: Z,
    read: T,
    dir: Seq<char>,
    subdir: Option<Seq<char>>,
    out: Seq<SuggestionV>,
) -> bool {
    exists|t: Option<Seq<char>>|
        #[trigger] text_outcome(size_of, read, join_raw(dir, "Cargo.toml"@), t) && out == rust_items_spec(t, subdir)
}

pub fn rust_suggestions<Z: Fn(String) -> Option<u64>, T: Fn(String) -> Option<String>>(
    size_of: &Z,
    read: &T,
    dir: &str,
    subdir: Option<&str>,
) -> (r: Vec<Suggestion>)
    requires
        forall|x: String| size_of.requires((x,)),
        forall|x: String| read.requires((x,)),
    ensures
        rust_outcome(*size_of, *read, dir@, opt_seq_str(subdir), suggestions_view(r@)),
{
    let text = read_text(size_of, read, &under(dir, "Cargo.toml"));
    let ghost tv = opt_str(text);
    let r = match &text {
        Some(t) => rust_items(Some(t.as_str()), subdir),
        None => rust_items(None, subdir),
    };
    assert(text_outcome(*size_of, *read, join_raw(dir@, "Cargo.toml"@), tv));
    r
}

pub open spec fn go_items_spec(has_main: bool, cmd_names: Seq<Seq<char>>, subdir: Option<Seq<char>>) -> Seq<SuggestionV> {
    if has_main {
        one_item("run"@, subdir, "go run ."@, "go"@)
    } else {
        let ns = sorted_strs(cmd_names);
        if ns.len() == 0 {
            seq![]
        } else {
            one_item("run"@, subdir, "go run ./cmd/"@ + ns[0], "go"@)
        }
    }
}

/// `go run .` with a root `main.go`, else `go run ./cmd/<name>` for the
/// first (by name) command directory holding a `main.go`.
pub fn go_items(has_main: bool, cmd_names: Vec<String>, subdir: Option<&str>) -> (r: Vec<Suggestion>)
    ensures
        suggestions_view(r@) == go_items_spec(has_main, strs(cmd_names@), opt_seq_str(subdir)),
{
    if has_main {
        return make_one("run", subdir, owned("go run ."), "go");
    }
    let mut vs: Vec<Vec<char>> = Vec::new();
    for i in 0..cmd_names.len()
        invariant
            vs@.map_values(|x: Vec<char>| x@) == strs(cmd_names@).take(i as int),
    {
        let ghost before = vs@.map_values(|x: Vec<char>| x@);
        vs.push(chars_of(cmd_names[i].as_str()));
        assert(vs@.map_values(|x: Vec<char>| x@) =~= before.push(cmd_names@[i as int]@));
        assert(strs(cmd_names@).take(i + 1) =~= strs(cmd_names@).take(i as int).push(cmd_names@[i as int]@));
    }
    assert(strs(cmd_names@).take(cmd_names@.len() as int) == strs(cmd_names@));
    let sorted = sort_strs(vs);
    if sorted.len() == 0 {
        let v: Vec<Suggestion> = Vec::new();
        assert(suggestions_view(v@) =~= Seq::<SuggestionV>::empty());
        return v;
    }
    assert(sorted@.map_values(|x: Vec<char>| x@)[0] == sorted@[0]@);
    let mut c = chars_of("go run ./cmd/");
    extend_chars(&mut c, &sorted[0]);
    make_one("run", subdir, string_of(&c), "go")
}

/// The names, among `es`, whose `main.go` probe said "file".
pub open spec fn names_with(es: Seq<(Seq<char>, bool)>, hits: Seq<bool>) -> Seq<Seq<char>>
    decreases es.len(),
{
    if es.len() == 0 || hits.len() < es.len() {
        seq![]
    } else {
        let prev = names_with(es.drop_last(), hits.take(es.len() - 1));
        if hits[es.len() - 1] {
            prev.push(es.last().0)
        } else {
            prev
        }
    }
}

pub open spec fn cmd_main(dir: Seq<char>, name: Seq<char>) -> Seq<char> {
    join_raw(join_raw(join_raw(dir, "cmd"@), name), "main.go"@)
}

pub open spec fn go_outcome<D: Fn(String) -> bool, L: Fn(String) -> Option<Vec<(String, bool)>>>(
    is_file: D,
    list_dir: L,
    dir: Seq<char>,
    subdir: Option<Seq<char>>,
    out: Seq<SuggestionV>,
) -> bool {
    ||| answered(is_file, join_raw(dir, "main.go"@), true) && out == go_items_spec(true, seq![], subdir)
    ||| answered(is_file, join_raw(dir, "main.go"@), false) && exists|o: Option<Seq<(Seq<char>, bool)>>, hits: Seq<bool>|
        #![trigger listed(list_dir, join_raw(dir, "cmd"@), o), go_from(is_file, dir, subdir, o, hits, out)]
        listed(list_dir, join_raw(dir, "cmd"@), o) && go_from(is_file, dir, subdir, o, hits, out)
}

/// The command directories' `main.go` probes, once `cmd` was listed.
pub open spec fn go_from<D: Fn(String) -> bool>(
    is_file: D,
    dir: Seq<char>,
    subdir: Option<Seq<char>>,
    o: Option<Seq<(Seq<char>, bool)>>,
    hits: Seq<bool>,
    out: Seq<SuggestionV>,
) -> bool {
    match o {
        None => out == go_items_spec(false, seq![], subdir),
        Some(es) => hits.len() == es.len() && (forall|i: int|
            0 <= i < es.len() ==> answered(is_file, cmd_main(dir, #[trigger] es[i].0), hits[i])) && out
            == go_items_spec(false, names_with(es, hits), subdir),
    }
}

pub fn go_suggestions<D: Fn(String) -> bool, L: Fn(String) -> Option<Vec<(String, bool)>>>(
    is_file: &D,
    list_dir: &L,
    dir: &str,
    subdir: Option<&str>,
) -> (r: Vec<Suggestion>)
    requires
        ready(*is_file),
        forall|x: String| list_dir.requires((x,)),
    ensures
        go_outcome(*is_file, *list_dir, dir@, opt_seq_str(subdir), suggestions_view(r@)),
{
    if ask(is_file, &under(dir, "main.go")) {
        return go_items(true, Vec::new(), subdir);
    }
    let cmd = string_of(&under(dir, "cmd"));
    let c2 = owned(cmd.as_str());
    let ghost cv = c2;
    let got = list_dir(c2);
    assert(list_dir.ensures((cv,), got));
    assert(listed(*list_dir, join_raw(dir@, "cmd"@), listing_view(got)));
    let mut names: Vec<String> = Vec::new();
    let ghost mut hits: Seq<bool> = seq![];
    match &got {
        None => {
            assert(strs(names@) =~= Seq::<Seq<char>>::empty());
        },
        Some(es) => {
            let ghost ev = dir_entries_view(es@);
            for i in 0..es.len()
                invariant
                    ev == dir_entries_view(es@),
                    ready(*is_file),
                    cmd@ == join_raw(dir@, "cmd"@),
                    hits.len() == i,
                    forall|k: int| 0 <= k < i ==> answered(*is_file, cmd_main(dir@, #[trigger] ev[k].0), hits[k]),
                    strs(names@) == names_with(ev.take(i as int), hits),
            {
                let p = join_raw_chars(&join_raw_chars(&chars_of(cmd.as_str()), &chars_of(es[i].0.as_str())), &chars_of("main.go"));
                assert(ev[i as int].0 == es@[i as int].0@);
                let b = ask(is_file, &p);
                proof {
                    let old_h = hits;
                    hits = hits.push(b);
                    assert(ev.take(i + 1).drop_last() == ev.take(i as int));
                    assert(hits.take(i as int) == old_h);
                    assert(ev.take(i + 1).last() == ev[i as int]);
                }
                if b {
                    let ghost before = strs(names@);
                    names.push(owned(es[i].0.as_str()));
                    assert(strs(names@) =~= before.push(ev[i as int].0));
                }
            }
            assert(ev.take(es@.len() as int) == ev);
        },
    }
    let r = go_items(false, names, subdir);
    assert(go_from(*is_file, dir@, opt_seq_str(subdir), listing_view(got), hits, suggestions_view(r@)));
    r
}

pub open spec fn python_entries() -> Seq<(Seq<char>, Seq<char>, Seq<char>)> {
    seq![
        ("manage.py"@, "python manage.py runserver"@, "manage"@),
        ("main.py"@, "python main.py"@, "main"@),
        ("app.py"@, "python app.py"@, "app"@),
    ]
}

/// The first entry script present, by priority: `manage.py` (Django),
/// `main.py`, `app.py`.
pub open spec fn python_outcome<D: Fn(String) -> bool>(
    is_file: D,
    dir: Seq<char>,
    subdir: Option<Seq<char>>,
    out: Seq<SuggestionV>,
) -> bool {
    let es = python_entries();
    ||| exists|k: int|
        0 <= k < 3 && (forall|j: int| 0 <= j < k ==> answered(is_file, join_raw(dir, #[trigger] es[j].0), false))
            && #[trigger] answered(is_file, join_raw(dir, es[k].0), true) && out == one_item(es[k].2, subdir, es[k].1, "python"@)
    ||| (forall|j: int| 0 <= j < 3 ==> answered(is_file, join_raw(dir, #[trigger] es[j].0), false)) && out == Seq::<
        SuggestionV,
    >::empty()
}

pub fn python_suggestions<D: Fn(String) -> bool>(is_file: &D, dir: &str, subdir: Option<&str>) -> (r: Vec<Suggestion>)
    requires
        ready(*is_file),
    ensures
        python_outcome(*is_file, dir@, opt_seq_str(subdir), suggestions_view(r@)),
{
    let ghost es = python_entries();
    if ask(is_file, &under(dir, "manage.py")) {
        let r = make_one("manage", subdir, owned("python manage.py runserver"), "python");
        assert(answered(*is_file, join_raw(dir@, es[0].0), true));
        return r;
    }
    assert(answered(*is_file, join_raw(dir@, es[0].0), false));
    if ask(is_file, &under(dir, "main.py")) {
        let r = make_one("main", subdir, owned("python main.py"), "python");
        assert(answered(*is_file, join_raw(dir@, es[1].0), true));
        return r;
    }
    assert(answered(*is_file, join_raw(dir@, es[1].0), false));
    if ask(is_file, &under(dir, "app.py")) {
        let r = make_one("app", subdir, owned("python app.py"), "python");
        assert(answered(*is_file, join_raw(dir@, es[2].0), true));
        return r;
    }
    assert(answered(*is_file, join_raw(dir@, es[2].0), false));
    let v: Vec<Suggestion> = Vec::new();
    assert(suggestions_view(v@) =~= Seq::<SuggestionV>::empty());
    v
}

// ---------------------------------------------------------------------------
// A directory, and a project

/// The items of each ecosystem found in `dir`: Node when `package.json` is a
/// file, Rust with `Cargo.toml`, Go with `go.mod`, and Python always looked for.
pub open spec fn dir_parts<
    D: Fn(String) -> bool,
    L: Fn(String) -> Option<Vec<(String, bool)>>,
    Z: Fn(String) -> Option<u64>,
    T: Fn(String) -> Option<String>,
>(
    is_file: D,
    list_dir: L,
    size_of: Z,
    read: T,
    dir: Seq<char>,
    subdir: Option<Seq<char>>,
    n: Seq<SuggestionV>,
    r: Seq<SuggestionV>,
    g: Seq<SuggestionV>,
    p: Seq<SuggestionV>,
) -> bool {
    &&& (answered(is_file, join_raw(dir, "package.json"@), true) && node_outcome(is_file, size_of, read, dir, subdir, n))
        || (answered(is_file, join_raw(dir, "package.json"@), false) && n == Seq::<SuggestionV>::empty())
    &&& (answered(is_file, join_raw(dir, "Cargo.toml"@), true) && rust_outcome(size_of, read, dir, subdir, r)) || (
    answered(is_file, join_raw(dir, "Cargo.toml"@), false) && r == Seq::<SuggestionV>::empty())
    &&& (answered(is_file, join_raw(dir, "go.mod"@), true) && go_outcome(is_file, list_dir, dir, subdir, g)) || (
    answered(is_file, join_raw(dir, "go.mod"@), false) && g == Seq::<SuggestionV>::empty())
    &&& python_outcome(is_file, dir, subdir, p)
}

pub open spec fn collect_outcome<
    D: Fn(String) -> bool,
    L: Fn(String) -> Option<Vec<(String, bool)>>,
    Z: Fn(String) -> Option<u64>,
    T: Fn(String) -> Option<String>,
>(
    is_file: D,
    list_dir: L,
    size_of: Z,
    read: T,
    dir: Seq<char>,
    subdir: Option<Seq<char>>,
    out: Seq<SuggestionV>,
) -> bool {
    exists|n: Seq<SuggestionV>, r: Seq<SuggestionV>, g: Seq<SuggestionV>, p: Seq<SuggestionV>|
        #[trigger] dir_parts(is_file, list_dir, size_of, read, dir, subdir, n, r, g, p) && out == n + r + g + p
}

fn append_all(out: &mut Vec<Suggestion>, more: Vec<Suggestion>)
    ensures
        suggestions_view(final(out)@) == suggestions_view(old(out)@) + suggestions_view(more@),
{
    let ghost a = suggestions_view(out@);
    let ghost b = suggestions_view(more@);
    let mut m = more;
    out.append(&mut m);
    assert(suggestions_view(out@) =~= a + b);
}

/// The start items found in one directory (`subdir`: its name, when it is a
/// subdirectory of the project).
pub fn collect_dir<
    D: Fn(String) -> bool,
    L: Fn(String) -> Option<Vec<(String, bool)>>,
    Z: Fn(String) -> Option<u64>,
    T: Fn(String) -> Option<String>,
>(is_file: &D, list_dir: &L, size_of: &Z, read: &T, dir: &str, subdir: Option<&str>) -> (r: Vec<Suggestion>)
    requires
        ready(*is_file),
        forall|x: String| list_dir.requires((x,)),
        forall|x: String| size_of.requires((x,)),
        forall|x: String| read.requires((x,)),
    ensures
        collect_outcome(*is_file, *list_dir, *size_of, *read, dir@, opt_seq_str(subdir), suggestions_view(r@)),
{
    let ghost sub = opt_seq_str(subdir);
    let n = if ask(is_file, &under(dir, "package.json")) {
        node_suggestions(is_file, size_of, read, dir, subdir)
    } else {
        Vec::new()
    };
    let rs = if ask(is_file, &under(dir, "Cargo.toml")) {
        rust_suggestions(size_of, read, dir, subdir)
    } else {
        Vec::new()
    };
    let g = if ask(is_file, &under(dir, "go.mod")) {
        go_suggestions(is_file, list_dir, dir, subdir)
    } else {
        Vec::new()
    };
    let p = python_suggestions(is_file, dir, subdir);
    let ghost nv = suggestions_view(n@);
    let ghost rv = suggestions_view(rs@);
    let ghost gv = suggestions_view(g@);
    let ghost pv = suggestions_view(p@);
    assert(nv.len() == 0 ==> nv =~= Seq::<SuggestionV>::empty());
    assert(rv.len() == 0 ==> rv =~= Seq::<SuggestionV>::empty());
    assert(gv.len() == 0 ==> gv =~= Seq::<SuggestionV>::empty());
    assert(dir_parts(*is_file, *list_dir, *size_of, *read, dir@, sub, nv, rv, gv, pv));
    let mut out: Vec<Suggestion> = Vec::new();
    assert(suggestions_view(out@) =~= Seq::<SuggestionV>::empty());
    append_all(&mut out, n);
    append_all(&mut out, rs);
    append_all(&mut out, g);
    append_all(&mut out, p);
    assert(suggestions_view(out@) =~= nv + rv + gv + pv);
    out
}

pub open spec fn flat(outs: Seq<Seq<SuggestionV>>) -> Seq<SuggestionV>
    decreases outs.len(),
{
    if outs.len() == 0 {
        seq![]
    } else {
        flat(outs.drop_last()) + outs.last()
    }
}

/// What detection went through: the project root's items, then (while fewer
/// than `MAX_TOTAL_SUGGESTIONS`) the visible subdirectories in name order,
/// stopping once there are enough.
pub open spec fn detect_trace<
    D: Fn(String) -> bool,
    L: Fn(String) -> Option<Vec<(String, bool)>>,
    Z: Fn(String) -> Option<u64>,
    T: Fn(String) -> Option<String>,
>(
    is_file: D,
    list_dir: L,
    size_of: Z,
    read: T,
    root: Seq<char>,
    first: Seq<SuggestionV>,
    names: Seq<Seq<char>>,
    outs: Seq<Seq<SuggestionV>>,
) -> bool {
    &&& collect_outcome(is_file, list_dir, size_of, read, root, None, first)
    &&& first.len() >= MAX_TOTAL_SUGGESTIONS ==> outs.len() == 0
    &&& first.len() < MAX_TOTAL_SUGGESTIONS ==> exists|o: Option<Seq<(Seq<char>, bool)>>|
        #[trigger] listed(list_dir, root, o) && names == subdirs_of(o)
    &&& outs.len() <= names.len()
    &&& forall|j: int|
        0 <= j < outs.len() ==> collect_outcome(
            is_file,
            list_dir,
            size_of,
            read,
            join_raw(root, names[j]),
            Some(names[j]),
            #[trigger] outs[j],
        )
    &&& forall|j: int| 0 <= j < outs.len() - 1 ==> (first + flat(#[trigger] outs.take(j + 1))).len() < MAX_TOTAL_SUGGESTIONS
    &&& first.len() < MAX_TOTAL_SUGGESTIONS ==> (outs.len() == names.len() || (first + flat(outs)).len()
        >= MAX_TOTAL_SUGGESTIONS)
}

pub struct DetectResultV {
    pub ecosystems: Seq<Seq<char>>,
    pub suggestions: Seq<SuggestionV>,
}

pub open spec fn detect_view(d: DetectResult) -> DetectResultV {
    DetectResultV { ecosystems: strs(d.ecosystems@), suggestions: suggestions_view(d.suggestions@) }
}

/// A detection result from all items found: the first `MAX_TOTAL_SUGGESTIONS`,
/// and their ecosystems.
pub open spec fn finish_spec(all: Seq<SuggestionV>) -> DetectResultV {
    let s = if all.len() > MAX_TOTAL_SUGGESTIONS {
        all.take(MAX_TOTAL_SUGGESTIONS as int)
    } else {
        all
    };
    DetectResultV { ecosystems: unique_ecosystems_spec(s), suggestions: s }
}

pub open spec fn detect_outcome<
    D: Fn(String) -> bool,
    L: Fn(String) -> Option<Vec<(String, bool)>>,
    Z: Fn(String) -> Option<u64>,
    T: Fn(String) -> Option<String>,
>(is_file: D, list_dir: L, size_of: Z, read: T, root: Seq<char>, r: DetectResultV) -> bool {
    exists|first: Seq<SuggestionV>, names: Seq<Seq<char>>, outs: Seq<Seq<SuggestionV>>|
        #[trigger] detect_trace(is_file, list_dir, size_of, read, root, first, names, outs) && r == finish_spec(
            first + flat(outs),
        )
}

/// Start items for the project at `root`: what its own files suggest, then
/// its visible subdirectories in name order, at most `MAX_TOTAL_SUGGESTIONS`
/// in all, with the ecosystems they belong to.
pub fn detect<
    D: Fn(String) -> bool,
    L: Fn(String) -> Option<Vec<(String, bool)>>,
    Z: Fn(String) -> Option<u64>,
    T: Fn(String) -> Option<String>,
>(is_file: &D, list_dir: &L, size_of: &Z, read: &T, root: &str) -> (r: DetectResult)
    requires
        ready(*is_file),
        forall|x: String| list_dir.requires((x,)),
        forall|x: String| size_of.requires((x,)),
        forall|x: String| read.requires((x,)),
    ensures
        detect_outcome(*is_file, *list_dir, *size_of, *read, root@, detect_view(r)),
        r.suggestions@.len() <= MAX_TOTAL_SUGGESTIONS,
        strs(r.ecosystems@) == unique_ecosystems_spec(suggestions_view(r.suggestions@)),
{
    let mut all = collect_dir(is_file, list_dir, size_of, read, root, None);
    let ghost first = suggestions_view(all@);
    let ghost mut outs: Seq<Seq<SuggestionV>> = seq![];
    let ghost mut names_v: Seq<Seq<char>> = seq![];
    if all.len() < MAX_TOTAL_SUGGESTIONS {
        let names = visible_subdirs(list_dir, root);
        proof {
            names_v = strs(names@);
        }
        let n = names.len();
        let mut i: usize = 0;
        while i < n
            invariant_except_break
                forall|j: int| 0 <= j < outs.len() ==> (first + flat(#[trigger] outs.take(j + 1))).len() < MAX_TOTAL_SUGGESTIONS,
            invariant
                n == names@.len(),
                names_v == strs(names@),
                i <= n,
                ready(*is_file),
                forall|x: String| list_dir.requires((x,)),
                forall|x: String| size_of.requires((x,)),
                forall|x: String| read.requires((x,)),
                first.len() < MAX_TOTAL_SUGGESTIONS,
                collect_outcome(*is_file, *list_dir, *size_of, *read, root@, None, first),
                outs.len() == i,
                suggestions_view(all@) == first + flat(outs),
                forall|j: int|
                    0 <= j < outs.len() ==> collect_outcome(
                        *is_file,
                        *list_dir,
                        *size_of,
                        *read,
                        join_raw(root@, names_v[j]),
                        Some(names_v[j]),
                        #[trigger] outs[j],
                    ),
                forall|j: int| 0 <= j < outs.len() - 1 ==> (first + flat(#[trigger] outs.take(j + 1))).len() < MAX_TOTAL_SUGGESTIONS,
            ensures
                outs.len() == n || suggestions_view(all@).len() >= MAX_TOTAL_SUGGESTIONS,
            decreases n - i,
        {
            let name = &names[i];
            let sub = string_of(&under(root, name.as_str()));
            let more = collect_dir(is_file, list_dir, size_of, read, sub.as_str(), Some(name.as_str()));
            let ghost mv = suggestions_view(more@);
            assert(names_v[i as int] == name@);
            let ghost old_outs = outs;
            proof {
                outs = outs.push(mv);
                assert(outs.drop_last() == old_outs);
                assert forall|j: int|
                    0 <= j < outs.len() implies collect_outcome(
                    *is_file,
                    *list_dir,
                    *size_of,
                    *read,
                    join_raw(root@, names_v[j]),
                    Some(names_v[j]),
                    #[trigger] outs[j],
                ) by {
                    if j < i {
                        assert(outs[j] == old_outs[j]);
                    }
                }
                assert forall|j: int| 0 <= j < i implies #[trigger] outs.take(j + 1) == old_outs.take(j + 1) by {
                    assert(outs.take(j + 1) =~= old_outs.take(j + 1));
                }
                assert(outs.take(i + 1) == outs);
            }
            append_all(&mut all, more);
            i = i + 1;
            if all.len() >= MAX_TOTAL_SUGGESTIONS {
                break;
            }
            assert forall|j: int| 0 <= j < outs.len() implies (first + flat(#[trigger] outs.take(j + 1))).len()
                < MAX_TOTAL_SUGGESTIONS by {
                if j == outs.len() - 1 {
                    assert(outs.take(j + 1) == outs);
                    assert(suggestions_view(all@).len() == all@.len());
                } else {
                    assert(outs.take(j + 1) == old_outs.take(j + 1));
                    assert((first + flat(old_outs.take(j + 1))).len() < MAX_TOTAL_SUGGESTIONS);
                }
            }
        }
    }
    let ghost allv = suggestions_view(all@);
    let mut s: Vec<Suggestion> = Vec::new();
    let k = if all.len() > MAX_TOTAL_SUGGESTIONS {
        MAX_TOTAL_SUGGESTIONS
    } else {
        all.len()
    };
    for j in 0..k
        invariant
            k <= all@.len(),
            allv == suggestions_view(all@),
            suggestions_view(s@) == allv.take(j as int),
    {
        let ghost before = suggestions_view(s@);
        let c = copy_suggestion(&all[j]);
        let ghost cv = c@;
        s.push(c);
        assert(suggestions_view(s@) =~= before.push(cv));
        assert(allv.take(j + 1) =~= allv.take(j as int).push(allv[j as int]));
    }
    if k == all.len() {
        assert(allv.take(k as int) == allv);
    }
    let ecosystems = unique_ecosystems(&s);
    let r = DetectResult { ecosystems, suggestions: s };
    assert(detect_trace(*is_file, *list_dir, *size_of, *read, root@, first, names_v, outs));
    r
}

} // verus!
