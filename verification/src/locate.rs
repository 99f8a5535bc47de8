//! Finding the executables the launcher drives (git, Windows Terminal): the
//! order in which places are tried. Whether a path is a file is answered by
//! the function passed in.

use vstd::prelude::*;
use crate::paths::{join_raw, join_raw_chars};
use crate::text::{chars_of, copy_chars, string_of, trim, trimmed};
use crate::worktree::answered;

verus! {

/// `probe` may be asked about any path.
pub open spec fn file_probe<D: Fn(String) -> bool>(probe: D) -> bool {
    forall|x: String| probe.requires((x,))
}

/// The first candidate the probe calls a file, all before it asked and
/// refused; or none, every candidate refused.
pub open spec fn first_file<D: Fn(String) -> bool>(probe: D, cands: Seq<Seq<char>>, r: Option<Seq<char>>) -> bool {
    match r {
        Some(c) => exists|k: int|
            0 <= k < cands.len() && #[trigger] cands[k] == c && answered(probe, c, true) && forall|j: int|
                0 <= j < k ==> answered(probe, #[trigger] cands[j], false),
        None => forall|j: int| 0 <= j < cands.len() ==> answered(probe, #[trigger] cands[j], false),
    }
}

pub open spec fn opt_seq(o: Option<String>) -> Option<Seq<char>> {
    match o {
        Some(s) => Some(s@),
        None => None,
    }
}

pub open spec fn opt_str(o: Option<&str>) -> Option<Seq<char>> {
    match o {
        Some(s) => Some(s@),
        None => None,
    }
}

pub open spec fn seqs(v: Seq<Vec<char>>) -> Seq<Seq<char>> {
    v.map_values(|x: Vec<char>| x@)
}

fn ask<D: Fn(String) -> bool>(probe: &D, p: &Vec<char>) -> (r: bool)
    requires
        file_probe(*probe),
    ensures
        answered(*probe, p@, r),
{
    let s = string_of(p);
    let ghost sv = s;
    let r = probe(s);
    assert(probe.ensures((sv,), r));
    r
}

/// Tries the candidates in order and gives the first that is a file.
pub fn first_existing<D: Fn(String) -> bool>(probe: &D, cands: &Vec<Vec<char>>) -> (r: Option<String>)
    requires
        file_probe(*probe),
    ensures
        first_file(*probe, seqs(cands@), opt_seq(r)),
{
    let ghost cs = seqs(cands@);
    for i in 0..cands.len()
        invariant
            file_probe(*probe),
            cs == seqs(cands@),
            forall|j: int| 0 <= j < i ==> answered(*probe, #[trigger] cs[j], false),
    {
        if ask(probe, &cands[i]) {
            assert(cs[i as int] == cands@[i as int]@);
            return Some(string_of(&cands[i]));
        }
        assert(cs[i as int] == cands@[i as int]@);
    }
    None
}

/// The candidates tried after an explicit override: `name` in each `PATH`
/// entry, in order.
pub open spec fn path_cands(dirs: Option<Seq<Seq<char>>>, name: Seq<char>) -> Seq<Seq<char>> {
    match dirs {
        Some(ds) => ds.map_values(|d: Seq<char>| join_raw(d, name)),
        None => seq![],
    }
}

pub open spec fn strs_of(v: Option<Vec<String>>) -> Option<Seq<Seq<char>>> {
    match v {
        Some(ds) => Some(ds@.map_values(|s: String| s@)),
        None => None,
    }
}

fn push_path_cands(out: &mut Vec<Vec<char>>, dirs: &Option<Vec<String>>, name: &str)
    ensures
        seqs(final(out)@) == seqs(old(out)@) + path_cands(strs_of(*dirs), name@),
{
    match dirs {
        Some(ds) => {
            let ghost start = seqs(out@);
            let ghost dv = ds@.map_values(|s: String| s@);
            for i in 0..ds.len()
                invariant
                    dv == ds@.map_values(|s: String| s@),
                    seqs(out@) == start + dv.take(i as int).map_values(|d: Seq<char>| join_raw(d, name@)),
            {
                let ghost before = seqs(out@);
                let c = join_raw_chars(&chars_of(ds[i].as_str()), &chars_of(name));
                out.push(c);
                assert(dv.take(i + 1).map_values(|d: Seq<char>| join_raw(d, name@)) =~= dv.take(i as int).map_values(
                    |d: Seq<char>| join_raw(d, name@),
                ).push(join_raw(dv[i as int], name@)));
                assert(seqs(out@) =~= before.push(join_raw(dv[i as int], name@)));
            }
            assert(dv.take(ds.len() as int) == dv);
        },
        None => {
            assert(seqs(out@) =~= seqs(out@) + Seq::<Seq<char>>::empty());
        },
    }
}

pub open spec fn join3(root: Seq<char>, a: Seq<char>, b: Seq<char>, c: Seq<char>) -> Seq<char> {
    join_raw(join_raw(join_raw(root, a), b), c)
}

fn join3_exec(root: &str, a: &str, b: &str, c: &str) -> (r: Vec<char>)
    ensures
        r@ == join3(root@, a@, b@, c@),
{
    let x = join_raw_chars(&chars_of(root), &chars_of(a));
    let y = join_raw_chars(&x, &chars_of(b));
    join_raw_chars(&y, &chars_of(c))
}

/// The places git is looked for, after an override: each `PATH` entry, then
/// `Git\cmd` and `Git\bin` under Program Files.
pub open spec fn git_cands(dirs: Option<Seq<Seq<char>>>, program_files: Option<Seq<char>>) -> Seq<Seq<char>> {
    path_cands(dirs, "git.exe"@) + match program_files {
        Some(root) => seq![join3(root, "Git"@, "cmd"@, "git.exe"@), join3(root, "Git"@, "bin"@, "git.exe"@)],
        None => seq![],
    }
}

/// An override names the only place (an empty one forces "missing"); one
/// that is not a file falls through to the usual places.
pub open spec fn with_override<D: Fn(String) -> bool>(
    probe: D,
    override_path: Option<Seq<char>>,
    cands: Seq<Seq<char>>,
    r: Option<Seq<char>>,
) -> bool {
    match override_path {
        Some(p) => if p.len() == 0 {
            r is None
        } else {
            first_file(probe, seq![p] + cands, r)
        },
        None => first_file(probe, cands, r),
    }
}

fn resolve_in<D: Fn(String) -> bool>(override_path: Option<&str>, cands: Vec<Vec<char>>, is_file: &D) -> (r: Option<
    String,
>)
    requires
        file_probe(*is_file),
    ensures
        with_override(*is_file, opt_str(override_path), seqs(cands@), opt_seq(r)),
{
    match override_path {
        Some(p) => {
            if p.is_empty() {
                return None;
            }
            let mut all: Vec<Vec<char>> = vec![chars_of(p)];
            let ghost cv = seqs(cands@);
            let mut rest = cands;
            all.append(&mut rest);
            assert(seqs(all@) =~= seq![p@] + cv);
            first_existing(is_file, &all)
        },
        None => first_existing(is_file, &cands),
    }
}

/// Finds git.exe: the override (`DEVLAUNCH_GIT_PATH`; empty means "treat git
/// as missing"), then each `PATH` entry, then `Git\cmd` and `Git\bin` under
/// Program Files. `path_dirs` are the entries of `PATH`.
pub fn resolve_git_with<D: Fn(String) -> bool>(
    override_path: Option<&str>,
    path_dirs: Option<Vec<String>>,
    program_files: Option<&str>,
    is_file: &D,
) -> (r: Option<String>)
    requires
        file_probe(*is_file),
    ensures
        with_override(*is_file, opt_str(override_path), git_cands(strs_of(path_dirs), opt_str(program_files)), opt_seq(r)),
{
    let mut cands: Vec<Vec<char>> = Vec::new();
    push_path_cands(&mut cands, &path_dirs, "git.exe");
    match program_files {
        Some(root) => {
            cands.push(join3_exec(root, "Git", "cmd", "git.exe"));
            cands.push(join3_exec(root, "Git", "bin", "git.exe"));
        },
        None => {},
    }
    assert(seqs(cands@) =~= git_cands(strs_of(path_dirs), opt_str(program_files)));
    resolve_in(override_path, cands, is_file)
}

/// The configured git path wins outright (when it is not a file, git counts
/// as missing, with no fallback); without one, `resolve_git_with` decides.
pub open spec fn effective_outcome<D: Fn(String) -> bool>(
    probe: D,
    configured: Option<Seq<char>>,
    override_path: Option<Seq<char>>,
    dirs: Option<Seq<Seq<char>>>,
    program_files: Option<Seq<char>>,
    r: Option<Seq<char>>,
) -> bool {
    match configured {
        Some(c) if trim(c).len() > 0 => (answered(probe, trim(c), true) && r == Some(trim(c))) || (answered(
            probe,
            trim(c),
            false,
        ) && r is None),
        _ => with_override(probe, override_path, git_cands(dirs, program_files), r),
    }
}

pub fn resolve_git_effective<D: Fn(String) -> bool>(
    configured: Option<&str>,
    env_override: Option<&str>,
    path_dirs: Option<Vec<String>>,
    program_files: Option<&str>,
    is_file: &D,
) -> (r: Option<String>)
    requires
        file_probe(*is_file),
    ensures
        effective_outcome(
            *is_file,
            opt_str(configured),
            opt_str(env_override),
            strs_of(path_dirs),
            opt_str(program_files),
            opt_seq(r),
        ),
{
    match configured {
        Some(c) => {
            let t = trimmed(&chars_of(c));
            if t.len() > 0 {
                if ask(is_file, &t) {
                    return Some(string_of(&t));
                } else {
                    return None;
                }
            }
        },
        None => {},
    }
    resolve_git_with(env_override, path_dirs, program_files, is_file)
}

/// The places Windows Terminal is looked for, after an override: each `PATH`
/// entry, then `Microsoft\WindowsApps` under the local application data.
pub open spec fn wt_cands(dirs: Option<Seq<Seq<char>>>, local_appdata: Option<Seq<char>>) -> Seq<Seq<char>> {
    path_cands(dirs, "wt.exe"@) + match local_appdata {
        Some(root) => seq![join3(root, "Microsoft"@, "WindowsApps"@, "wt.exe"@)],
        None => seq![],
    }
}

/// Finds wt.exe: the override (`DEVLAUNCH_WT_PATH`; empty forces "missing"),
/// then each `PATH` entry, then the WindowsApps alias under `LOCALAPPDATA`.
pub fn resolve_wt_with<D: Fn(String) -> bool>(
    override_path: Option<&str>,
    path_dirs: Option<Vec<String>>,
    local_appdata: Option<&str>,
    is_file: &D,
) -> (r: Option<String>)
    requires
        file_probe(*is_file),
    ensures
        with_override(*is_file, opt_str(override_path), wt_cands(strs_of(path_dirs), opt_str(local_appdata)), opt_seq(r)),
{
    let mut cands: Vec<Vec<char>> = Vec::new();
    push_path_cands(&mut cands, &path_dirs, "wt.exe");
    match local_appdata {
        Some(root) => {
            cands.push(join3_exec(root, "Microsoft", "WindowsApps", "wt.exe"));
        },
        None => {},
    }
    assert(seqs(cands@) =~= wt_cands(strs_of(path_dirs), opt_str(local_appdata)));
    resolve_in(override_path, cands, is_file)
}

} // verus!
