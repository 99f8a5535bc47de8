//! Previewing a binary file's two sides (an image diff): which git objects or
//! work-tree file stand for each side, when their bytes are worth fetching,
//! and what each side reports. The processes and reads are done by the
//! functions passed in.

use vstd::prelude::*;
use crate::config::strs;
use crate::git::{valid_hash, validate_hash};
use crate::git_read::{no_git_msg, ran_err};
use crate::image::{has_image_ext_spec, has_image_extension, make_side, make_side_spec, BlobSide, BlobSideV};
use crate::paths::replace_chars;
use crate::runner::{call, callable, ran, Args};
use crate::text::{
    all_digits, chars_of, extend_chars, has_char, is_hex_digit, owned, parse_u64, parse_unsigned, replace_char,
    string_of, trim, trimmed,
};

verus! {

/// A usable object id: at least four hex digits.
pub open spec fn sha_ok(s: Seq<char>) -> bool {
    s.len() >= 4 && forall|i: int| 0 <= i < s.len() ==> is_hex_digit(#[trigger] s[i])
}

pub open spec fn rev_args(revspec: Seq<char>) -> Seq<Seq<char>> {
    seq!["rev-parse"@, "--verify"@, "--quiet"@, revspec]
}

pub open spec fn size_args(sha: Seq<char>) -> Seq<Seq<char>> {
    seq!["cat-file"@, "-s"@, sha]
}

pub open spec fn blob_args(sha: Seq<char>) -> Seq<Seq<char>> {
    seq!["cat-file"@, "blob"@, sha]
}

/// `revspec` names the object `sha` (at least four hex digits), whose size
/// git gave as `size`.
pub open spec fn object_found<F: Fn(Vec<String>) -> Result<String, String>>(
    run: F,
    revspec: Seq<char>,
    sha: Seq<char>,
    size: u64,
) -> bool {
    exists|t: Seq<char>, z: Seq<char>|
        #![trigger ran(run, rev_args(revspec), Ok(t)), ran(run, size_args(sha), Ok(z))]
        ran(run, rev_args(revspec), Ok(t)) && sha == trim(t) && sha_ok(sha) && ran(run, size_args(sha), Ok(z))
            && parse_unsigned(trim(z), u64::MAX as nat) == Some(size as nat)
}

/// The object a revspec names, with its size; none when this version has no
/// such file (a side that does not exist, not an error).
pub open spec fn object_outcome<F: Fn(Vec<String>) -> Result<String, String>>(
    run: F,
    revspec: Seq<char>,
    r: Option<(Seq<char>, u64)>,
) -> bool {
    match r {
        Some(found) => object_found(run, revspec, found.0, found.1),
        None => ran_err(run, rev_args(revspec)) || exists|t: Seq<char>|
            #[trigger] ran(run, rev_args(revspec), Ok(t)) && (!sha_ok(trim(t)) || ran_err(run, size_args(trim(t)))
                || exists|z: Seq<char>|
                #[trigger] ran(run, size_args(trim(t)), Ok(z)) && parse_unsigned(trim(z), u64::MAX as nat) is None),
    }
}

proof fn lemma_object_found<F: Fn(Vec<String>) -> Result<String, String>>(
    run: F,
    revspec: Seq<char>,
    t: Seq<char>,
    z: Seq<char>,
    size: u64,
)
    requires
        ran(run, rev_args(revspec), Ok(t)),
        sha_ok(trim(t)),
        ran(run, size_args(trim(t)), Ok(z)),
        parse_unsigned(trim(z), u64::MAX as nat) == Some(size as nat),
    ensures
        object_outcome(run, revspec, Some((trim(t), size))),
{
    let sha = trim(t);
    assert(ran(run, rev_args(revspec), Ok(t)) && sha == trim(t) && sha_ok(sha) && ran(run, size_args(sha), Ok(z))
        && parse_unsigned(trim(z), u64::MAX as nat) == Some(size as nat));
    assert(object_found(run, revspec, sha, size));
}

fn all_hex(s: &[char]) -> (r: bool)
    ensures
        r == (forall|i: int| 0 <= i < s@.len() ==> is_hex_digit(#[trigger] s@[i])),
{
    for i in 0..s.len()
        invariant
            forall|k: int| 0 <= k < i ==> is_hex_digit(#[trigger] s@[k]),
    {
        let c = s[i];
        if !(('0' <= c && c <= '9') || ('a' <= c && c <= 'f') || ('A' <= c && c <= 'F')) {
            assert(!is_hex_digit(s@[i as int]));
            return false;
        }
    }
    true
}

fn one_arg_call<F: Fn(Vec<String>) -> Result<String, String>>(run: &F, a: &str, b: &str, c: &str, d: Option<&str>) -> (r: Result<
    String,
    String,
>)
    requires
        callable(*run),
    ensures
        ran(
            *run,
            match d {
                Some(x) => seq![a@, b@, c@, x@],
                None => seq![a@, b@, c@],
            },
            crate::runner::str_result(r),
        ),
{
    let mut v = Args::new();
    v.lit(a);
    v.lit(b);
    v.lit(c);
    match d {
        Some(x) => v.lit(x),
        None => {},
    }
    assert(strs(v.v@) =~= match d {
        Some(x) => seq![a@, b@, c@, x@],
        None => seq![a@, b@, c@],
    });
    call(run, v.v)
}

pub open spec fn obj_view(o: Option<(String, u64)>) -> Option<(Seq<char>, u64)> {
    match o {
        Some((s, z)) => Some((s@, z)),
        None => None,
    }
}

/// The object id and size a revspec names.
fn object_of<F: Fn(Vec<String>) -> Result<String, String>>(run: &F, revspec: &str) -> (r: Option<(String, u64)>)
    requires
        callable(*run),
    ensures
        object_outcome(*run, revspec@, obj_view(r)),
{
    let t = match one_arg_call(run, "rev-parse", "--verify", "--quiet", Some(revspec)) {
        Ok(t) => t,
        Err(e) => {
            assert(ran(*run, rev_args(revspec@), Err(e@)));
            return None;
        },
    };
    let ghost tv = t@;
    assert(ran(*run, rev_args(revspec@), Ok(tv)));
    let sha = trimmed(&chars_of(t.as_str()));
    if sha.len() < 4 || !all_hex(&sha) {
        assert(!sha_ok(trim(tv)));
        assert(object_outcome(*run, revspec@, None));
        return None;
    }
    assert(sha_ok(trim(tv)));
    let sha_s = string_of(&sha);
    let z = match one_arg_call(run, "cat-file", "-s", sha_s.as_str(), None) {
        Ok(z) => z,
        Err(e) => {
            assert(ran(*run, size_args(trim(tv)), Err(e@)));
            assert(object_outcome(*run, revspec@, None));
            return None;
        },
    };
    let ghost zv = z@;
    assert(ran(*run, size_args(trim(tv)), Ok(zv)));
    match parse_u64(&trimmed(&chars_of(z.as_str()))) {
        Some(size) => {
            assert(parse_unsigned(trim(zv), u64::MAX as nat) == Some(size as nat));
            assert(sha_s@ == trim(tv));
            proof {
                lemma_object_found(*run, revspec@, tv, zv, size);
            }
            Some((sha_s, size))
        },
        None => {
            assert(parse_unsigned(trim(zv), u64::MAX as nat) is None);
            assert(ran(*run, rev_args(revspec@), Ok(tv)) && ran(*run, size_args(trim(tv)), Ok(zv)));
            assert(object_outcome(*run, revspec@, None));
            None
        },
    }
}

pub open spec fn bytes_answer_view(o: Result<Option<Vec<u8>>, String>) -> Result<Option<Seq<u8>>, Seq<char>> {
    match o {
        Ok(Some(b)) => Ok(Some(b@)),
        Ok(None) => Ok(None),
        Err(e) => Err(e@),
    }
}

/// `run_bytes` was asked `args` and answered `out`: the raw output, or none
/// when it hit the output cap.
pub open spec fn ran_bytes<B: Fn(Vec<String>) -> Result<Option<Vec<u8>>, String>>(
    run_bytes: B,
    args: Seq<Seq<char>>,
    out: Result<Option<Seq<u8>>, Seq<char>>,
) -> bool {
    exists|a: Vec<String>, o: Result<Option<Vec<u8>>, String>|
        #[trigger] run_bytes.ensures((a,), o) && strs(a@) == args && bytes_answer_view(o) == out
}

/// `run_bytes` may be asked anything and answers byte strings that fit in memory.
pub open spec fn bytes_runner<B: Fn(Vec<String>) -> Result<Option<Vec<u8>>, String>>(run_bytes: B) -> bool {
    &&& forall|a: Vec<String>| run_bytes.requires((a,))
    &&& forall|a: Vec<String>, o: Result<Option<Vec<u8>>, String>|
        #[trigger] run_bytes.ensures((a,), o) ==> (o matches Ok(Some(b)) ==> b@.len() <= isize::MAX)
}

/// The bytes fetched for a side: only when asked for, and only a complete,
/// successful output.
pub open spec fn fetched<B: Fn(Vec<String>) -> Result<Option<Vec<u8>>, String>>(
    run_bytes: B,
    sha: Seq<char>,
    asked: bool,
    bytes: Option<Seq<u8>>,
) -> bool {
    if !asked {
        bytes is None
    } else {
        exists|o: Result<Option<Seq<u8>>, Seq<char>>|
            #[trigger] ran_bytes(run_bytes, blob_args(sha), o) && bytes == match o {
                Ok(Some(b)) => Some(b),
                _ => None,
            }
    }
}

/// The bytes of a side are read only for an image path within the limit.
pub open spec fn worth_fetching(fetch: bool, size: u64, limit: u64) -> bool {
    fetch && size <= limit
}

/// A side read from git objects: the first revspec that names an object, its
/// bytes fetched when worth it; none when no revspec names one.
pub open spec fn object_side_outcome<
    F: Fn(Vec<String>) -> Result<String, String>,
    B: Fn(Vec<String>) -> Result<Option<Vec<u8>>, String>,
>(run: F, run_bytes: B, specs: Seq<Seq<char>>, limit: u64, fetch: bool, r: Option<BlobSideV>) -> bool {
    match r {
        None => forall|j: int| 0 <= j < specs.len() ==> object_outcome(run, #[trigger] specs[j], None),
        Some(side) => exists|k: int, sha: Seq<char>, size: u64, bytes: Option<Seq<u8>>|
            #![trigger object_outcome(run, specs[k], Some((sha, size))), fetched(run_bytes, sha, worth_fetching(fetch, size, limit), bytes)]
            0 <= k < specs.len() && (forall|j: int| 0 <= j < k ==> object_outcome(run, #[trigger] specs[j], None))
                && object_outcome(run, specs[k], Some((sha, size))) && fetched(
                run_bytes,
                sha,
                worth_fetching(fetch, size, limit),
                bytes,
            ) && side == make_side_spec(size, limit, bytes),
    }
}

pub open spec fn side_view(o: Option<BlobSide>) -> Option<BlobSideV> {
    match o {
        Some(s) => Some(s@),
        None => None,
    }
}

fn fetch_blob<B: Fn(Vec<String>) -> Result<Option<Vec<u8>>, String>>(run_bytes: &B, sha: &str) -> (r: Option<Vec<u8>>)
    requires
        bytes_runner(*run_bytes),
    ensures
        fetched(
            *run_bytes,
            sha@,
            true,
            match r {
                Some(b) => Some(b@),
                None => None,
            },
        ),
        r matches Some(b) ==> b@.len() <= isize::MAX,
{
    let mut v = Args::new();
    v.lit("cat-file");
    v.lit("blob");
    v.lit(sha);
    assert(strs(v.v@) =~= blob_args(sha@));
    let ghost av = v.v;
    let o = run_bytes(v.v);
    assert(run_bytes.ensures((av,), o));
    assert(ran_bytes(*run_bytes, blob_args(sha@), bytes_answer_view(o)));
    match o {
        Ok(Some(b)) => Some(b),
        _ => None,
    }
}

fn read_object_side<F: Fn(Vec<String>) -> Result<String, String>, B: Fn(Vec<String>) -> Result<Option<Vec<u8>>, String>>(
    run: &F,
    run_bytes: &B,
    specs: &Vec<String>,
    limit: u64,
    fetch: bool,
) -> (r: Option<BlobSide>)
    requires
        callable(*run),
        bytes_runner(*run_bytes),
    ensures
        object_side_outcome(*run, *run_bytes, strs(specs@), limit, fetch, side_view(r)),
{
    let ghost sv = strs(specs@);
    for i in 0..specs.len()
        invariant
            callable(*run),
            bytes_runner(*run_bytes),
            sv == strs(specs@),
            forall|j: int| 0 <= j < i ==> object_outcome(*run, #[trigger] sv[j], None),
    {
        assert(sv[i as int] == specs@[i as int]@);
        match object_of(run, specs[i].as_str()) {
            Some((sha, size)) => {
                let ghost shav = sha@;
                let bytes = if fetch && size <= limit {
                    fetch_blob(run_bytes, sha.as_str())
                } else {
                    None
                };
                let ghost bv = match &bytes {
                    Some(b) => Some(b@),
                    None => None::<Seq<u8>>,
                };
                assert(fetched(*run_bytes, shav, worth_fetching(fetch, size, limit), bv));
                assert(object_outcome(*run, sv[i as int], Some((shav, size))));
                let side = make_side(size, limit, bytes);
                return Some(side);
            },
            None => {},
        }
    }
    None
}

// ---------------------------------------------------------------------------
// The work-tree side

/// `size_of` was asked for the repository file `path` and answered `out`
/// (none when the path leaves the repository, is not a file, or cannot be read).
pub open spec fn sized<S: Fn(String) -> Option<u64>>(size_of: S, path: Seq<char>, out: Option<u64>) -> bool {
    exists|p: String| p@ == path && #[trigger] size_of.ensures((p,), out)
}

pub open spec fn limited_view(o: Result<(Vec<u8>, bool), String>) -> Result<(Seq<u8>, bool), Seq<char>> {
    match o {
        Ok((b, more)) => Ok((b@, more)),
        Err(e) => Err(e@),
    }
}

/// `read` was asked for at most `limit` bytes of the repository file `path`
/// and answered `out` (the bytes, and whether the file holds more).
pub open spec fn read_limited<R: Fn(String, usize) -> Result<(Vec<u8>, bool), String>>(
    read: R,
    path: Seq<char>,
    limit: usize,
    out: Result<(Seq<u8>, bool), Seq<char>>,
) -> bool {
    exists|p: String, o: Result<(Vec<u8>, bool), String>|
        #[trigger] read.ensures((p, limit), o) && p@ == path && limited_view(o) == out
}

/// `read` may be asked anything and answers at most the bytes asked for.
pub open spec fn limited_reader<R: Fn(String, usize) -> Result<(Vec<u8>, bool), String>>(read: R) -> bool {
    &&& forall|p: String, n: usize| read.requires((p, n))
    &&& forall|p: String, n: usize, o: Result<(Vec<u8>, bool), String>|
        #[trigger] read.ensures((p, n), o) ==> (o matches Ok((b, _)) ==> b@.len() <= n && b@.len() <= isize::MAX)
}

pub open spec fn sat_inc(x: u64) -> u64 {
    if x == u64::MAX {
        x
    } else {
        (x + 1) as u64
    }
}

/// The work-tree side: the file's size, its bytes when worth reading; a file
/// that grew past the limit while read is reported as over it.
pub open spec fn worktree_side_outcome<S: Fn(String) -> Option<u64>, R: Fn(String, usize) -> Result<(Vec<u8>, bool), String>>(
    size_of: S,
    read: R,
    path: Seq<char>,
    limit: u64,
    fetch: bool,
    r: Option<BlobSideV>,
) -> bool {
    (sized(size_of, path, None) && r is None) || exists|size: u64|
        #[trigger] sized(size_of, path, Some(size)) && if !(fetch && size <= limit) {
            r == Some(make_side_spec(size, limit, None))
        } else if limit > usize::MAX {
            r is None
        } else {
            exists|o: Result<(Seq<u8>, bool), Seq<char>>|
                #[trigger] read_limited(read, path, limit as usize, o) && match o {
                    Ok((b, false)) => r == Some(make_side_spec(size, limit, Some(b))),
                    Ok((_, true)) => r == Some(
                        make_side_spec(
                            if size < sat_inc(limit) {
                                sat_inc(limit)
                            } else {
                                size
                            },
                            limit,
                            None,
                        ),
                    ),
                    Err(_) => r == Some(make_side_spec(size, limit, None)),
                }
        }
}

fn read_worktree_side<S: Fn(String) -> Option<u64>, R: Fn(String, usize) -> Result<(Vec<u8>, bool), String>>(
    size_of: &S,
    read: &R,
    path: &str,
    limit: u64,
    fetch: bool,
) -> (r: Option<BlobSide>)
    requires
        forall|p: String| size_of.requires((p,)),
        limited_reader(*read),
    ensures
        worktree_side_outcome(*size_of, *read, path@, limit, fetch, side_view(r)),
{
    let p = owned(path);
    let ghost pv = p;
    let got = size_of(p);
    assert(size_of.ensures((pv,), got));
    let size = match got {
        Some(z) => z,
        None => {
            assert(sized(*size_of, path@, None));
            return None;
        },
    };
    assert(sized(*size_of, path@, Some(size)));
    if !(fetch && size <= limit) {
        return Some(make_side(size, limit, None));
    }
    if limit > usize::MAX as u64 {
        return None;
    }
    let byte_limit = limit as usize;
    let q = owned(path);
    let ghost qv = q;
    let o = read(q, byte_limit);
    assert(read.ensures((qv, byte_limit), o));
    assert(read_limited(*read, path@, byte_limit, limited_view(o)));
    match o {
        Ok((bytes, false)) => Some(make_side(size, limit, Some(bytes))),
        Ok((_, true)) => {
            let bumped = if limit == u64::MAX {
                limit
            } else {
                limit + 1
            };
            let s2 = if size < bumped {
                bumped
            } else {
                size
            };
            Some(make_side(s2, limit, None))
        },
        Err(_) => Some(make_side(size, limit, None)),
    }
}

// ---------------------------------------------------------------------------
// Both sides

#[derive(Debug)]
pub struct BinaryPreview {
    pub path: String,
    /// At least one side is an image confirmed by its magic number.
    pub image: bool,
    pub old: Option<BlobSide>,
    pub new: Option<BlobSide>,
}

pub struct BinaryPreviewV {
    pub path: Seq<char>,
    pub image: bool,
    pub old: Option<BlobSideV>,
    pub new: Option<BlobSideV>,
}

impl View for BinaryPreview {
    type V = BinaryPreviewV;

    open spec fn view(&self) -> BinaryPreviewV {
        BinaryPreviewV { path: self.path@, image: self.image, old: side_view(self.old), new: side_view(self.new) }
    }
}

pub open spec fn has_mime(s: Option<BlobSideV>) -> bool {
    s matches Some(x) && x.mime is Some
}

/// The object path: git writes `/` whatever the platform.
pub open spec fn object_path(path: Seq<char>) -> Seq<char> {
    replace_char(path, '\\', '/')
}

/// The revspecs of the old side and of the new side: a commit against its
/// first parent; the index against HEAD for staged changes; otherwise the
/// index (or HEAD) against the file on disk (no revspec for the new side).
pub open spec fn side_specs(path: Seq<char>, staged: bool, hash: Option<Seq<char>>) -> (Seq<Seq<char>>, Seq<Seq<char>>) {
    let obj = object_path(path);
    match hash {
        Some(h) => (seq![h + "^:"@ + obj], seq![h + ":"@ + obj]),
        None => if staged {
            (seq!["HEAD:"@ + obj], seq![":"@ + obj])
        } else {
            (seq![":"@ + obj, "HEAD:"@ + obj], seq![])
        },
    }
}

pub open spec fn colon_msg() -> Seq<char> {
    "路径含非法字符「:」"@
}

/// What the preview of `path` gives.
pub open spec fn preview_outcome<
    F: Fn(Vec<String>) -> Result<String, String>,
    B: Fn(Vec<String>) -> Result<Option<Vec<u8>>, String>,
    S: Fn(String) -> Option<u64>,
    R: Fn(String, usize) -> Result<(Vec<u8>, bool), String>,
>(
    git_found: bool,
    run: F,
    run_bytes: B,
    size_of: S,
    read: R,
    path: Seq<char>,
    staged: bool,
    hash: Option<Seq<char>>,
    limit: u64,
    r: Result<BinaryPreviewV, Seq<char>>,
) -> bool {
    if !git_found {
        r == Err::<BinaryPreviewV, Seq<char>>(no_git_msg())
    } else if path.contains(':') {
        r == Err::<BinaryPreviewV, Seq<char>>(colon_msg())
    } else if hash matches Some(h) && !valid_hash(h) {
        r == Err::<BinaryPreviewV, Seq<char>>(crate::git_write::hash_error(hash->0))
    } else {
        let fetch = has_image_ext_spec(path);
        let (olds, news) = side_specs(path, staged, hash);
        r matches Ok(p) && p.path == path && object_side_outcome(run, run_bytes, olds, limit, fetch, p.old) && (if news.len()
            == 0 {
            worktree_side_outcome(size_of, read, path, limit, fetch, p.new)
        } else {
            object_side_outcome(run, run_bytes, news, limit, fetch, p.new)
        }) && p.image == (has_mime(p.old) || has_mime(p.new))
    }
}

pub open spec fn preview_view(r: Result<BinaryPreview, String>) -> Result<BinaryPreviewV, Seq<char>> {
    match r {
        Ok(p) => Ok(p@),
        Err(e) => Err(e@),
    }
}

fn spec_string(prefix: &[char], mid: &str, obj: &[char]) -> (r: String)
    ensures
        r@ == prefix@ + mid@ + obj@,
{
    let mut v = crate::text::copy_chars(prefix);
    extend_chars(&mut v, &chars_of(mid));
    extend_chars(&mut v, obj);
    string_of(&v)
}

/// The preview of a binary file's two sides (`hash` given: that commit
/// against its first parent). Each side carries its size, its image type and
/// dimensions, and a data URL within `limit` bytes; the bytes are fetched only
/// for a path with an image extension.
pub fn binary_preview<
    F: Fn(Vec<String>) -> Result<String, String>,
    B: Fn(Vec<String>) -> Result<Option<Vec<u8>>, String>,
    S: Fn(String) -> Option<u64>,
    R: Fn(String, usize) -> Result<(Vec<u8>, bool), String>,
>(
    git_found: bool,
    run: &F,
    run_bytes: &B,
    size_of: &S,
    read: &R,
    path: &str,
    staged: bool,
    hash: Option<&str>,
    limit: u64,
) -> (r: Result<BinaryPreview, String>)
    requires
        callable(*run),
        bytes_runner(*run_bytes),
        forall|p: String| size_of.requires((p,)),
        limited_reader(*read),
    ensures
        preview_outcome(
            git_found,
            *run,
            *run_bytes,
            *size_of,
            *read,
            path@,
            staged,
            match hash {
                Some(h) => Some(h@),
                None => None,
            },
            limit,
            preview_view(r),
        ),
{
    if !git_found {
        return Err(owned("未找到 git.exe；请在「设置 → Git 可执行文件」指定路径，或安装 Git for Windows"));
    }
    let pc = chars_of(path);
    if has_char(&pc, ':') {
        return Err(owned("路径含非法字符「:」"));
    }
    let fetch = has_image_extension(path);
    let obj = replace_chars(&pc, '\\', '/');
    let empty: Vec<char> = Vec::new();
    let (olds, news): (Vec<String>, Vec<String>) = match hash {
        Some(h) => {
            validate_hash(h)?;
            let hc = chars_of(h);
            (vec![spec_string(&hc, "^:", &obj)], vec![spec_string(&hc, ":", &obj)])
        },
        None => if staged {
            (vec![spec_string(&empty, "HEAD:", &obj)], vec![spec_string(&empty, ":", &obj)])
        } else {
            (vec![spec_string(&empty, ":", &obj), spec_string(&empty, "HEAD:", &obj)], Vec::new())
        },
    };
    let ghost hv = match hash {
        Some(h) => Some(h@),
        None => None::<Seq<char>>,
    };
    assert(strs(olds@) =~= side_specs(path@, staged, hv).0);
    assert(strs(news@) =~= side_specs(path@, staged, hv).1);
    let old = read_object_side(run, run_bytes, &olds, limit, fetch);
    let new = if news.len() == 0 {
        read_worktree_side(size_of, read, path, limit, fetch)
    } else {
        read_object_side(run, run_bytes, &news, limit, fetch)
    };
    let old_img = match &old {
        Some(s) => s.mime.is_some(),
        None => false,
    };
    let new_img = match &new {
        Some(s) => s.mime.is_some(),
        None => false,
    };
    Ok(BinaryPreview { path: owned(path), image: old_img || new_img, old, new })
}

} // verus!
