//! Paths as text. Relative paths inside a repository are written with `/`;
//! Windows paths are split the way `std::path` splits them on Windows: an
//! optional drive (`D:`), an optional root separator, and the named parts.

use vstd::prelude::*;
use crate::text::{copy_chars, extend_chars, is_ascii_alpha, replace_char, split, split_by};

verus! {

pub open spec fn is_sep(c: char) -> bool {
    c == '\\' || c == '/'
}

/// The pieces that name something: empty pieces and `.` are dropped.
pub open spec fn keep_parts(ps: Seq<Seq<char>>) -> Seq<Seq<char>>
    decreases ps.len(),
{
    if ps.len() == 0 {
        Seq::empty()
    } else {
        let prev = keep_parts(ps.drop_last());
        let p = ps.last();
        if p.len() == 0 || p == seq!['.'] {
            prev
        } else {
            prev.push(p)
        }
    }
}

/// The named parts of a path written with `/` or `\`.
pub open spec fn parts(s: Seq<char>) -> Seq<Seq<char>> {
    keep_parts(split(replace_char(s, '\\', '/'), '/'))
}

/// The pieces joined with `sep` between them.
pub open spec fn join_with(ps: Seq<Seq<char>>, sep: char) -> Seq<char>
    decreases ps.len(),
{
    if ps.len() == 0 {
        Seq::empty()
    } else if ps.len() == 1 {
        ps[0]
    } else {
        join_with(ps.drop_last(), sep).push(sep) + ps.last()
    }
}

/// `s` with every `from` replaced by `to`.
pub fn replace_chars(s: &[char], from: char, to: char) -> (r: Vec<char>)
    ensures
        r@ == replace_char(s@, from, to),
{
    let mut out: Vec<char> = Vec::new();
    let n = s.len();
    for i in 0..n
        invariant
            n == s@.len(),
            out@ == replace_char(s@.take(i as int), from, to),
    {
        if s[i] == from {
            out.push(to);
        } else {
            out.push(s[i]);
        }
        assert(out@ =~= replace_char(s@.take(i + 1), from, to));
    }
    assert(s@.take(n as int) == s@);
    out
}

fn is_dot(p: &[char]) -> (r: bool)
    ensures
        r == (p@ == seq!['.']),
{
    if p.len() == 1 && p[0] == '.' {
        assert(p@ =~= seq!['.']);
        true
    } else {
        false
    }
}

/// The named parts of `s` (see `parts`).
pub fn parts_of(s: &[char]) -> (r: Vec<Vec<char>>)
    ensures
        r@.map_values(|x: Vec<char>| x@) == parts(s@),
{
    let slashed = replace_chars(s, '\\', '/');
    let pieces = split_by(&slashed, '/');
    let ghost ps = split(slashed@, '/');
    let mut out: Vec<Vec<char>> = Vec::new();
    let n = pieces.len();
    for i in 0..n
        invariant
            n == pieces@.len(),
            n == ps.len(),
            forall|k: int| 0 <= k < n ==> #[trigger] pieces@[k]@ == ps[k],
            out@.map_values(|x: Vec<char>| x@) == keep_parts(ps.take(i as int)),
    {
        let ghost ov = out@.map_values(|x: Vec<char>| x@);
        assert(ps.take(i + 1).drop_last() == ps.take(i as int));
        assert(ps.take(i + 1).last() == pieces@[i as int]@);
        let p = &pieces[i];
        if p.len() > 0 && !is_dot(p) {
            let c = copy_chars(p);
            let ghost cv = c@;
            out.push(c);
            assert(out@.map_values(|x: Vec<char>| x@) =~= ov.push(cv));
        }
    }
    assert(ps.take(n as int) == ps);
    out
}

/// The pieces joined with `sep` between them.
pub fn join_parts(ps: &Vec<Vec<char>>, sep: char) -> (r: Vec<char>)
    ensures
        r@ == join_with(ps@.map_values(|x: Vec<char>| x@), sep),
{
    let ghost pv = ps@.map_values(|x: Vec<char>| x@);
    let mut out: Vec<char> = Vec::new();
    let n = ps.len();
    for i in 0..n
        invariant
            n == ps@.len(),
            pv == ps@.map_values(|x: Vec<char>| x@),
            out@ == join_with(pv.take(i as int), sep),
    {
        assert(pv.take(i + 1).drop_last() == pv.take(i as int));
        assert(pv.take(i + 1).last() == ps@[i as int]@);
        if i > 0 {
            out.push(sep);
        } else {
            assert(pv.take(1)[0] == ps@[0]@);
        }
        extend_chars(&mut out, &ps[i]);
    }
    assert(pv.take(n as int) == pv);
    out
}

// ---------------------------------------------------------------------------
// Windows paths

pub open spec fn has_drive(s: Seq<char>) -> bool {
    s.len() >= 2 && is_ascii_alpha(s[0]) && s[1] == ':'
}

/// The drive prefix of `s` (`D:`), or nothing.
pub open spec fn drive(s: Seq<char>) -> Seq<char> {
    if has_drive(s) {
        s.take(2)
    } else {
        Seq::empty()
    }
}

pub open spec fn after_drive(s: Seq<char>) -> Seq<char> {
    if has_drive(s) {
        s.skip(2)
    } else {
        s
    }
}

/// A separator follows the drive (or starts the path).
pub open spec fn has_root(s: Seq<char>) -> bool {
    after_drive(s).len() > 0 && is_sep(after_drive(s)[0])
}

/// Absolute on Windows: a drive and a root.
pub open spec fn is_absolute_path(s: Seq<char>) -> bool {
    has_drive(s) && has_root(s)
}

pub fn is_absolute_chars(s: &[char]) -> (r: bool)
    ensures
        r == is_absolute_path(s@),
{
    if !has_drive_exec(s) {
        return false;
    }
    assert(after_drive(s@) == s@.skip(2));
    s.len() > 2 && is_sep_char(s[2])
}

/// Drive, root and named parts of `s`.
pub open spec fn split_path(s: Seq<char>) -> (Seq<char>, bool, Seq<Seq<char>>) {
    (drive(s), has_root(s), parts(after_drive(s)))
}

/// A split path written back with `\` separators.
pub open spec fn render_path(p: (Seq<char>, bool, Seq<Seq<char>>)) -> Seq<char> {
    p.0 + (if p.1 {
        seq!['\\']
    } else {
        Seq::empty()
    }) + join_with(p.2, '\\')
}

/// `s` rebuilt from its components: separators unified to `\`, repeated and
/// trailing separators and `.` parts dropped.
pub open spec fn normalize_path(s: Seq<char>) -> Seq<char> {
    render_path(split_path(s))
}

/// `Path::join` on split paths: a path with a drive replaces the base, a rooted
/// one keeps only the base's drive, a relative one is appended.
pub open spec fn join_split(
    a: (Seq<char>, bool, Seq<Seq<char>>),
    b: (Seq<char>, bool, Seq<Seq<char>>),
) -> (Seq<char>, bool, Seq<Seq<char>>) {
    if b.0.len() > 0 {
        b
    } else if b.1 {
        (a.0, true, b.2)
    } else {
        (a.0, a.1, a.2 + b.2)
    }
}

/// `base` joined with `p`, then normalized.
pub open spec fn join_normalized(base: Seq<char>, p: Seq<char>) -> Seq<char> {
    render_path(join_split(split_path(base), split_path(p)))
}

/// `Path::join` as written, without normalizing.
pub open spec fn join_raw(base: Seq<char>, p: Seq<char>) -> Seq<char> {
    if has_drive(p) {
        p
    } else if p.len() > 0 && is_sep(p[0]) {
        drive(base) + p
    } else if base.len() == 0 || is_sep(base.last()) || (has_drive(base) && base.len() == 2) {
        base + p
    } else {
        base.push('\\') + p
    }
}

fn is_sep_char(c: char) -> (r: bool)
    ensures
        r == is_sep(c),
{
    c == '\\' || c == '/'
}

fn has_drive_exec(s: &[char]) -> (r: bool)
    ensures
        r == has_drive(s@),
{
    s.len() >= 2 && ((s[0] >= 'a' && s[0] <= 'z') || (s[0] >= 'A' && s[0] <= 'Z')) && s[1] == ':'
}

/// Drive, root and named parts of `s`.
pub fn split_path_exec(s: &[char]) -> (r: (Vec<char>, bool, Vec<Vec<char>>))
    ensures
        r.0@ == split_path(s@).0,
        r.1 == split_path(s@).1,
        r.2@.map_values(|x: Vec<char>| x@) == split_path(s@).2,
{
    let d = has_drive_exec(s);
    let start: usize = if d { 2 } else { 0 };
    let mut dv: Vec<char> = Vec::new();
    let mut rest: Vec<char> = Vec::new();
    for i in 0..s.len()
        invariant
            start <= s@.len(),
            dv@ == s@.take(if i < start { i as int } else { start as int }),
            rest@ == (if i < start { Seq::empty() } else { s@.subrange(start as int, i as int) }),
    {
        if i < start {
            dv.push(s[i]);
            assert(dv@ =~= s@.take(i + 1));
        } else {
            rest.push(s[i]);
            assert(rest@ =~= s@.subrange(start as int, i + 1));
        }
    }
    if s.len() < start {
    } else {
        assert(rest@ =~= s@.skip(start as int));
    }
    assert(dv@ =~= drive(s@));
    assert(rest@ =~= after_drive(s@));
    let rooted = rest.len() > 0 && is_sep_char(rest[0]);
    let names = parts_of(&rest);
    (dv, rooted, names)
}

fn render_exec(d: &[char], rooted: bool, names: &Vec<Vec<char>>) -> (r: Vec<char>)
    ensures
        r@ == render_path((d@, rooted, names@.map_values(|x: Vec<char>| x@))),
{
    let mut out = copy_chars(d);
    if rooted {
        out.push('\\');
    }
    let j = join_parts(names, '\\');
    extend_chars(&mut out, &j);
    out
}

/// `s` rebuilt from its components (`Path::components().collect()`).
pub fn normalize_path_chars(s: &[char]) -> (r: Vec<char>)
    ensures
        r@ == normalize_path(s@),
{
    let (d, rooted, names) = split_path_exec(s);
    render_exec(&d, rooted, &names)
}

/// `base.join(p)` rebuilt from its components.
pub fn join_normalized_chars(base: &[char], p: &[char]) -> (r: Vec<char>)
    ensures
        r@ == join_normalized(base@, p@),
{
    let (ad, ar, an) = split_path_exec(base);
    let (bd, br, bn) = split_path_exec(p);
    if bd.len() > 0 {
        render_exec(&bd, br, &bn)
    } else if br {
        render_exec(&ad, true, &bn)
    } else {
        let mut names = an;
        let ghost a2 = names@.map_values(|x: Vec<char>| x@);
        let ghost b2 = bn@.map_values(|x: Vec<char>| x@);
        let mut k: usize = 0;
        while k < bn.len()
            invariant
                k <= bn@.len(),
                b2 == bn@.map_values(|x: Vec<char>| x@),
                names@.map_values(|x: Vec<char>| x@) == a2 + b2.take(k as int),
            decreases bn@.len() - k,
        {
            let ghost nv = names@.map_values(|x: Vec<char>| x@);
            let c = copy_chars(&bn[k]);
            names.push(c);
            assert(names@.map_values(|x: Vec<char>| x@) =~= nv.push(bn@[k as int]@));
            assert(b2.take(k + 1) =~= b2.take(k as int).push(bn@[k as int]@));
            k = k + 1;
        }
        assert(b2.take(bn@.len() as int) == b2);
        render_exec(&ad, ar, &names)
    }
}

/// `base.join(p)` as written (`Path::join` on Windows).
pub fn join_raw_chars(base: &[char], p: &[char]) -> (r: Vec<char>)
    ensures
        r@ == join_raw(base@, p@),
{
    if has_drive_exec(p) {
        copy_chars(p)
    } else if p.len() > 0 && is_sep_char(p[0]) {
        let (d, _, _) = split_path_exec(base);
        let mut out = d;
        extend_chars(&mut out, p);
        out
    } else {
        let mut out = copy_chars(base);
        let bare_drive = has_drive_exec(base) && base.len() == 2;
        if !(base.len() == 0 || is_sep_char(base[base.len() - 1]) || bare_drive) {
            out.push('\\');
        }
        extend_chars(&mut out, p);
        out
    }
}

} // verus!
