//! Character-level text utilities shared by the parsers and command builders.
//!
//! Texts are modelled as `Seq<char>`; every executable helper states its result
//! over that model.

use vstd::prelude::*;

verus! {

/// Unicode `White_Space`, the set that `char::is_whitespace` and `str::trim` use.
pub open spec fn is_ws(c: char) -> bool {
    ||| ('\u{9}' <= c && c <= '\u{d}')
    ||| c == ' '
    ||| c == '\u{85}'
    ||| c == '\u{a0}'
    ||| c == '\u{1680}'
    ||| ('\u{2000}' <= c && c <= '\u{200a}')
    ||| c == '\u{2028}'
    ||| c == '\u{2029}'
    ||| c == '\u{202f}'
    ||| c == '\u{205f}'
    ||| c == '\u{3000}'
}

/// Unicode general category `Cc`, the set that `char::is_control` uses.
pub open spec fn is_ctrl(c: char) -> bool {
    c <= '\u{1f}' || ('\u{7f}' <= c && c <= '\u{9f}')
}

pub fn is_whitespace(c: char) -> (b: bool)
    ensures
        b == is_ws(c),
{
    ('\u{9}' <= c && c <= '\u{d}') || c == ' ' || c == '\u{85}' || c == '\u{a0}' || c == '\u{1680}'
        || ('\u{2000}' <= c && c <= '\u{200a}') || c == '\u{2028}' || c == '\u{2029}' || c
        == '\u{202f}' || c == '\u{205f}' || c == '\u{3000}'
}

pub fn is_control(c: char) -> (b: bool)
    ensures
        b == is_ctrl(c),
{
    c <= '\u{1f}' || ('\u{7f}' <= c && c <= '\u{9f}')
}

pub open spec fn is_ascii_digit(c: char) -> bool {
    '0' <= c && c <= '9'
}

pub open spec fn is_ascii_alpha(c: char) -> bool {
    ('a' <= c && c <= 'z') || ('A' <= c && c <= 'Z')
}

pub open spec fn is_hex_digit(c: char) -> bool {
    is_ascii_digit(c) || ('a' <= c && c <= 'f') || ('A' <= c && c <= 'F')
}

pub open spec fn lower_char(c: char) -> char {
    if 'A' <= c && c <= 'Z' {
        ((c as u32) + 32) as char
    } else {
        c
    }
}

pub fn to_lower_char(c: char) -> (r: char)
    ensures
        r == lower_char(c),
{
    if 'A' <= c && c <= 'Z' {
        let u: u32 = (c as u32) + 32;
        assert(0x61 <= u <= 0x7a);
        u as u8 as char
    } else {
        c
    }
}

/// `s` with ASCII upper-case letters mapped to lower case.
pub open spec fn lower(s: Seq<char>) -> Seq<char> {
    s.map_values(|c: char| lower_char(c))
}

/// `s` with every `from` replaced by `to`.
pub open spec fn replace_char(s: Seq<char>, from: char, to: char) -> Seq<char> {
    s.map_values(|c: char| if c == from { to } else { c })
}

/// `s` without leading white space.
pub open spec fn trim_start(s: Seq<char>) -> Seq<char>
    decreases s.len(),
{
    if s.len() > 0 && is_ws(s[0]) {
        trim_start(s.drop_first())
    } else {
        s
    }
}

/// `s` without trailing white space.
pub open spec fn trim_end(s: Seq<char>) -> Seq<char>
    decreases s.len(),
{
    if s.len() > 0 && is_ws(s.last()) {
        trim_end(s.drop_last())
    } else {
        s
    }
}

/// `s` without leading and trailing white space (`str::trim`).
pub open spec fn trim(s: Seq<char>) -> Seq<char> {
    trim_end(trim_start(s))
}

proof fn lemma_trim_end_keeps(s: Seq<char>, k: int)
    requires
        0 <= k < s.len(),
        !is_ws(s[k]),
    ensures
        trim_end(s).len() > k,
    decreases s.len(),
{
    if s.len() > 0 && is_ws(s.last()) {
        assert(k < s.len() - 1);
        assert(s.drop_last()[k] == s[k]);
        lemma_trim_end_keeps(s.drop_last(), k);
    }
}

/// A string whose first char is not white space does not trim to nothing.
pub proof fn lemma_trim_keeps_non_ws(s: Seq<char>, k: int)
    requires
        k == 0,
        0 < s.len(),
        !is_ws(s[0]),
    ensures
        trim(s).len() > 0,
{
    assert(trim_start(s) == s);
    lemma_trim_end_keeps(s, 0);
}

pub open spec fn is_blank(s: Seq<char>) -> bool {
    trim(s).len() == 0
}

/// The pieces of `s` between occurrences of `sep` (`str::split` with a char).
pub open spec fn split(s: Seq<char>, sep: char) -> Seq<Seq<char>>
    decreases s.len(),
{
    if s.len() == 0 {
        seq![Seq::<char>::empty()]
    } else {
        let prev = split(s.drop_last(), sep);
        if s.last() == sep {
            prev.push(Seq::<char>::empty())
        } else {
            prev.update(prev.len() - 1, prev.last().push(s.last()))
        }
    }
}

/// `s` with one trailing `c` removed, if it ends with one.
pub open spec fn strip_last(s: Seq<char>, c: char) -> Seq<char> {
    if s.len() > 0 && s.last() == c {
        s.drop_last()
    } else {
        s
    }
}

/// Number of lines of `s` (`str::lines`): the pieces between `\n`, without the
/// empty piece after a final `\n`.
pub open spec fn lines_count(s: Seq<char>) -> nat {
    let p = split(s, '\n');
    if p.last().len() == 0 {
        (p.len() - 1) as nat
    } else {
        p.len()
    }
}

/// The lines of `s` as `str::lines` yields them: a `\r` right before a `\n` is
/// dropped with it.
pub open spec fn lines(s: Seq<char>) -> Seq<Seq<char>> {
    let p = split(s, '\n');
    Seq::new(lines_count(s), |k: int| if k < p.len() - 1 { strip_last(p[k], '\r') } else { p[k] })
}

pub open spec fn starts_with(s: Seq<char>, p: Seq<char>) -> bool {
    p.len() <= s.len() && s.take(p.len() as int) == p
}

pub open spec fn ends_with(s: Seq<char>, p: Seq<char>) -> bool {
    p.len() <= s.len() && s.skip(s.len() - p.len()) == p
}

/// `t` occurs in `s` as a contiguous piece.
pub open spec fn contains_seq(s: Seq<char>, t: Seq<char>) -> bool {
    exists|i: int| 0 <= i <= s.len() - t.len() && #[trigger] s.subrange(i, i + t.len()) == t
}

pub proof fn lemma_split_nonempty(s: Seq<char>, sep: char)
    ensures
        split(s, sep).len() >= 1,
    decreases s.len(),
{
    if s.len() > 0 {
        lemma_split_nonempty(s.drop_last(), sep);
    }
}

/// `str::split` gives at most one piece more than there are chars.
pub proof fn lemma_split_len_le(s: Seq<char>, sep: char)
    ensures
        split(s, sep).len() <= s.len() + 1,
    decreases s.len(),
{
    if s.len() > 0 {
        lemma_split_len_le(s.drop_last(), sep);
        lemma_split_nonempty(s.drop_last(), sep);
        let prev = split(s.drop_last(), sep);
        if s.last() == sep {
            assert(split(s, sep) == prev.push(Seq::<char>::empty()));
        } else {
            assert(split(s, sep) == prev.update(prev.len() - 1, prev.last().push(s.last())));
        }
    }
}

/// `s` without any trailing `c` (`str::trim_end_matches` with a char).
pub open spec fn trim_end_char(s: Seq<char>, c: char) -> Seq<char>
    decreases s.len(),
{
    if s.len() > 0 && s.last() == c {
        trim_end_char(s.drop_last(), c)
    } else {
        s
    }
}

pub fn trim_end_char_vec(s: &[char], c: char) -> (r: Vec<char>)
    ensures
        r@ == trim_end_char(s@, c),
{
    let mut end = s.len();
    assert(s@.take(end as int) == s@);
    while end > 0 && s[end - 1] == c
        invariant
            end <= s@.len(),
            trim_end_char(s@.take(end as int), c) == trim_end_char(s@, c),
        decreases end,
    {
        assert(s@.take(end as int).drop_last() == s@.take(end - 1));
        end = end - 1;
    }
    assert(s@.take(end as int) == s@.subrange(0, end as int));
    slice_vec(s, 0, end)
}

/// `s` without any leading `c` (`str::trim_start_matches` with a char).
pub open spec fn trim_start_char(s: Seq<char>, c: char) -> Seq<char>
    decreases s.len(),
{
    if s.len() > 0 && s[0] == c {
        trim_start_char(s.drop_first(), c)
    } else {
        s
    }
}

/// The white-space separated words of `s` (`str::split_whitespace`).
pub open spec fn words(s: Seq<char>) -> Seq<Seq<char>>
    decreases s.len(),
{
    if s.len() == 0 {
        Seq::empty()
    } else {
        let prev = words(s.drop_last());
        if is_ws(s.last()) {
            prev
        } else if s.len() > 1 && !is_ws(s[s.len() - 2]) {
            prev.update(prev.len() - 1, prev.last().push(s.last()))
        } else {
            prev.push(seq![s.last()])
        }
    }
}

/// Index of the first `c` in `s`.
pub open spec fn find_char(s: Seq<char>, c: char) -> Option<int>
    decreases s.len(),
{
    if s.len() == 0 {
        None
    } else if s[0] == c {
        Some(0)
    } else {
        match find_char(s.drop_first(), c) {
            Some(i) => Some(i + 1),
            None => None,
        }
    }
}

/// `str::splitn(n, sep)`: at most `n` pieces, the last holding the rest.
pub open spec fn splitn(s: Seq<char>, n: nat, sep: char) -> Seq<Seq<char>>
    decreases n,
{
    if n <= 1 {
        seq![s]
    } else {
        match find_char(s, sep) {
            None => seq![s],
            Some(i) => seq![s.take(i)] + splitn(s.skip(i + 1), (n - 1) as nat, sep),
        }
    }
}

// ---------------------------------------------------------------------------
// Strings

/// `String::push` of std: appends one character.
#[verifier::external_body]
pub fn push_char(s: &mut String, c: char)
    ensures
        final(s)@ == old(s)@.push(c),
{
    s.push(c);
}

/// The characters of `s`, in order.
pub fn chars_of(s: &str) -> (v: Vec<char>)
    ensures
        v@ == s@,
{
    let mut v: Vec<char> = Vec::new();
    for c in it: s.chars()
        invariant
            v@ == it.seq().take(it.index() as int),
    {
        v.push(c);
    }
    v
}

/// A `String` holding exactly the characters of `v`.
pub fn string_of(v: &[char]) -> (s: String)
    ensures
        s@ == v@,
{
    let mut s = String::new();
    let n = v.len();
    for i in 0..n
        invariant
            n == v@.len(),
            s@ == v@.take(i as int),
    {
        push_char(&mut s, v[i]);
        assert(v@.take(i + 1) == v@.take(i as int).push(v@[i as int]));
    }
    assert(v@.take(n as int) == v@);
    s
}

/// A copy of the literal or slice `s` as an owned `String`.
pub fn owned(s: &str) -> (r: String)
    ensures
        r@ == s@,
{
    s.to_owned()
}

/// `a` followed by `b`.
pub fn cat(a: &str, b: &str) -> (r: String)
    ensures
        r@ == a@ + b@,
{
    let mut r = s_own(a);
    r.append(b);
    r
}

fn s_own(s: &str) -> (r: String)
    ensures
        r@ == s@,
{
    s.to_owned()
}

// ---------------------------------------------------------------------------
// Character vectors

pub fn vec_eq(a: &[char], b: &[char]) -> (r: bool)
    ensures
        r == (a@ == b@),
{
    if a.len() != b.len() {
        return false;
    }
    let n = a.len();
    for i in 0..n
        invariant
            n == a@.len(),
            n == b@.len(),
            forall|j: int| 0 <= j < i ==> a@[j] == b@[j],
    {
        if a[i] != b[i] {
            return false;
        }
    }
    assert(a@ =~= b@);
    true
}

pub fn has_prefix(s: &[char], p: &[char]) -> (r: bool)
    ensures
        r == starts_with(s@, p@),
{
    if p.len() > s.len() {
        return false;
    }
    let n = p.len();
    for i in 0..n
        invariant
            n == p@.len(),
            n <= s@.len(),
            forall|j: int| 0 <= j < i ==> s@[j] == p@[j],
    {
        if s[i] != p[i] {
            assert(s@.take(n as int)[i as int] != p@[i as int]);
            return false;
        }
    }
    assert(s@.take(n as int) =~= p@);
    true
}

pub fn has_suffix(s: &[char], p: &[char]) -> (r: bool)
    ensures
        r == ends_with(s@, p@),
{
    if p.len() > s.len() {
        return false;
    }
    let n = p.len();
    let off = s.len() - n;
    for i in 0..n
        invariant
            n == p@.len(),
            off + n == s.len(),
            n == p.len(),
            forall|j: int| 0 <= j < i ==> s@[off + j] == p@[j],
    {
        if s[off + i] != p[i] {
            assert(s@.skip(off as int)[i as int] != p@[i as int]);
            return false;
        }
    }
    assert(s@.skip(off as int) =~= p@);
    true
}

/// Whether `c` occurs in `s`.
pub fn has_char(s: &[char], c: char) -> (r: bool)
    ensures
        r == s@.contains(c),
{
    let n = s.len();
    assert(s@.skip(0) == s@);
    for i in 0..n
        invariant
            n == s@.len(),
            forall|j: int| 0 <= j < i ==> s@[j] != c,
    {
        if s[i] == c {
            assert(s@[i as int] == c);
            return true;
        }
    }
    false
}

/// Whether `t` occurs in `s` as a contiguous piece (`str::contains`).
pub fn has_seq(s: &[char], t: &[char]) -> (r: bool)
    ensures
        r == contains_seq(s@, t@),
{
    if t.len() > s.len() {
        return false;
    }
    let last = s.len() - t.len();
    let mut i: usize = 0;
    while i <= last
        invariant
            last + t.len() == s.len(),
            i <= last + 1,
            forall|k: int| 0 <= k < i ==> #[trigger] s@.subrange(k, k + t@.len()) != t@,
        decreases last + 1 - i,
    {
        let mut ok = true;
        let m = t.len();
        for j in 0..m
            invariant
                m == t@.len(),
                i <= last,
                last + t.len() == s.len(),
                m == t.len(),
                ok == (forall|q: int| 0 <= q < j ==> s@[i + q] == t@[q]),
        {
            if s[i + j] != t[j] {
                ok = false;
            }
        }
        if ok {
            assert(s@.subrange(i as int, i + t@.len()) =~= t@);
            return true;
        }
        assert(s@.subrange(i as int, i + t@.len()) != t@) by {
            let w = choose|q: int| 0 <= q < m && s@[i + q] != t@[q];
            assert(s@.subrange(i as int, i + t@.len())[w] != t@[w]);
        }
        i = i + 1;
    }
    false
}

/// The characters `s[from..to]`.
pub fn slice_vec(s: &[char], from: usize, to: usize) -> (r: Vec<char>)
    requires
        from <= to <= s@.len(),
    ensures
        r@ == s@.subrange(from as int, to as int),
{
    let mut r: Vec<char> = Vec::new();
    for i in from..to
        invariant
            from <= to <= s@.len(),
            r@ == s@.subrange(from as int, i as int),
    {
        r.push(s[i]);
        assert(s@.subrange(from as int, i + 1) == s@.subrange(from as int, i as int).push(s@[i as int]));
    }
    r
}

/// A copy of `s`.
pub fn copy_chars(s: &[char]) -> (r: Vec<char>)
    ensures
        r@ == s@,
{
    let r = slice_vec(s, 0, s.len());
    assert(s@.subrange(0, s@.len() as int) == s@);
    r
}

/// Appends the characters of `t` to `v`.
pub fn extend_chars(v: &mut Vec<char>, t: &[char])
    ensures
        final(v)@ == old(v)@ + t@,
{
    let n = t.len();
    for i in 0..n
        invariant
            n == t@.len(),
            v@ == old(v)@ + t@.take(i as int),
    {
        v.push(t[i]);
        assert(t@.take(i + 1) == t@.take(i as int).push(t@[i as int]));
    }
    assert(t@.take(n as int) == t@);
}

proof fn lemma_trim_start_skip(s: Seq<char>, i: int)
    requires
        0 <= i <= s.len(),
        forall|j: int| 0 <= j < i ==> is_ws(s[j]),
    ensures
        trim_start(s) == trim_start(s.skip(i)),
    decreases i,
{
    if i > 0 {
        assert(is_ws(s[0]));
        assert(trim_start(s) == trim_start(s.drop_first()));
        assert forall|j: int| 0 <= j < i - 1 implies is_ws(s.drop_first()[j]) by {
            assert(s.drop_first()[j] == s[j + 1]);
        }
        lemma_trim_start_skip(s.drop_first(), i - 1);
        assert(s.drop_first().skip(i - 1) == s.skip(i));
    } else {
        assert(s.skip(0) == s);
    }
}

proof fn lemma_trim_end_take(s: Seq<char>, i: int)
    requires
        0 <= i <= s.len(),
        forall|j: int| i <= j < s.len() ==> is_ws(s[j]),
    ensures
        trim_end(s) == trim_end(s.take(i)),
    decreases s.len() - i,
{
    if i < s.len() {
        lemma_trim_end_take(s.drop_last(), i);
        assert(s.drop_last().take(i) == s.take(i));
    } else {
        assert(s.take(i) == s);
    }
}

proof fn lemma_trim_end_shape(t: Seq<char>)
    ensures
        trim_end(t).len() <= t.len(),
        trim_end(t) == t.take(trim_end(t).len() as int),
        trim_end(t).len() > 0 ==> !is_ws(trim_end(t).last()),
    decreases t.len(),
{
    if t.len() > 0 && is_ws(t.last()) {
        lemma_trim_end_shape(t.drop_last());
        assert(t.drop_last().take(trim_end(t).len() as int) == t.take(trim_end(t).len() as int));
    } else {
        assert(t.take(t.len() as int) == t);
    }
}

proof fn lemma_trim_start_shape(s: Seq<char>)
    ensures
        trim_start(s).len() <= s.len(),
        trim_start(s) == s.skip(s.len() - trim_start(s).len()),
        trim_start(s).len() > 0 ==> !is_ws(trim_start(s)[0]),
    decreases s.len(),
{
    if s.len() > 0 && is_ws(s[0]) {
        lemma_trim_start_shape(s.drop_first());
        assert(s.drop_first().skip(s.drop_first().len() - trim_start(s).len()) == s.skip(
            s.len() - trim_start(s).len(),
        ));
    } else {
        assert(s.skip(0) == s);
    }
}

/// Trimming twice trims nothing more.
pub proof fn lemma_trim_idempotent(s: Seq<char>)
    ensures
        trim(trim(s)) == trim(s),
{
    let u = trim_start(s);
    lemma_trim_start_shape(s);
    lemma_trim_end_shape(u);
    let t = trim(s);
    if t.len() > 0 {
        assert(t[0] == u[0]);
        assert(trim_start(t) == t);
        assert(trim_end(t) == t);
    } else {
        assert(trim_start(t) == t);
    }
}

/// Start and end of the trimmed part of `s`.
pub fn trim_bounds(s: &[char]) -> (r: (usize, usize))
    ensures
        r.0 <= r.1 <= s@.len(),
        s@.subrange(r.0 as int, r.1 as int) == trim(s@),
{
    let mut a: usize = 0;
    while a < s.len() && is_whitespace(s[a])
        invariant
            a <= s@.len(),
            forall|j: int| 0 <= j < a ==> is_ws(s@[j]),
        decreases s@.len() - a,
    {
        a = a + 1;
    }
    let mut b: usize = s.len();
    while b > a && is_whitespace(s[b - 1])
        invariant
            a <= b <= s@.len(),
            forall|j: int| b <= j < s@.len() ==> is_ws(s@[j]),
        decreases b,
    {
        b = b - 1;
    }
    proof {
        lemma_trim_start_skip(s@, a as int);
        let t = s@.skip(a as int);
        if a < s@.len() {
            assert(!is_ws(t[0]));
        }
        assert(trim_start(t) == t);
        assert forall|j: int| b - a <= j < t.len() implies is_ws(t[j]) by {
            assert(t[j] == s@[a + j]);
        }
        lemma_trim_end_take(t, b - a);
        let u = t.take(b - a);
        if b > a {
            assert(u.last() == s@[b - 1]);
        }
        assert(trim_end(u) == u);
        assert(u =~= s@.subrange(a as int, b as int));
    }
    (a, b)
}

/// `str::trim` on a character vector.
pub fn trimmed(s: &[char]) -> (r: Vec<char>)
    ensures
        r@ == trim(s@),
{
    let (a, b) = trim_bounds(s);
    slice_vec(s, a, b)
}

/// `str::trim_end` on a character vector.
pub fn trimmed_end(s: &[char]) -> (r: Vec<char>)
    ensures
        r@ == trim_end(s@),
{
    let mut b: usize = s.len();
    while b > 0 && is_whitespace(s[b - 1])
        invariant
            b <= s@.len(),
            forall|j: int| b <= j < s@.len() ==> is_ws(s@[j]),
        decreases b,
    {
        b = b - 1;
    }
    proof {
        lemma_trim_end_take(s@, b as int);
        assert(trim_end(s@.take(b as int)) == s@.take(b as int));
        assert(s@.take(b as int) =~= s@.subrange(0, b as int));
    }
    slice_vec(s, 0, b)
}

/// Whether `s` is empty after trimming.
pub fn blank(s: &[char]) -> (r: bool)
    ensures
        r == is_blank(s@),
{
    let (a, b) = trim_bounds(s);
    a == b
}

/// `str::split` by one character.
pub fn split_by(s: &[char], sep: char) -> (r: Vec<Vec<char>>)
    ensures
        r@.len() == split(s@, sep).len(),
        forall|k: int| 0 <= k < r@.len() ==> #[trigger] r@[k]@ == split(s@, sep)[k],
{
    let mut done: Vec<Vec<char>> = Vec::new();
    let mut cur: Vec<char> = Vec::new();
    let n = s.len();
    for i in 0..n
        invariant
            n == s@.len(),
            done@.len() + 1 == split(s@.take(i as int), sep).len(),
            forall|k: int| 0 <= k < done@.len() ==> #[trigger] done@[k]@ == split(s@.take(i as int), sep)[k],
            cur@ == split(s@.take(i as int), sep).last(),
    {
        let ghost prev = split(s@.take(i as int), sep);
        assert(s@.take(i + 1).drop_last() == s@.take(i as int));
        if s[i] == sep {
            done.push(cur);
            cur = Vec::new();
        } else {
            cur.push(s[i]);
        }
        proof {
            lemma_split_nonempty(s@.take(i as int), sep);
        }
    }
    done.push(cur);
    assert(s@.take(n as int) == s@);
    done
}

/// The lines of `s`, as `str::lines` yields them.
pub fn lines_of(s: &[char]) -> (r: Vec<Vec<char>>)
    ensures
        r@.len() == lines(s@).len(),
        forall|k: int| 0 <= k < r@.len() ==> #[trigger] r@[k]@ == lines(s@)[k],
{
    let pieces = split_by(s, '\n');
    proof {
        lemma_split_nonempty(s@, '\n');
    }
    let np = pieces.len();
    let count = if pieces[np - 1].len() == 0 { np - 1 } else { np };
    let mut out: Vec<Vec<char>> = Vec::new();
    for k in 0..count
        invariant
            np == split(s@, '\n').len(),
            np >= 1,
            count == lines_count(s@),
            pieces@.len() == np,
            forall|q: int| 0 <= q < np ==> #[trigger] pieces@[q]@ == split(s@, '\n')[q],
            out@.len() == k,
            forall|q: int| 0 <= q < k ==> #[trigger] out@[q]@ == lines(s@)[q],
    {
        let p = &pieces[k];
        let mut line: Vec<char> = slice_vec(p, 0, p.len());
        if k + 1 < np && line.len() > 0 && line[line.len() - 1] == '\r' {
            line.pop();
        }
        proof {
            assert(line@ == lines(s@)[k as int]);
        }
        out.push(line);
    }
    out
}


/// `str::trim_start_matches` with one character.
pub fn trim_start_char_vec(s: &[char], c: char) -> (r: Vec<char>)
    ensures
        r@ == trim_start_char(s@, c),
{
    let mut a: usize = 0;
    assert(s@.skip(0) == s@);
    while a < s.len() && s[a] == c
        invariant
            a <= s@.len(),
            trim_start_char(s@, c) == trim_start_char(s@.skip(a as int), c),
        decreases s@.len() - a,
    {
        proof {
            let t = s@.skip(a as int);
            assert(t.drop_first() == s@.skip(a + 1));
        }
        a = a + 1;
    }
    proof {
        assert(s@.skip(0) == s@);
    }
    slice_vec(s, a, s.len())
}

proof fn lemma_words_nonempty_end(s: Seq<char>)
    requires
        s.len() > 0,
        !is_ws(s.last()),
    ensures
        words(s).len() > 0,
    decreases s.len(),
{
    if s.len() > 1 && !is_ws(s[s.len() - 2]) {
        assert(s.drop_last().last() == s[s.len() - 2]);
        lemma_words_nonempty_end(s.drop_last());
    }
}

/// `str::split_whitespace`.
pub fn words_of(s: &[char]) -> (r: Vec<Vec<char>>)
    ensures
        r@.len() == words(s@).len(),
        forall|k: int| 0 <= k < r@.len() ==> #[trigger] r@[k]@ == words(s@)[k],
{
    let mut out: Vec<Vec<char>> = Vec::new();
    let mut cur: Vec<char> = Vec::new();
    let n = s.len();
    for i in 0..n
        invariant
            n == s@.len(),
            cur@.len() > 0 <==> (i > 0 && !is_ws(s@[i - 1])),
            cur@.len() > 0 ==> words(s@.take(i as int)).len() == out@.len() + 1
                && words(s@.take(i as int)).last() == cur@,
            cur@.len() == 0 ==> words(s@.take(i as int)).len() == out@.len(),
            forall|k: int| 0 <= k < out@.len() ==> #[trigger] out@[k]@ == words(s@.take(i as int))[k],
    {
        let ghost t = s@.take(i + 1);
        assert(t.drop_last() == s@.take(i as int));
        if is_whitespace(s[i]) {
            if cur.len() > 0 {
                out.push(cur);
                cur = Vec::new();
            }
        } else {
            if cur.len() == 0 {
                proof {
                    assert(!(t.len() > 1 && !is_ws(t[t.len() - 2])));
                }
            } else {
                assert(t[t.len() - 2] == s@[i - 1]);
            }
            cur.push(s[i]);
            proof {
                lemma_words_nonempty_end(t);
            }
        }
    }
    if cur.len() > 0 {
        out.push(cur);
    }
    assert(s@.take(n as int) == s@);
    out
}

/// Index of the first `c` in `s`.
pub fn find_char_in(s: &[char], c: char) -> (r: Option<usize>)
    ensures
        r is Some <==> find_char(s@, c) is Some,
        r matches Some(i) ==> find_char(s@, c) == Some(i as int) && i < s@.len() && s@[i as int] == c,
{
    let n = s.len();
    assert(s@.skip(0) == s@);
    for i in 0..n
        invariant
            n == s@.len(),
            forall|j: int| 0 <= j < i ==> s@[j] != c,
            find_char(s@, c) == (match find_char(s@.skip(i as int), c) {
                Some(k) => Some(k + i),
                None => None::<int>,
            }),
    {
        proof {
            let t = s@.skip(i as int);
            assert(t[0] == s@[i as int]);
            assert(t.drop_first() == s@.skip(i + 1));
        }
        if s[i] == c {
            return Some(i);
        }
    }
    proof {
        assert(s@.skip(n as int).len() == 0);
    }
    None
}

/// `str::splitn(n, sep)`.
pub fn splitn_by(s: &[char], n: usize, sep: char) -> (r: Vec<Vec<char>>)
    ensures
        r@.len() == splitn(s@, n as nat, sep).len(),
        forall|k: int| 0 <= k < r@.len() ==> #[trigger] r@[k]@ == splitn(s@, n as nat, sep)[k],
{
    let mut out: Vec<Vec<char>> = Vec::new();
    let mut rest: Vec<char> = slice_vec(s, 0, s.len());
    let mut left = n;
    let ghost acc: Seq<Seq<char>> = Seq::empty();
    proof {
        assert(s@.subrange(0, s@.len() as int) == s@);
    }
    loop
        invariant
            acc + splitn(rest@, left as nat, sep) == splitn(s@, n as nat, sep),
            out@.len() == acc.len(),
            forall|k: int| 0 <= k < out@.len() ==> #[trigger] out@[k]@ == acc[k],
        decreases left,
    {
        if left <= 1 {
            out.push(rest);
            return out;
        }
        match find_char_in(&rest, sep) {
            None => {
                out.push(rest);
                return out;
            },
            Some(i) => {
                assert(i < rest@.len());
                assert(splitn(rest@, left as nat, sep) == seq![rest@.take(i as int)] + splitn(rest@.skip(i + 1), (left - 1) as nat, sep));
                let head = slice_vec(&rest, 0, i);
                let tail = slice_vec(&rest, i + 1, rest.len());
                proof {
                    assert(head@ == rest@.take(i as int));
                    assert(tail@ == rest@.skip(i + 1));
                    let next = splitn(tail@, (left - 1) as nat, sep);
                    assert(acc.push(head@) + next =~= acc + (seq![head@] + next));
                    acc = acc.push(head@);
                }
                out.push(head);
                rest = tail;
                left = left - 1;
            },
        }
    }
}


/// Lexicographic order of character sequences (the order of `str`'s `Ord`).
pub open spec fn seq_lt(a: Seq<char>, b: Seq<char>) -> bool
    decreases a.len(),
{
    if a.len() == 0 {
        b.len() > 0
    } else if b.len() == 0 {
        false
    } else if a[0] != b[0] {
        a[0] < b[0]
    } else {
        seq_lt(a.drop_first(), b.drop_first())
    }
}

/// `a < b` on strings.
pub fn lt_chars(a: &[char], b: &[char]) -> (r: bool)
    ensures
        r == seq_lt(a@, b@),
{
    let mut i: usize = 0;
    assert(a@.skip(0) == a@ && b@.skip(0) == b@);
    loop
        invariant
            i <= a@.len(),
            i <= b@.len(),
            seq_lt(a@, b@) == seq_lt(a@.skip(i as int), b@.skip(i as int)),
        decreases a@.len() - i,
    {
        if i == a.len() {
            return i < b.len();
        }
        if i == b.len() {
            return false;
        }
        if a[i] != b[i] {
            return a[i] < b[i];
        }
        assert(a@.skip(i as int).drop_first() == a@.skip(i + 1));
        assert(b@.skip(i as int).drop_first() == b@.skip(i + 1));
        i = i + 1;
    }
}

/// Two distinct sequences are ordered one way or the other.
pub proof fn lemma_seq_lt_total(a: Seq<char>, b: Seq<char>)
    ensures
        a != b ==> (seq_lt(a, b) || seq_lt(b, a)),
        !(seq_lt(a, b) && seq_lt(b, a)),
    decreases a.len(),
{
    if a.len() > 0 && b.len() > 0 && a[0] == b[0] {
        lemma_seq_lt_total(a.drop_first(), b.drop_first());
        if a != b {
            if a.drop_first() == b.drop_first() {
                assert(a =~= seq![a[0]] + a.drop_first());
                assert(b =~= seq![b[0]] + b.drop_first());
            }
        }
    } else if a.len() == 0 && b.len() == 0 {
        assert(a =~= b);
    }
}

/// Stable insertion of `x` into the sorted `s`: after every element that is not greater.
pub open spec fn insert_sorted(s: Seq<Seq<char>>, x: Seq<char>) -> Seq<Seq<char>>
    decreases s.len(),
{
    if s.len() == 0 {
        seq![x]
    } else if seq_lt(x, s.last()) {
        insert_sorted(s.drop_last(), x).push(s.last())
    } else {
        s.push(x)
    }
}

/// `s` stably sorted (`slice::sort` on strings).
pub open spec fn sorted_strs(s: Seq<Seq<char>>) -> Seq<Seq<char>>
    decreases s.len(),
{
    if s.len() == 0 {
        s
    } else {
        insert_sorted(sorted_strs(s.drop_last()), s.last())
    }
}

/// `s` without consecutive repeats (`Vec::dedup`).
pub open spec fn dedup_strs(s: Seq<Seq<char>>) -> Seq<Seq<char>>
    decreases s.len(),
{
    if s.len() == 0 {
        s
    } else {
        let prev = dedup_strs(s.drop_last());
        if s.len() > 1 && s[s.len() - 2] == s.last() {
            prev
        } else {
            prev.push(s.last())
        }
    }
}


proof fn lemma_insert_sorted_at(s: Seq<Seq<char>>, x: Seq<char>, p: int)
    requires
        0 <= p <= s.len(),
        forall|j: int| p <= j < s.len() ==> seq_lt(x, #[trigger] s[j]),
        p == 0 || !seq_lt(x, s[p - 1]),
    ensures
        insert_sorted(s, x) == s.take(p).push(x) + s.skip(p),
    decreases s.len() - p,
{
    if p == s.len() {
        assert(s.skip(p).len() == 0);
        if s.len() > 0 {
            assert(s.take(p) == s);
        }
        assert(s.take(p).push(x) + s.skip(p) =~= s.push(x));
    } else {
        assert(seq_lt(x, s[s.len() - 1]));
        lemma_insert_sorted_at(s.drop_last(), x, p);
        assert(s.drop_last().take(p) == s.take(p));
        assert(s.take(p).push(x) + s.skip(p) =~= (s.drop_last().take(p).push(x) + s.drop_last().skip(p)).push(s.last()));
    }
}

proof fn lemma_seq_lt_trans(a: Seq<char>, b: Seq<char>, c: Seq<char>)
    requires
        seq_lt(a, b),
        seq_lt(b, c),
    ensures
        seq_lt(a, c),
    decreases a.len(),
{
    if a.len() > 0 && a[0] == b[0] && b[0] == c[0] {
        lemma_seq_lt_trans(a.drop_first(), b.drop_first(), c.drop_first());
    }
}

/// Every element comes no later, in string order, than the ones after it.
pub open spec fn strs_in_order(s: Seq<Seq<char>>) -> bool {
    forall|i: int, j: int| 0 <= i < j < s.len() ==> !seq_lt(#[trigger] s[j], #[trigger] s[i])
}

pub proof fn lemma_not_lt_trans(a: Seq<char>, b: Seq<char>, c: Seq<char>)
    requires
        !seq_lt(b, a),
        !seq_lt(c, b),
    ensures
        !seq_lt(c, a),
{
    lemma_seq_lt_total(a, b);
    lemma_seq_lt_total(b, c);
    lemma_seq_lt_total(a, c);
    lemma_seq_lt_total(a, a);
    if a != b && b != c {
        lemma_seq_lt_trans(a, b, c);
    }
}

proof fn lemma_insert_sorted_in_order(s: Seq<Seq<char>>, x: Seq<char>)
    requires
        strs_in_order(s),
    ensures
        strs_in_order(insert_sorted(s, x)),
        insert_sorted(s, x).to_multiset() =~= s.to_multiset().insert(x),
        forall|k: int| 0 <= k < insert_sorted(s, x).len() ==> #[trigger] insert_sorted(s, x)[k] == x || s.contains(
            insert_sorted(s, x)[k],
        ),
    decreases s.len(),
{
    broadcast use vstd::seq_lib::group_to_multiset_ensures;

    let r = insert_sorted(s, x);
    if s.len() == 0 {
        assert(r =~= seq![x]);
        assert(seq![x] =~= Seq::<Seq<char>>::empty().push(x));
    } else if seq_lt(x, s.last()) {
        let d = s.drop_last();
        let last = s.last();
        assert(strs_in_order(d)) by {
            assert forall|i: int, j: int| 0 <= i < j < d.len() implies !seq_lt(#[trigger] d[j], #[trigger] d[i]) by {
                assert(d[j] == s[j] && d[i] == s[i]);
            }
        }
        lemma_insert_sorted_in_order(d, x);
        let r1 = insert_sorted(d, x);
        assert(r == r1.push(last));
        lemma_seq_lt_total(x, last);
        assert forall|k: int| 0 <= k < r1.len() implies !seq_lt(last, #[trigger] r1[k]) by {
            if r1[k] != x {
                assert(d.contains(r1[k]));
                let m = choose|m: int| 0 <= m < d.len() && d[m] == r1[k];
                assert(s[m] == d[m]);
                assert(s[s.len() - 1] == last);
            }
        }
        assert forall|i: int, j: int| 0 <= i < j < r.len() implies !seq_lt(#[trigger] r[j], #[trigger] r[i]) by {
            if j == r.len() - 1 {
                assert(r[j] == last);
                assert(r[i] == r1[i]);
            } else {
                assert(r[j] == r1[j] && r[i] == r1[i]);
            }
        }
        assert forall|k: int| 0 <= k < r.len() implies #[trigger] r[k] == x || s.contains(r[k]) by {
            if k == r.len() - 1 {
                assert(s[s.len() - 1] == r[k]);
            } else {
                assert(r[k] == r1[k]);
                if r1[k] != x {
                    let m = choose|m: int| 0 <= m < d.len() && d[m] == r1[k];
                    assert(s[m] == r[k]);
                }
            }
        }
        assert(s =~= d.push(last));
        assert(r.to_multiset() =~= r1.to_multiset().insert(last));
        assert(s.to_multiset() =~= d.to_multiset().insert(last));
    } else {
        assert(r == s.push(x));
        assert forall|i: int, j: int| 0 <= i < j < r.len() implies !seq_lt(#[trigger] r[j], #[trigger] r[i]) by {
            if j == r.len() - 1 {
                assert(r[j] == x && r[i] == s[i]);
                if i < s.len() - 1 {
                    assert(!seq_lt(s[s.len() - 1], s[i]));
                } else {
                    lemma_seq_lt_total(s[i], s[i]);
                }
                lemma_not_lt_trans(s[i], s[s.len() - 1], x);
            } else {
                assert(r[j] == s[j] && r[i] == s[i]);
            }
        }
        assert forall|k: int| 0 <= k < r.len() implies #[trigger] r[k] == x || s.contains(r[k]) by {
            if k < s.len() {
                assert(r[k] == s[k]);
            }
        }
    }
}

/// Sorting strings puts them in order and keeps each as often as it was there.
pub proof fn lemma_sorted_strs_sorted(s: Seq<Seq<char>>)
    ensures
        strs_in_order(sorted_strs(s)),
        sorted_strs(s).to_multiset() =~= s.to_multiset(),
    decreases s.len(),
{
    broadcast use vstd::seq_lib::group_to_multiset_ensures;

    if s.len() == 0 {
        assert(s.to_multiset() =~= vstd::multiset::Multiset::empty());
    } else {
        lemma_sorted_strs_sorted(s.drop_last());
        lemma_insert_sorted_in_order(sorted_strs(s.drop_last()), s.last());
        assert(s =~= s.drop_last().push(s.last()));
    }
}

/// `slice::sort` followed by `Vec::dedup` on strings.
pub fn sort_dedup_strs(v: Vec<Vec<char>>) -> (r: Vec<Vec<char>>)
    ensures
        r@.map_values(|x: Vec<char>| x@) == dedup_strs(sorted_strs(v@.map_values(|x: Vec<char>| x@))),
{
    let s = sort_strs(v);
    dedup_vec(s)
}

/// `slice::sort` on strings (stable insertion).
pub fn sort_strs(v: Vec<Vec<char>>) -> (r: Vec<Vec<char>>)
    ensures
        r@.map_values(|x: Vec<char>| x@) == sorted_strs(v@.map_values(|x: Vec<char>| x@)),
{
    let ghost vv = v@.map_values(|x: Vec<char>| x@);
    let mut out: Vec<Vec<char>> = Vec::new();
    let n = v.len();
    let mut i: usize = 0;
    let mut src = v;
    // consume from the front by index
    while i < n
        invariant
            n == src@.len(),
            i <= n,
            vv == src@.map_values(|x: Vec<char>| x@),
            out@.map_values(|x: Vec<char>| x@) == sorted_strs(vv.take(i as int)),
        decreases n - i,
    {
        let x = copy_chars(&src[i]);
        assert(x@ == vv[i as int]);
        let ghost ov = out@.map_values(|y: Vec<char>| y@);
        let mut p = out.len();
        while p > 0 && lt_chars(&x, &out[p - 1])
            invariant
                p <= out@.len(),
                ov == out@.map_values(|y: Vec<char>| y@),
                forall|j: int| p <= j < ov.len() ==> seq_lt(x@, #[trigger] ov[j]),
            decreases p,
        {
            p = p - 1;
        }
        proof {
            lemma_insert_sorted_at(ov, x@, p as int);
            assert(vv.take(i + 1).drop_last() == vv.take(i as int));
        }
        out.insert(p, x);
        assert(out@.map_values(|y: Vec<char>| y@) =~= ov.take(p as int).push(x@) + ov.skip(p as int));
        i = i + 1;
    }
    assert(vv.take(n as int) == vv);
    out
}

/// `Vec::dedup` on strings.
pub fn dedup_vec(v: Vec<Vec<char>>) -> (r: Vec<Vec<char>>)
    ensures
        r@.map_values(|x: Vec<char>| x@) == dedup_strs(v@.map_values(|x: Vec<char>| x@)),
{
    let ghost vv = v@.map_values(|x: Vec<char>| x@);
    let mut out: Vec<Vec<char>> = Vec::new();
    let n = v.len();
    for i in 0..n
        invariant
            n == v@.len(),
            vv == v@.map_values(|x: Vec<char>| x@),
            out@.map_values(|x: Vec<char>| x@) == dedup_strs(vv.take(i as int)),
    {
        let ghost t = vv.take(i + 1);
        assert(t.drop_last() == vv.take(i as int));
        let ghost ov = out@.map_values(|y: Vec<char>| y@);
        let dup = i > 0 && vec_eq(&v[i - 1], &v[i]);
        if !dup {
            out.push(copy_chars(&v[i]));
            assert(out@.map_values(|y: Vec<char>| y@) =~= ov.push(vv[i as int]));
        } else {
            assert(t[t.len() - 2] == vv[i - 1]);
        }
    }
    assert(vv.take(n as int) == vv);
    out
}

/// The trimmed, non-empty pieces of `ps`, trimmed.
pub open spec fn trimmed_pieces(ps: Seq<Seq<char>>) -> Seq<Seq<char>>
    decreases ps.len(),
{
    if ps.len() == 0 {
        Seq::empty()
    } else {
        let prev = trimmed_pieces(ps.drop_last());
        let l = trim(ps.last());
        if l.len() > 0 {
            prev.push(l)
        } else {
            prev
        }
    }
}

pub fn trimmed_pieces_exec(ps: &Vec<Vec<char>>) -> (r: Vec<Vec<char>>)
    ensures
        r@.map_values(|x: Vec<char>| x@) == trimmed_pieces(ps@.map_values(|x: Vec<char>| x@)),
{
    let ghost pv = ps@.map_values(|x: Vec<char>| x@);
    let mut out: Vec<Vec<char>> = Vec::new();
    let n = ps.len();
    for i in 0..n
        invariant
            n == ps@.len(),
            pv == ps@.map_values(|x: Vec<char>| x@),
            out@.map_values(|x: Vec<char>| x@) == trimmed_pieces(pv.take(i as int)),
    {
        let ghost ov = out@.map_values(|x: Vec<char>| x@);
        assert(pv.take(i + 1).drop_last() == pv.take(i as int));
        assert(pv.take(i + 1).last() == ps@[i as int]@);
        let l = trimmed(&ps[i]);
        if l.len() > 0 {
            let ghost lv = l@;
            out.push(l);
            assert(out@.map_values(|x: Vec<char>| x@) =~= ov.push(lv));
        }
    }
    assert(pv.take(n as int) == pv);
    out
}

// ---------------------------------------------------------------------------
// Numbers

/// Value of the decimal digits `s` (all of which must be ASCII digits).
pub open spec fn digits_value(s: Seq<char>) -> nat
    decreases s.len(),
{
    if s.len() == 0 {
        0
    } else {
        digits_value(s.drop_last()) * 10 + ((s.last() as u32) - ('0' as u32)) as nat
    }
}

pub open spec fn all_digits(s: Seq<char>) -> bool {
    forall|i: int| 0 <= i < s.len() ==> is_ascii_digit(#[trigger] s[i])
}

/// Digits of `s` after an optional leading `+` (the unsigned `from_str` grammar).
pub open spec fn unsigned_body(s: Seq<char>) -> Seq<char> {
    if s.len() > 0 && s[0] == '+' {
        s.drop_first()
    } else {
        s
    }
}

/// What `str::parse::<uN>()` gives for `s` when the type's largest value is `max`.
pub open spec fn parse_unsigned(s: Seq<char>, max: nat) -> Option<nat> {
    let b = unsigned_body(s);
    if b.len() > 0 && all_digits(b) && digits_value(b) <= max {
        Some(digits_value(b))
    } else {
        None
    }
}

/// `str::parse::<u32>()`.
pub fn parse_u32(s: &[char]) -> (r: Option<u32>)
    ensures
        match parse_unsigned(s@, u32::MAX as nat) {
            Some(v) => r == Some(v as u32),
            None => r is None,
        },
{
    let start: usize = if s.len() > 0 && s[0] == '+' { 1 } else { 0 };
    let ghost b = unsigned_body(s@);
    assert(b =~= s@.skip(start as int));
    if start == s.len() {
        return None;
    }
    let mut acc: u64 = 0;
    let n = s.len();
    for i in start..n
        invariant
            start <= n == s@.len(),
            b == s@.skip(start as int),
            b == unsigned_body(s@),
            acc as nat == digits_value(s@.subrange(start as int, i as int)),
            acc <= u32::MAX,
            all_digits(s@.subrange(start as int, i as int)),
    {
        let c = s[i];
        let ghost prefix = s@.subrange(start as int, i as int);
        let ghost next = s@.subrange(start as int, i + 1);
        assert(next.drop_last() == prefix);
        if !('0' <= c && c <= '9') {
            proof {
                assert(b[i - start] == c);
                assert(!all_digits(b));
            }
            return None;
        }
        let d: u64 = ((c as u32) - ('0' as u32)) as u64;
        acc = acc * 10 + d;
        if acc > 0xffff_ffff {
            proof {
                assert(b.take(i + 1 - start) == next);
                if all_digits(b) {
                    lemma_digits_value_prefix_le(b, i + 1 - start);
                }
            }
            return None;
        }
    }
    assert(s@.subrange(start as int, n as int) == b);
    Some(acc as u32)
}

/// `str::parse::<u64>()`.
pub fn parse_u64(s: &[char]) -> (r: Option<u64>)
    ensures
        match parse_unsigned(s@, u64::MAX as nat) {
            Some(v) => r == Some(v as u64),
            None => r is None,
        },
{
    let start: usize = if s.len() > 0 && s[0] == '+' { 1 } else { 0 };
    let ghost b = unsigned_body(s@);
    assert(b =~= s@.skip(start as int));
    if start == s.len() {
        return None;
    }
    let mut acc: u128 = 0;
    let n = s.len();
    for i in start..n
        invariant
            start <= n == s@.len(),
            b == s@.skip(start as int),
            b == unsigned_body(s@),
            acc as nat == digits_value(s@.subrange(start as int, i as int)),
            acc <= u64::MAX,
            all_digits(s@.subrange(start as int, i as int)),
    {
        let c = s[i];
        let ghost prefix = s@.subrange(start as int, i as int);
        let ghost next = s@.subrange(start as int, i + 1);
        assert(next.drop_last() == prefix);
        if !('0' <= c && c <= '9') {
            proof {
                assert(b[i - start] == c);
                assert(!all_digits(b));
            }
            return None;
        }
        let d: u128 = ((c as u32) - ('0' as u32)) as u128;
        acc = acc * 10 + d;
        if acc > 0xffff_ffff_ffff_ffff {
            proof {
                assert(b.take(i + 1 - start) == next);
                if all_digits(b) {
                    lemma_digits_value_prefix_le(b, i + 1 - start);
                }
            }
            return None;
        }
    }
    assert(s@.subrange(start as int, n as int) == b);
    Some(acc as u64)
}

/// A longer digit string never has a smaller value than its prefix.
pub proof fn lemma_digits_value_prefix_le(s: Seq<char>, k: int)
    requires
        0 <= k <= s.len(),
        all_digits(s),
    ensures
        digits_value(s.take(k)) <= digits_value(s),
    decreases s.len() - k,
{
    if k < s.len() {
        lemma_digits_value_prefix_le(s.drop_last(), k);
        assert(s.drop_last().take(k) == s.take(k));
        assert(is_ascii_digit(s.last()));
        assert(s.drop_last().len() < s.len());
        assert(all_digits(s.drop_last())) by {
            assert forall|i: int| 0 <= i < s.drop_last().len() implies is_ascii_digit(#[trigger] s.drop_last()[i]) by {
                assert(s.drop_last()[i] == s[i]);
            }
        }
        lemma_digits_value_prefix_le(s.drop_last(), s.len() - 1);
        assert(s.drop_last().take(s.len() - 1) == s.drop_last());
    } else {
        assert(s.take(k) == s);
    }
}

/// Decimal notation of `n`, without leading zeros (`to_string` of an integer).
pub open spec fn decimal(n: nat) -> Seq<char>
    decreases n,
{
    if n < 10 {
        seq![(('0' as u32) + n) as char]
    } else {
        decimal(n / 10).push((('0' as u32) + n % 10) as char)
    }
}

/// `to_string` of an unsigned integer, as characters.
pub fn decimal_chars(n: u64) -> (r: Vec<char>)
    ensures
        r@ == decimal(n as nat),
    decreases n,
{
    if n < 10 {
        let c = digit_char(n);
        let mut v: Vec<char> = Vec::new();
        v.push(c);
        assert(v@ =~= decimal(n as nat));
        v
    } else {
        let mut v = decimal_chars(n / 10);
        let c = digit_char(n % 10);
        v.push(c);
        v
    }
}

fn digit_char(d: u64) -> (c: char)
    requires
        d < 10,
    ensures
        c == (('0' as u32) + d) as char,
{
    let u: u8 = 48u8 + (d as u8);
    u as char
}

/// `to_string` of an unsigned integer.
pub fn decimal_string(n: u64) -> (r: String)
    ensures
        r@ == decimal(n as nat),
{
    let v = decimal_chars(n);
    string_of(&v)
}

} // verus!
