//! The global hotkey: parsing a spec such as `Ctrl+Alt+D` into modifiers and
//! a key. Registering it with the system is left to the caller.

use vstd::prelude::*;
use crate::image::lower_vec;
use crate::text::{
    chars_of, extend_chars, lower, owned, split, split_by, string_of, trim, trimmed, trimmed_pieces,
    trimmed_pieces_exec, vec_eq,
};

verus! {

/// The modifier keys of a shortcut.
#[derive(Debug, Clone, Copy, PartialEq, Eq, Structural)]
pub struct Modifiers {
    pub control: bool,
    pub alt: bool,
    pub shift: bool,
    pub super_key: bool,
}

impl Modifiers {
    pub fn empty() -> (r: Modifiers)
        ensures
            r == (Modifiers { control: false, alt: false, shift: false, super_key: false }),
    {
        Modifiers { control: false, alt: false, shift: false, super_key: false }
    }

    pub fn control() -> (r: Modifiers)
        ensures
            r == (Modifiers { control: true, ..Modifiers::empty_spec() }),
    {
        Modifiers { control: true, alt: false, shift: false, super_key: false }
    }

    pub fn alt() -> (r: Modifiers)
        ensures
            r == (Modifiers { alt: true, ..Modifiers::empty_spec() }),
    {
        Modifiers { control: false, alt: true, shift: false, super_key: false }
    }

    pub fn shift() -> (r: Modifiers)
        ensures
            r == (Modifiers { shift: true, ..Modifiers::empty_spec() }),
    {
        Modifiers { control: false, alt: false, shift: true, super_key: false }
    }

    pub fn super_key() -> (r: Modifiers)
        ensures
            r == (Modifiers { super_key: true, ..Modifiers::empty_spec() }),
    {
        Modifiers { control: false, alt: false, shift: false, super_key: true }
    }

    pub open spec fn empty_spec() -> Modifiers {
        Modifiers { control: false, alt: false, shift: false, super_key: false }
    }

    pub open spec fn union_spec(self, o: Modifiers) -> Modifiers {
        Modifiers {
            control: self.control || o.control,
            alt: self.alt || o.alt,
            shift: self.shift || o.shift,
            super_key: self.super_key || o.super_key,
        }
    }

    /// Every modifier of either set.
    pub fn union(self, o: Modifiers) -> (r: Modifiers)
        ensures
            r == self.union_spec(o),
    {
        Modifiers {
            control: self.control || o.control,
            alt: self.alt || o.alt,
            shift: self.shift || o.shift,
            super_key: self.super_key || o.super_key,
        }
    }

    pub open spec fn shares(self, o: Modifiers) -> bool {
        (self.control && o.control) || (self.alt && o.alt) || (self.shift && o.shift) || (self.super_key
            && o.super_key)
    }
}

/// The keys a shortcut can end with.
#[derive(Debug, Clone, Copy, PartialEq, Eq, Structural)]
pub enum Code {
    /// A letter key, `A` to `Z`.
    Key(char),
    /// A digit key, 0 to 9.
    Digit(u8),
    /// A function key, F1 to F12.
    F(u8),
    Space,
}

#[derive(Debug, Clone, Copy, PartialEq, Eq, Structural)]
pub struct Shortcut {
    pub mods: Modifiers,
    pub key: Code,
}

impl Shortcut {
    /// A shortcut; no modifiers when none are given.
    pub fn new(mods: Option<Modifiers>, key: Code) -> (r: Shortcut)
        ensures
            r.key == key,
            r.mods == match mods {
                Some(m) => m,
                None => Modifiers::empty_spec(),
            },
    {
        let m = match mods {
            Some(m) => m,
            None => Modifiers::empty(),
        };
        Shortcut { mods: m, key }
    }
}

pub open spec fn upper_char(c: char) -> char {
    if 'a' <= c && c <= 'z' {
        ((c as u32) - 32) as char
    } else {
        c
    }
}

/// `s` with ASCII lower-case letters mapped to upper case.
pub open spec fn upper(s: Seq<char>) -> Seq<char> {
    s.map_values(|c: char| upper_char(c))
}

fn upper_vec(s: &[char]) -> (r: Vec<char>)
    ensures
        r@ == upper(s@),
{
    let mut out: Vec<char> = Vec::new();
    let n = s.len();
    for i in 0..n
        invariant
            n == s@.len(),
            out@ == upper(s@.take(i as int)),
    {
        let c = s[i];
        let u = if 'a' <= c && c <= 'z' {
            let x: u32 = (c as u32) - 32;
            assert(0x41 <= x <= 0x5a);
            x as u8 as char
        } else {
            c
        };
        out.push(u);
        assert(upper(s@.take(i + 1)) =~= upper(s@.take(i as int)).push(upper_char(s@[i as int])));
    }
    assert(s@.take(n as int) == s@);
    out
}

/// The number of a function key name after its `F`: 1 to 12, no leading zero.
pub open spec fn fkey_number(d: Seq<char>) -> Option<u8> {
    if d.len() == 1 && '1' <= d[0] && d[0] <= '9' {
        Some(((d[0] as u32) - ('0' as u32)) as u8)
    } else if d.len() == 2 && d[0] == '1' && '0' <= d[1] && d[1] <= '2' {
        Some((10 + (d[1] as u32) - ('0' as u32)) as u8)
    } else {
        None
    }
}

/// The key an upper-cased key name stands for.
pub open spec fn code_of(u: Seq<char>) -> Option<Code> {
    if u.len() == 1 && 'A' <= u[0] && u[0] <= 'Z' {
        Some(Code::Key(u[0]))
    } else if u.len() == 1 && '0' <= u[0] && u[0] <= '9' {
        Some(Code::Digit(((u[0] as u32) - ('0' as u32)) as u8))
    } else if u.len() >= 2 && u[0] == 'F' && fkey_number(u.drop_first()) is Some {
        Some(Code::F(fkey_number(u.drop_first())->0))
    } else if u == "SPACE"@ {
        Some(Code::Space)
    } else {
        None
    }
}

pub open spec fn bad_key_msg(u: Seq<char>) -> Seq<char> {
    "不支持的按键："@ + u + "（支持 A-Z、0-9、F1-F12、Space）"@
}

pub open spec fn parse_code_spec(key: Seq<char>) -> Result<Code, Seq<char>> {
    match code_of(upper(key)) {
        Some(c) => Ok(c),
        None => Err(bad_key_msg(upper(key))),
    }
}

pub open spec fn code_result(r: Result<Code, String>) -> Result<Code, Seq<char>> {
    match r {
        Ok(c) => Ok(c),
        Err(e) => Err(e@),
    }
}

/// The key named `key`, case-insensitively: `A`-`Z`, `0`-`9`, `F1`-`F12`, `Space`.
pub fn parse_code(key: &str) -> (r: Result<Code, String>)
    ensures
        code_result(r) == parse_code_spec(key@),
{
    let u = upper_vec(&chars_of(key));
    if u.len() == 1 && 'A' <= u[0] && u[0] <= 'Z' {
        return Ok(Code::Key(u[0]));
    }
    if u.len() == 1 && '0' <= u[0] && u[0] <= '9' {
        return Ok(Code::Digit(((u[0] as u32) - ('0' as u32)) as u8));
    }
    if u.len() >= 2 && u[0] == 'F' {
        assert(u@.drop_first().len() == u.len() - 1);
        let n = u.len() - 1;
        if n == 1 && '1' <= u[1] && u[1] <= '9' {
            assert(u@.drop_first()[0] == u@[1]);
            return Ok(Code::F(((u[1] as u32) - ('0' as u32)) as u8));
        }
        if n == 2 && u[1] == '1' && '0' <= u[2] && u[2] <= '2' {
            assert(u@.drop_first()[0] == u@[1]);
            assert(u@.drop_first()[1] == u@[2]);
            return Ok(Code::F((10 + (u[2] as u32) - ('0' as u32)) as u8));
        }
        assert(u@.drop_first()[0] == u@[1]);
        assert(n == 2 ==> u@.drop_first()[1] == u@[2]);
    }
    if vec_eq(&u, &chars_of("SPACE")) {
        return Ok(Code::Space);
    }
    let mut m = chars_of("不支持的按键：");
    extend_chars(&mut m, &u);
    extend_chars(&mut m, &chars_of("（支持 A-Z、0-9、F1-F12、Space）"));
    Err(string_of(&m))
}

/// The modifier a lower-cased name stands for.
pub open spec fn modifier_of(l: Seq<char>) -> Option<Modifiers> {
    let e = Modifiers::empty_spec();
    if l == "ctrl"@ || l == "control"@ {
        Some(Modifiers { control: true, ..e })
    } else if l == "alt"@ {
        Some(Modifiers { alt: true, ..e })
    } else if l == "shift"@ {
        Some(Modifiers { shift: true, ..e })
    } else if l == "win"@ || l == "super"@ || l == "meta"@ {
        Some(Modifiers { super_key: true, ..e })
    } else {
        None
    }
}

/// The modifiers named by `ms`, in order: an unknown name or a repeated
/// modifier is refused at its first occurrence.
pub open spec fn mods_fold(ms: Seq<Seq<char>>) -> Result<Modifiers, Seq<char>>
    decreases ms.len(),
{
    if ms.len() == 0 {
        Ok(Modifiers::empty_spec())
    } else {
        match mods_fold(ms.drop_last()) {
            Err(e) => Err(e),
            Ok(acc) => {
                let m = ms.last();
                match modifier_of(lower(m)) {
                    None => Err("不支持的修饰键："@ + lower(m)),
                    Some(bit) => if acc.shares(bit) {
                        Err("修饰键重复："@ + m)
                    } else {
                        Ok(acc.union_spec(bit))
                    },
                }
            },
        }
    }
}

/// The non-empty, trimmed `+`-separated parts of a trimmed spec.
pub open spec fn combo_parts(t: Seq<char>) -> Seq<Seq<char>> {
    trimmed_pieces(split(t, '+'))
}

/// What `parse` gives: all parts but the last are modifiers, the last is the key.
pub open spec fn parse_spec(spec: Seq<char>) -> Result<Shortcut, Seq<char>> {
    let t = trim(spec);
    let ps = combo_parts(t);
    if t.len() == 0 {
        Err("快捷键不能为空"@)
    } else if ps.len() < 2 {
        Err("快捷键至少需要一个修饰键加一个按键："@ + t)
    } else {
        match mods_fold(ps.drop_last()) {
            Err(e) => Err(e),
            Ok(mods) => match parse_code_spec(ps.last()) {
                Err(e) => Err(e),
                Ok(key) => Ok(Shortcut { mods, key }),
            },
        }
    }
}

pub open spec fn shortcut_result(r: Result<Shortcut, String>) -> Result<Shortcut, Seq<char>> {
    match r {
        Ok(s) => Ok(s),
        Err(e) => Err(e@),
    }
}

fn modifier_exec(l: &Vec<char>) -> (r: Option<Modifiers>)
    ensures
        r == modifier_of(l@),
{
    if vec_eq(l, &chars_of("ctrl")) || vec_eq(l, &chars_of("control")) {
        Some(Modifiers::control())
    } else if vec_eq(l, &chars_of("alt")) {
        Some(Modifiers::alt())
    } else if vec_eq(l, &chars_of("shift")) {
        Some(Modifiers::shift())
    } else if vec_eq(l, &chars_of("win")) || vec_eq(l, &chars_of("super")) || vec_eq(l, &chars_of("meta")) {
        Some(Modifiers::super_key())
    } else {
        None
    }
}

/// Parses a hotkey such as `Ctrl+Alt+D` (case-insensitive): at least one
/// modifier (`Ctrl`/`Control`, `Alt`, `Shift`, `Win`/`Super`/`Meta`), each at
/// most once, and one key.
pub fn parse(spec: &str) -> (r: Result<Shortcut, String>)
    ensures
        shortcut_result(r) == parse_spec(spec@),
{
    let t = trimmed(&chars_of(spec));
    if t.len() == 0 {
        return Err(owned("快捷键不能为空"));
    }
    let sp = split_by(&t, '+');
    assert(sp@.map_values(|x: Vec<char>| x@) =~= split(t@, '+'));
    let ps = trimmed_pieces_exec(&sp);
    let ghost psv = combo_parts(t@);
    assert(ps@.map_values(|x: Vec<char>| x@) == psv);
    if ps.len() < 2 {
        let mut m = chars_of("快捷键至少需要一个修饰键加一个按键：");
        extend_chars(&mut m, &t);
        return Err(string_of(&m));
    }
    let nm = ps.len() - 1;
    let ghost ms = psv.drop_last();
    let mut mods = Modifiers::empty();
    for i in 0..nm
        invariant
            t@ == trim(spec@),
            t@.len() > 0,
            psv == combo_parts(t@),
            psv.len() >= 2,
            nm == ps@.len() - 1,
            psv == ps@.map_values(|x: Vec<char>| x@),
            ms == psv.drop_last(),
            mods_fold(ms.take(i as int)) == Ok::<Modifiers, Seq<char>>(mods),
    {
        assert(ms.take(i + 1).drop_last() == ms.take(i as int));
        assert(ms.take(i + 1).last() == ps@[i as int]@);
        let l = lower_vec(&ps[i]);
        match modifier_exec(&l) {
            None => {
                proof {
                    lemma_mods_fold_err(ms, i + 1);
                }
                let mut m = chars_of("不支持的修饰键：");
                extend_chars(&mut m, &l);
                return Err(string_of(&m));
            },
            Some(bit) => {
                if (mods.control && bit.control) || (mods.alt && bit.alt) || (mods.shift && bit.shift) || (
                mods.super_key && bit.super_key) {
                    proof {
                        lemma_mods_fold_err(ms, i + 1);
                    }
                    let mut m = chars_of("修饰键重复：");
                    extend_chars(&mut m, &ps[i]);
                    return Err(string_of(&m));
                }
                mods = mods.union(bit);
            },
        }
    }
    assert(ms.take(nm as int) == ms);
    let key = parse_code(string_of(&ps[nm]).as_str())?;
    Ok(Shortcut { mods, key })
}

proof fn lemma_mods_fold_err(ms: Seq<Seq<char>>, j: int)
    requires
        0 <= j <= ms.len(),
        mods_fold(ms.take(j)) is Err,
    ensures
        mods_fold(ms) == mods_fold(ms.take(j)),
    decreases ms.len() - j,
{
    if j < ms.len() {
        assert(ms.drop_last().take(j) == ms.take(j));
        lemma_mods_fold_err(ms.drop_last(), j);
    } else {
        assert(ms.take(j) == ms);
    }
}

} // verus!
