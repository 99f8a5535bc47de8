//! Binary previews: image recognition by magic numbers, pixel sizes read from
//! headers, and the data URL of one side of a change.

use vstd::prelude::*;
use crate::text::{chars_of, lower, owned, string_of, lower_char, to_lower_char};

verus! {

pub open spec fn starts_bytes(b: Seq<u8>, p: Seq<u8>) -> bool {
    p.len() <= b.len() && b.take(p.len() as int) == p
}

pub fn has_bytes_prefix(b: &[u8], p: &[u8]) -> (r: bool)
    ensures
        r == starts_bytes(b@, p@),
{
    if p.len() > b.len() {
        return false;
    }
    let n = p.len();
    for i in 0..n
        invariant
            n == p@.len(),
            n <= b@.len(),
            forall|j: int| 0 <= j < i ==> b@[j] == p@[j],
    {
        if b[i] != p[i] {
            assert(b@.take(n as int)[i as int] != p@[i as int]);
            return false;
        }
    }
    assert(b@.take(n as int) =~= p@);
    true
}

pub open spec fn png_magic() -> Seq<u8> {
    seq![0x89u8, 0x50u8, 0x4eu8, 0x47u8, 0x0du8, 0x0au8, 0x1au8, 0x0au8]
}

pub open spec fn gif87() -> Seq<u8> {
    seq![0x47u8, 0x49u8, 0x46u8, 0x38u8, 0x37u8, 0x61u8]
}

pub open spec fn gif89() -> Seq<u8> {
    seq![0x47u8, 0x49u8, 0x46u8, 0x38u8, 0x39u8, 0x61u8]
}

pub open spec fn riff() -> Seq<u8> {
    seq![0x52u8, 0x49u8, 0x46u8, 0x46u8]
}

pub open spec fn webp_tag() -> Seq<u8> {
    seq![0x57u8, 0x45u8, 0x42u8, 0x50u8]
}

pub open spec fn ico_magic() -> Seq<u8> {
    seq![0u8, 0u8, 1u8, 0u8]
}

pub open spec fn bm() -> Seq<u8> {
    seq![0x42u8, 0x4du8]
}

pub open spec fn jpeg_magic() -> Seq<u8> {
    seq![0xffu8, 0xd8u8, 0xffu8]
}

/// Little-endian value of four bytes.
pub open spec fn le32(a: u8, b: u8, c: u8, d: u8) -> nat {
    a as nat + b as nat * 256 + c as nat * 65536 + d as nat * 16777216
}

/// Big-endian value of four bytes.
pub open spec fn be32(a: u8, b: u8, c: u8, d: u8) -> nat {
    le32(d, c, b, a)
}

pub open spec fn le16(a: u8, b: u8) -> nat {
    a as nat + b as nat * 256
}

/// The MIME type of a browser-decodable image, recognized by its magic number.
pub open spec fn sniff_spec(b: Seq<u8>) -> Option<Seq<char>> {
    if starts_bytes(b, png_magic()) {
        Some("image/png"@)
    } else if starts_bytes(b, jpeg_magic()) {
        Some("image/jpeg"@)
    } else if starts_bytes(b, gif87()) || starts_bytes(b, gif89()) {
        Some("image/gif"@)
    } else if b.len() >= 12 && starts_bytes(b, riff()) && b.subrange(8, 12) == webp_tag() {
        Some("image/webp"@)
    } else if b.len() >= 11 && b.subrange(4, 8) == seq![0x66u8, 0x74u8, 0x79u8, 0x70u8] && (
    b.subrange(8, 11) == seq![0x61u8, 0x76u8, 0x69u8] || b.subrange(8, 11) == seq![0x61u8, 0x76u8, 0x73u8]) {
        Some("image/avif"@)
    } else if b.len() >= 6 && starts_bytes(b, ico_magic()) && !(b[4] == 0 && b[5] == 0) {
        Some("image/x-icon"@)
    } else if b.len() >= 14 && starts_bytes(b, bm()) && le32(b[2], b[3], b[4], b[5]) == b.len() {
        Some("image/bmp"@)
    } else {
        None
    }
}

fn bytes_eq4(b: &[u8], at: usize, x0: u8, x1: u8, x2: u8, x3: u8) -> (r: bool)
    requires
        at + 4 <= b@.len(),
    ensures
        r == (b@.subrange(at as int, at + 4) == seq![x0, x1, x2, x3]),
{
    let r = b[at] == x0 && b[at + 1] == x1 && b[at + 2] == x2 && b[at + 3] == x3;
    if r {
        assert(b@.subrange(at as int, at + 4) =~= seq![x0, x1, x2, x3]);
    } else {
        assert(b@.subrange(at as int, at + 4) != seq![x0, x1, x2, x3]) by {
            if b@.subrange(at as int, at + 4) == seq![x0, x1, x2, x3] {
                assert(b@.subrange(at as int, at + 4)[0] == x0);
                assert(b@.subrange(at as int, at + 4)[1] == x1);
                assert(b@.subrange(at as int, at + 4)[2] == x2);
                assert(b@.subrange(at as int, at + 4)[3] == x3);
            }
        }
    }
    r
}

fn bytes_eq3(b: &[u8], at: usize, x0: u8, x1: u8, x2: u8) -> (r: bool)
    requires
        at + 3 <= b@.len(),
    ensures
        r == (b@.subrange(at as int, at + 3) == seq![x0, x1, x2]),
{
    let r = b[at] == x0 && b[at + 1] == x1 && b[at + 2] == x2;
    if r {
        assert(b@.subrange(at as int, at + 3) =~= seq![x0, x1, x2]);
    } else {
        assert(b@.subrange(at as int, at + 3) != seq![x0, x1, x2]) by {
            if b@.subrange(at as int, at + 3) == seq![x0, x1, x2] {
                assert(b@.subrange(at as int, at + 3)[0] == x0);
                assert(b@.subrange(at as int, at + 3)[1] == x1);
                assert(b@.subrange(at as int, at + 3)[2] == x2);
            }
        }
    }
    r
}

fn le32_exec(a: u8, b: u8, c: u8, d: u8) -> (r: u64)
    ensures
        r as nat == le32(a, b, c, d),
{
    (a as u64) + (b as u64) * 256 + (c as u64) * 65536 + (d as u64) * 16777216
}

pub fn sniff_image(bytes: &[u8]) -> (r: Option<String>)
    ensures
        match sniff_spec(bytes@) {
            Some(m) => r matches Some(s) && s@ == m,
            None => r is None,
        },
{
    let png: [u8; 8] = [0x89, 0x50, 0x4e, 0x47, 0x0d, 0x0a, 0x1a, 0x0a];
    let jpg: [u8; 3] = [0xff, 0xd8, 0xff];
    let g7: [u8; 6] = [0x47, 0x49, 0x46, 0x38, 0x37, 0x61];
    let g9: [u8; 6] = [0x47, 0x49, 0x46, 0x38, 0x39, 0x61];
    let rf: [u8; 4] = [0x52, 0x49, 0x46, 0x46];
    let ico: [u8; 4] = [0, 0, 1, 0];
    let bmp: [u8; 2] = [0x42, 0x4d];
    assert(png@ =~= png_magic());
    assert(jpg@ =~= jpeg_magic());
    assert(g7@ =~= gif87());
    assert(g9@ =~= gif89());
    assert(rf@ =~= riff());
    assert(ico@ =~= ico_magic());
    assert(bmp@ =~= bm());
    if has_bytes_prefix(bytes, &png) {
        return Some(owned("image/png"));
    }
    if has_bytes_prefix(bytes, &jpg) {
        return Some(owned("image/jpeg"));
    }
    if has_bytes_prefix(bytes, &g7) || has_bytes_prefix(bytes, &g9) {
        return Some(owned("image/gif"));
    }
    if bytes.len() >= 12 && has_bytes_prefix(bytes, &rf) && bytes_eq4(bytes, 8, 0x57, 0x45, 0x42, 0x50) {
        return Some(owned("image/webp"));
    }
    if bytes.len() >= 11 && bytes_eq4(bytes, 4, 0x66, 0x74, 0x79, 0x70) && (bytes_eq3(bytes, 8, 0x61, 0x76, 0x69)
        || bytes_eq3(bytes, 8, 0x61, 0x76, 0x73)) {
        return Some(owned("image/avif"));
    }
    if bytes.len() >= 6 && has_bytes_prefix(bytes, &ico) && !(bytes[4] == 0 && bytes[5] == 0) {
        return Some(owned("image/x-icon"));
    }
    if bytes.len() >= 14 && has_bytes_prefix(bytes, &bmp) {
        let declared = le32_exec(bytes[2], bytes[3], bytes[4], bytes[5]);
        if declared == bytes.len() as u64 {
            return Some(owned("image/bmp"));
        }
    }
    None
}

/// Both sides positive.
pub open spec fn nonzero_dim(w: nat, h: nat) -> Option<(u32, u32)> {
    if w > 0 && h > 0 {
        Some((w as u32, h as u32))
    } else {
        None
    }
}

/// The magnitude of the two's-complement `i32` with little-endian bytes a b c d.
pub open spec fn abs_i32(a: u8, b: u8, c: u8, d: u8) -> nat {
    let u = le32(a, b, c, d);
    if u >= 0x8000_0000 {
        (0x1_0000_0000 - u) as nat
    } else {
        u
    }
}

/// The size in the frame header of a JPEG, scanning segments from `i`.
pub open spec fn jpeg_scan(b: Seq<u8>, i: int) -> Option<(u32, u32)>
    decreases b.len() - i,
{
    if i < 0 || !(i + 3 < b.len()) {
        None
    } else if b[i] != 0xff {
        jpeg_scan(b, i + 1)
    } else {
        let marker = b[i + 1];
        if marker == 0xff || marker == 0x01 || (0xd0 <= marker && marker <= 0xd9) {
            jpeg_scan(b, i + 2)
        } else {
            let seg = le16(b[i + 3], b[i + 2]);
            let is_sof = 0xc0 <= marker && marker <= 0xcf && marker != 0xc4 && marker != 0xc8 && marker != 0xcc;
            if is_sof && i + 9 < b.len() {
                nonzero_dim(le16(b[i + 8], b[i + 7]), le16(b[i + 6], b[i + 5]))
            } else if seg < 2 || i + 2 + seg >= b.len() {
                None
            } else {
                jpeg_scan(b, i + 2 + seg)
            }
        }
    }
}

/// The index of the first VP8 frame start code at or after `i`, before `end`.
pub open spec fn vp8_start(b: Seq<u8>, i: int, end: int) -> Option<int>
    decreases end - i,
{
    if i >= end {
        None
    } else if b[i] == 0x9d && b[i + 1] == 0x01 && b[i + 2] == 0x2a {
        Some(i)
    } else {
        vp8_start(b, i + 1, end)
    }
}

/// The size in a WebP header (at least 30 bytes long).
pub open spec fn webp_dims(b: Seq<u8>) -> Option<(u32, u32)> {
    let tag = b.subrange(12, 16);
    if tag == seq![0x56u8, 0x50u8, 0x38u8, 0x58u8] {
        nonzero_dim(le32(b[24], b[25], b[26], 0) + 1, le32(b[27], b[28], b[29], 0) + 1)
    } else if tag == seq![0x56u8, 0x50u8, 0x38u8, 0x20u8] {
        let end = if b.len() >= 7 {
            b.len() - 7
        } else {
            0
        };
        match vp8_start(b, 16, end) {
            Some(s) => nonzero_dim(le16(b[s + 3], b[s + 4]) % 16384, le16(b[s + 5], b[s + 6]) % 16384),
            None => None,
        }
    } else if tag == seq![0x56u8, 0x50u8, 0x38u8, 0x4cu8] {
        if b[20] != 0x2f {
            None
        } else {
            let bits = le32(b[21], b[22], b[23], b[24]);
            nonzero_dim(bits % 16384 + 1, (bits / 16384) % 16384 + 1)
        }
    } else {
        None
    }
}

/// Pixel width and height read from the header of a recognized image.
pub open spec fn image_dims_spec(b: Seq<u8>) -> Option<(u32, u32)> {
    if starts_bytes(b, png_magic()) {
        if b.len() >= 24 && b.subrange(12, 16) == seq![0x49u8, 0x48u8, 0x44u8, 0x52u8] {
            nonzero_dim(be32(b[16], b[17], b[18], b[19]), be32(b[20], b[21], b[22], b[23]))
        } else {
            None
        }
    } else if starts_bytes(b, gif87()) || starts_bytes(b, gif89()) {
        if b.len() >= 10 {
            nonzero_dim(le16(b[6], b[7]), le16(b[8], b[9]))
        } else {
            None
        }
    } else if starts_bytes(b, bm()) && b.len() >= 26 {
        nonzero_dim(abs_i32(b[18], b[19], b[20], b[21]), abs_i32(b[22], b[23], b[24], b[25]))
    } else if starts_bytes(b, jpeg_magic()) {
        jpeg_scan(b, 2)
    } else if b.len() >= 8 && starts_bytes(b, ico_magic()) {
        nonzero_dim(if b[6] == 0 {
            256
        } else {
            b[6] as nat
        }, if b[7] == 0 {
            256
        } else {
            b[7] as nat
        })
    } else if b.len() >= 30 && starts_bytes(b, riff()) && b.subrange(8, 12) == webp_tag() {
        webp_dims(b)
    } else {
        None
    }
}

fn nonzero_dim_exec(w: u64, h: u64) -> (r: Option<(u32, u32)>)
    requires
        w <= u32::MAX,
        h <= u32::MAX,
    ensures
        r == nonzero_dim(w as nat, h as nat),
{
    if w > 0 && h > 0 {
        Some((w as u32, h as u32))
    } else {
        None
    }
}

fn abs_i32_exec(a: u8, b: u8, c: u8, d: u8) -> (r: u64)
    ensures
        r as nat == abs_i32(a, b, c, d),
        r <= 0x8000_0000,
{
    let u = le32_exec(a, b, c, d);
    if u >= 0x8000_0000 {
        0x1_0000_0000 - u
    } else {
        u
    }
}

fn jpeg_dimensions(bytes: &[u8]) -> (r: Option<(u32, u32)>)
    ensures
        r == jpeg_scan(bytes@, 2),
{
    let n = bytes.len();
    let mut i: usize = 2;
    while i < n && n - i > 3
        invariant
            n == bytes@.len(),
            i >= 2,
            jpeg_scan(bytes@, 2) == jpeg_scan(bytes@, i as int),
        decreases n - i,
    {
        if bytes[i] != 0xff {
            i = i + 1;
            continue;
        }
        let marker = bytes[i + 1];
        if marker == 0xff || marker == 0x01 || (0xd0 <= marker && marker <= 0xd9) {
            i = i + 2;
            continue;
        }
        let seg = (bytes[i + 2] as usize) * 256 + (bytes[i + 3] as usize);
        let is_sof = 0xc0 <= marker && marker <= 0xcf && marker != 0xc4 && marker != 0xc8 && marker != 0xcc;
        if is_sof && n - i > 9 {
            let h = (bytes[i + 5] as u64) * 256 + (bytes[i + 6] as u64);
            let w = (bytes[i + 7] as u64) * 256 + (bytes[i + 8] as u64);
            return nonzero_dim_exec(w, h);
        }
        if seg < 2 {
            return None;
        }
        if n - i <= seg + 2 {
            return None;
        }
        i = i + 2 + seg;
    }
    None
}

fn webp_dimensions(b: &[u8]) -> (r: Option<(u32, u32)>)
    requires
        b@.len() >= 30,
    ensures
        r == webp_dims(b@),
{
    if bytes_eq4(b, 12, 0x56, 0x50, 0x38, 0x58) {
        let w = le32_exec(b[24], b[25], b[26], 0) + 1;
        let h = le32_exec(b[27], b[28], b[29], 0) + 1;
        return nonzero_dim_exec(w, h);
    }
    if bytes_eq4(b, 12, 0x56, 0x50, 0x38, 0x20) {
        let end = if b.len() >= 7 {
            b.len() - 7
        } else {
            0
        };
        let mut i: usize = 16;
        while i < end
            invariant
                16 <= i,
                end + 7 == b@.len(),
                b@.subrange(12, 16) != seq![0x56u8, 0x50u8, 0x38u8, 0x58u8],
                b@.subrange(12, 16) == seq![0x56u8, 0x50u8, 0x38u8, 0x20u8],
                vp8_start(b@, 16, end as int) == vp8_start(b@, i as int, end as int),
            decreases end - i,
        {
            if b[i] == 0x9d && b[i + 1] == 0x01 && b[i + 2] == 0x2a {
                assert(vp8_start(b@, i as int, end as int) == Some(i as int));
                let w = ((b[i + 3] as u64) + (b[i + 4] as u64) * 256) % 16384;
                let h = ((b[i + 5] as u64) + (b[i + 6] as u64) * 256) % 16384;
                assert(w as nat == le16(b@[i + 3], b@[i + 4]) % 16384);
                assert(h as nat == le16(b@[i + 5], b@[i + 6]) % 16384);
                assert(webp_dims(b@) == nonzero_dim(w as nat, h as nat));
                return nonzero_dim_exec(w, h);
            }
            i = i + 1;
        }
        return None;
    }
    if bytes_eq4(b, 12, 0x56, 0x50, 0x38, 0x4c) {
        if b[20] != 0x2f {
            return None;
        }
        let bits = le32_exec(b[21], b[22], b[23], b[24]);
        return nonzero_dim_exec(bits % 16384 + 1, (bits / 16384) % 16384 + 1);
    }
    None
}

/// Reads the pixel size from an image header without decoding the image.
pub fn image_dimensions(bytes: &[u8]) -> (r: Option<(u32, u32)>)
    ensures
        r == image_dims_spec(bytes@),
{
    let png: [u8; 8] = [0x89, 0x50, 0x4e, 0x47, 0x0d, 0x0a, 0x1a, 0x0a];
    let jpg: [u8; 3] = [0xff, 0xd8, 0xff];
    let g7: [u8; 6] = [0x47, 0x49, 0x46, 0x38, 0x37, 0x61];
    let g9: [u8; 6] = [0x47, 0x49, 0x46, 0x38, 0x39, 0x61];
    let rf: [u8; 4] = [0x52, 0x49, 0x46, 0x46];
    let ico: [u8; 4] = [0, 0, 1, 0];
    let bmp: [u8; 2] = [0x42, 0x4d];
    assert(png@ =~= png_magic());
    assert(jpg@ =~= jpeg_magic());
    assert(g7@ =~= gif87());
    assert(g9@ =~= gif89());
    assert(rf@ =~= riff());
    assert(ico@ =~= ico_magic());
    assert(bmp@ =~= bm());
    if has_bytes_prefix(bytes, &png) {
        if bytes.len() >= 24 && bytes_eq4(bytes, 12, 0x49, 0x48, 0x44, 0x52) {
            let w = le32_exec(bytes[19], bytes[18], bytes[17], bytes[16]);
            let h = le32_exec(bytes[23], bytes[22], bytes[21], bytes[20]);
            return nonzero_dim_exec(w, h);
        }
        return None;
    }
    if has_bytes_prefix(bytes, &g7) || has_bytes_prefix(bytes, &g9) {
        if bytes.len() >= 10 {
            let w = (bytes[6] as u64) + (bytes[7] as u64) * 256;
            let h = (bytes[8] as u64) + (bytes[9] as u64) * 256;
            return nonzero_dim_exec(w, h);
        }
        return None;
    }
    if has_bytes_prefix(bytes, &bmp) && bytes.len() >= 26 {
        let w = abs_i32_exec(bytes[18], bytes[19], bytes[20], bytes[21]);
        let h = abs_i32_exec(bytes[22], bytes[23], bytes[24], bytes[25]);
        return nonzero_dim_exec(w, h);
    }
    if has_bytes_prefix(bytes, &jpg) {
        return jpeg_dimensions(bytes);
    }
    if bytes.len() >= 8 && has_bytes_prefix(bytes, &ico) {
        let w: u64 = if bytes[6] == 0 {
            256
        } else {
            bytes[6] as u64
        };
        let h: u64 = if bytes[7] == 0 {
            256
        } else {
            bytes[7] as u64
        };
        return nonzero_dim_exec(w, h);
    }
    if bytes.len() >= 30 && has_bytes_prefix(bytes, &rf) && bytes_eq4(bytes, 8, 0x57, 0x45, 0x42, 0x50) {
        return webp_dimensions(bytes);
    }
    None
}

/// The part of `s` after its last `/` or `\`.
pub open spec fn after_last_sep(s: Seq<char>) -> Seq<char>
    decreases s.len(),
{
    if s.len() == 0 {
        s
    } else if s.last() == '/' || s.last() == '\\' {
        Seq::empty()
    } else {
        after_last_sep(s.drop_last()).push(s.last())
    }
}

/// Index of the last `c` in `s`.
pub open spec fn rfind_char(s: Seq<char>, c: char) -> Option<int>
    decreases s.len(),
{
    if s.len() == 0 {
        None
    } else if s.last() == c {
        Some(s.len() - 1)
    } else {
        rfind_char(s.drop_last(), c)
    }
}

/// Extensions worth reading to look for an image magic number.
pub open spec fn image_exts() -> Seq<Seq<char>> {
    seq!["png"@, "apng"@, "jpg"@, "jpeg"@, "jfif"@, "gif"@, "bmp"@, "webp"@, "avif"@, "ico"@, "cur"@]
}

/// The file name of `path` has an image extension (ASCII case-insensitive); a
/// leading dot does not start an extension.
pub open spec fn has_image_ext_spec(path: Seq<char>) -> bool {
    let name = after_last_sep(path);
    match rfind_char(name, '.') {
        Some(i) => i > 0 && image_exts().contains(lower(name.skip(i + 1))),
        None => false,
    }
}

fn after_last_sep_exec(s: &[char]) -> (r: Vec<char>)
    ensures
        r@ == after_last_sep(s@),
{
    let mut out: Vec<char> = Vec::new();
    let n = s.len();
    for i in 0..n
        invariant
            n == s@.len(),
            out@ == after_last_sep(s@.take(i as int)),
    {
        assert(s@.take(i + 1).drop_last() == s@.take(i as int));
        if s[i] == '/' || s[i] == '\\' {
            out = Vec::new();
            assert(out@ =~= Seq::<char>::empty());
        } else {
            out.push(s[i]);
        }
    }
    assert(s@.take(n as int) == s@);
    out
}

fn rfind_exec(s: &[char], c: char) -> (r: Option<usize>)
    ensures
        r is Some <==> rfind_char(s@, c) is Some,
        r matches Some(i) ==> rfind_char(s@, c) == Some(i as int) && i < s@.len(),
{
    let mut i = s.len();
    assert(s@.take(i as int) == s@);
    while i > 0
        invariant
            i <= s@.len(),
            rfind_char(s@, c) == rfind_char(s@.take(i as int), c),
        decreases i,
    {
        assert(s@.take(i as int).drop_last() == s@.take(i - 1));
        if s[i - 1] == c {
            return Some(i - 1);
        }
        i = i - 1;
    }
    None
}

pub fn lower_vec(s: &[char]) -> (r: Vec<char>)
    ensures
        r@ == lower(s@),
{
    let mut out: Vec<char> = Vec::new();
    let n = s.len();
    for i in 0..n
        invariant
            n == s@.len(),
            out@ == lower(s@.take(i as int)),
    {
        out.push(to_lower_char(s[i]));
        assert(lower(s@.take(i + 1)) =~= lower(s@.take(i as int)).push(lower_char(s@[i as int])));
    }
    assert(s@.take(n as int) == s@);
    out
}

/// Whether `path` has an image extension (it only decides whether to read the file).
pub fn has_image_extension(path: &str) -> (r: bool)
    ensures
        r == has_image_ext_spec(path@),
{
    let name = after_last_sep_exec(&chars_of(path));
    match rfind_exec(&name, '.') {
        Some(i) => {
            if i == 0 {
                return false;
            }
            let nl = name.len();
            assert(i < nl);
            let start = i + 1;
            let ext = lower_vec(&crate::text::slice_vec(&name, start, nl));
            assert(name@.subrange(i + 1, name@.len() as int) == name@.skip(i + 1));
            let exts = [
                chars_of("png"),
                chars_of("apng"),
                chars_of("jpg"),
                chars_of("jpeg"),
                chars_of("jfif"),
                chars_of("gif"),
                chars_of("bmp"),
                chars_of("webp"),
                chars_of("avif"),
                chars_of("ico"),
                chars_of("cur"),
            ];
            let ghost ev = image_exts();
            let mut found = false;
            for k in 0..11
                invariant
                    exts@.len() == 11,
                    ev == image_exts(),
                    forall|q: int| 0 <= q < 11 ==> #[trigger] exts@[q]@ == ev[q],
                    found == (exists|q: int| 0 <= q < k && ev[q] == ext@),
            {
                if crate::text::vec_eq(&exts[k], &ext) {
                    found = true;
                }
            }
            proof {
                if found {
                    let q = choose|q: int| 0 <= q < 11 && ev[q] == ext@;
                    assert(ev.contains(ext@));
                } else {
                    assert(!ev.contains(ext@)) by {
                        if ev.contains(ext@) {
                            let q = choose|q: int| 0 <= q < ev.len() && ev[q] == ext@;
                        }
                    }
                }
            }
            found
        },
        None => false,
    }
}

// ---------------------------------------------------------------------------
// One side of a binary preview

/// The base64 digit of the six-bit value `n`: `A`–`Z`, `a`–`z`, `0`–`9`, `+`, `/`.
pub open spec fn b64_digit(n: int) -> char {
    if n < 26 {
        (65 + n) as char
    } else if n < 52 {
        (71 + n) as char
    } else if n < 62 {
        (n - 4) as char
    } else if n == 62 {
        '+'
    } else {
        '/'
    }
}

/// Padded base64 with the standard alphabet: every three bytes become four
/// digits; a last group of one or two bytes becomes two or three digits and
/// is padded with `=` to four.
pub open spec fn base64_standard(b: Seq<u8>) -> Seq<char>
    decreases b.len(),
{
    if b.len() == 0 {
        seq![]
    } else if b.len() == 1 {
        seq![b64_digit((b[0] / 4) as int), b64_digit((b[0] % 4) * 16), '=', '=']
    } else if b.len() == 2 {
        seq![b64_digit((b[0] / 4) as int), b64_digit((b[0] % 4) * 16 + b[1] / 16), b64_digit((b[1] % 16) * 4), '=']
    } else {
        seq![
            b64_digit((b[0] / 4) as int),
            b64_digit((b[0] % 4) * 16 + b[1] / 16),
            b64_digit((b[1] % 16) * 4 + b[2] / 64),
            b64_digit((b[2] % 64) as int),
        ] + base64_standard(b.skip(3))
    }
}

/// `base64::engine::general_purpose::STANDARD.encode` of the base64 crate: padded
/// standard-alphabet encoding, as `base64_standard` states it. The crate panics when
/// the encoded length overflows `usize`, which the precondition rules out.
#[verifier::external_body]
pub(crate) fn base64_encode(bytes: &[u8]) -> (r: String)
    requires
        (bytes@.len() / 3 + 1) * 4 <= usize::MAX,
    ensures
        r@ == base64_standard(bytes@),
{
    base64::Engine::encode(&base64::engine::general_purpose::STANDARD, bytes)
}

/// Most pixels a preview may decode to.
pub const MAX_PREVIEW_PIXELS: u64 = 40000000;

/// Largest preview per side, in bytes.
pub const MAX_PREVIEW_BYTES: u64 = 4194304;

#[derive(Debug)]
pub struct BlobSide {
    pub size: u64,
    /// The MIME type confirmed by the magic number.
    pub mime: Option<String>,
    /// A data URL the browser can decode.
    pub data_url: Option<String>,
    /// Over the byte limit or the pixel limit.
    pub too_big: bool,
    pub width: Option<u32>,
    pub height: Option<u32>,
    pub over_pixels: bool,
}

pub struct BlobSideV {
    pub size: u64,
    pub mime: Option<Seq<char>>,
    pub data_url: Option<Seq<char>>,
    pub too_big: bool,
    pub width: Option<u32>,
    pub height: Option<u32>,
    pub over_pixels: bool,
}

pub open spec fn ov(o: Option<String>) -> Option<Seq<char>> {
    match o {
        Some(s) => Some(s@),
        None => None,
    }
}

impl View for BlobSide {
    type V = BlobSideV;

    open spec fn view(&self) -> BlobSideV {
        BlobSideV {
            size: self.size,
            mime: ov(self.mime),
            data_url: ov(self.data_url),
            too_big: self.too_big,
            width: self.width,
            height: self.height,
            over_pixels: self.over_pixels,
        }
    }
}

/// One preview side: the recognized type and size, and a data URL unless the
/// image would decode to too many pixels.
pub open spec fn make_side_spec(size: u64, limit: u64, bytes: Option<Seq<u8>>) -> BlobSideV {
    let mime = match bytes {
        Some(b) => sniff_spec(b),
        None => None,
    };
    let dims = match bytes {
        Some(b) => image_dims_spec(b),
        None => None,
    };
    let over = match dims {
        Some((w, h)) => w * h > MAX_PREVIEW_PIXELS,
        None => false,
    };
    BlobSideV {
        size,
        mime,
        data_url: match (mime, bytes) {
            (Some(m), Some(b)) => if !over {
                Some("data:"@ + m + ";base64,"@ + base64_standard(b))
            } else {
                None
            },
            _ => None,
        },
        too_big: size > limit || over,
        width: match dims {
            Some((w, _)) => Some(w),
            None => None,
        },
        height: match dims {
            Some((_, h)) => Some(h),
            None => None,
        },
        over_pixels: over,
    }
}

pub fn make_side(size: u64, limit: u64, bytes: Option<Vec<u8>>) -> (r: BlobSide)
    requires
        bytes matches Some(b) ==> (b@.len() / 3 + 1) * 4 <= usize::MAX,
    ensures
        r@ == make_side_spec(size, limit, match bytes {
            Some(b) => Some(b@),
            None => None,
        }),
{
    let (mime, dims) = match &bytes {
        Some(b) => (sniff_image(b.as_slice()), image_dimensions(b.as_slice())),
        None => (None, None),
    };
    let over = match dims {
        Some((w, h)) => {
            assert((w as u64) * (h as u64) <= 0xffff_ffff_ffff_ffff) by (nonlinear_arith)
                requires
                    w <= 0xffff_ffffu32,
                    h <= 0xffff_ffffu32,
            ;
            (w as u64) * (h as u64) > MAX_PREVIEW_PIXELS
        },
        None => false,
    };
    let url = match (&mime, &bytes) {
        (Some(m), Some(b)) => if !over {
            let mut u = owned("data:");
            u.append(m.as_str());
            u.append(";base64,");
            u.append(base64_encode(b.as_slice()).as_str());
            Some(u)
        } else {
            None
        },
        _ => None,
    };
    BlobSide {
        size,
        mime,
        data_url: url,
        too_big: size > limit || over,
        width: match dims {
            Some((w, _)) => Some(w),
            None => None,
        },
        height: match dims {
            Some((_, h)) => Some(h),
            None => None,
        },
        over_pixels: over,
    }
}

} // verus!
