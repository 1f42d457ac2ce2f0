use vstd::prelude::*;
use vstd::utf8::{decode_utf8, valid_utf8};

use crate::error::Error;

verus! {

/// A character mapped to ASCII lower case; other characters are unchanged.
pub open spec fn ascii_lower_char(c: char) -> char {
    if 'A' <= c <= 'Z' {
        ((c as u32) + 32) as char
    } else {
        c
    }
}

pub open spec fn ascii_lower_chars(s: Seq<char>) -> Seq<char> {
    s.map_values(|c: char| ascii_lower_char(c))
}

/// Relies on str::to_ascii_lowercase: 'A'..='Z' become 'a'..='z', every
/// other character stays.
#[verifier::external_body]
pub fn ascii_lowercase(s: &str) -> (r: String)
    ensures
        r@ == ascii_lower_chars(s@),
{
    s.to_ascii_lowercase()
}


/// `s` without its trailing zero bytes.
pub open spec fn trim_nul_end(s: Seq<u8>) -> Seq<u8>
    decreases s.len(),
{
    if s.len() > 0 && s.last() == 0 {
        trim_nul_end(s.drop_last())
    } else {
        s
    }
}

/// `s` without its leading zero bytes.
pub open spec fn trim_nul_start(s: Seq<u8>) -> Seq<u8>
    decreases s.len(),
{
    if s.len() > 0 && s[0] == 0 {
        trim_nul_start(s.drop_first())
    } else {
        s
    }
}

/// `s` without the zero bytes at either end.
pub open spec fn trim_nul(s: Seq<u8>) -> Seq<u8> {
    trim_nul_start(trim_nul_end(s))
}

/// A byte that pads a descriptive field: NUL or space.
pub open spec fn is_pad(b: u8) -> bool {
    b == 0 || b == 0x20
}

pub open spec fn trim_pad_end(s: Seq<u8>) -> Seq<u8>
    decreases s.len(),
{
    if s.len() > 0 && is_pad(s.last()) {
        trim_pad_end(s.drop_last())
    } else {
        s
    }
}

pub open spec fn trim_pad_start(s: Seq<u8>) -> Seq<u8>
    decreases s.len(),
{
    if s.len() > 0 && is_pad(s[0]) {
        trim_pad_start(s.drop_first())
    } else {
        s
    }
}

/// `s` without NULs or spaces at either end.
pub open spec fn trim_pad(s: Seq<u8>) -> Seq<u8> {
    trim_pad_start(trim_pad_end(s))
}

/// The text of bytes `from..to` of `b`, without NULs or spaces at either
/// end.
pub fn padded_text(b: &[u8], from: usize, to: usize) -> (r: Result<String, Error>)
    requires
        from <= to <= b@.len(),
    ensures
        r is Ok <==> valid_utf8(trim_pad(b@.subrange(from as int, to as int))),
        r matches Ok(s) ==> s@ == decode_utf8(trim_pad(b@.subrange(from as int, to as int))),
        r is Err ==> r == Err::<String, Error>(Error::InvalidUtf8),
{
    let ghost s = b@.subrange(from as int, to as int);
    let mut end = to;
    while end > from && (b[end - 1] == 0 || b[end - 1] == 0x20)
        invariant
            from <= end <= to <= b@.len(),
            trim_pad_end(s) == trim_pad_end(b@.subrange(from as int, end as int)),
        decreases end,
    {
        assert(b@.subrange(from as int, end as int).drop_last() =~= b@.subrange(
            from as int,
            end - 1,
        ));
        end -= 1;
    }
    assert(trim_pad_end(s) == b@.subrange(from as int, end as int));
    let mut start = from;
    while start < end && (b[start] == 0 || b[start] == 0x20)
        invariant
            from <= start <= end,
            end <= b@.len(),
            trim_pad(s) == trim_pad_start(b@.subrange(start as int, end as int)),
        decreases end - start,
    {
        assert(b@.subrange(start as int, end as int).drop_first() =~= b@.subrange(
            start + 1,
            end as int,
        ));
        start += 1;
    }
    utf8_string(slice_bytes(b, start, end))
}

/// The bytes `from..to` of `b`.
pub fn slice_bytes(b: &[u8], from: usize, to: usize) -> (r: Vec<u8>)
    requires
        from <= to <= b@.len(),
    ensures
        r@ == b@.subrange(from as int, to as int),
{
    let mut out: Vec<u8> = Vec::new();
    let mut i = from;
    while i < to
        invariant
            from <= i <= to <= b@.len(),
            out@ == b@.subrange(from as int, i as int),
        decreases to - i,
    {
        out.push(b[i]);
        i += 1;
    }
    out
}

/// The bytes `from..to` of `b` without the zero bytes at either end.
pub fn trimmed_field(b: &[u8], from: usize, to: usize) -> (r: Vec<u8>)
    requires
        from <= to <= b@.len(),
    ensures
        r@ == trim_nul(b@.subrange(from as int, to as int)),
{
    let ghost s = b@.subrange(from as int, to as int);
    let mut end = to;
    while end > from && b[end - 1] == 0
        invariant
            from <= end <= to <= b@.len(),
            trim_nul_end(s) == trim_nul_end(b@.subrange(from as int, end as int)),
        decreases end,
    {
        assert(b@.subrange(from as int, end as int).drop_last() =~= b@.subrange(
            from as int,
            end - 1,
        ));
        end -= 1;
    }
    assert(trim_nul_end(s) == b@.subrange(from as int, end as int));
    let mut start = from;
    while start < end && b[start] == 0
        invariant
            from <= start <= end,
            end <= b@.len(),
            trim_nul(s) == trim_nul_start(b@.subrange(start as int, end as int)),
        decreases end - start,
    {
        assert(b@.subrange(start as int, end as int).drop_first() =~= b@.subrange(
            start + 1,
            end as int,
        ));
        start += 1;
    }
    slice_bytes(b, start, end)
}

/// Relies on String::from_utf8: it succeeds exactly on valid UTF-8 and then
/// holds the characters the bytes encode.
#[verifier::external_body]
pub fn utf8_string(b: Vec<u8>) -> (r: Result<String, Error>)
    ensures
        r is Ok <==> valid_utf8(b@),
        r is Ok ==> r->Ok_0@ == decode_utf8(b@),
        r is Err ==> r->Err_0 == Error::InvalidUtf8,
{
    String::from_utf8(b).map_err(|_| Error::InvalidUtf8)
}

/// The text of the bytes `from..to` of `b`, without its trailing NULs.
pub fn trailing_trimmed_text(b: &[u8], from: usize, to: usize) -> (r: Result<String, Error>)
    requires
        from <= to <= b@.len(),
    ensures
        r is Ok <==> valid_utf8(trim_nul_end(b@.subrange(from as int, to as int))),
        r matches Ok(s) ==> s@ == decode_utf8(trim_nul_end(b@.subrange(from as int, to as int))),
        r is Err ==> r == Err::<String, Error>(Error::InvalidUtf8),
{
    let ghost s = b@.subrange(from as int, to as int);
    let mut end = to;
    while end > from && b[end - 1] == 0
        invariant
            from <= end <= to <= b@.len(),
            trim_nul_end(s) == trim_nul_end(b@.subrange(from as int, end as int)),
        decreases end,
    {
        assert(b@.subrange(from as int, end as int).drop_last() =~= b@.subrange(
            from as int,
            end - 1,
        ));
        end -= 1;
    }
    utf8_string(slice_bytes(b, from, end))
}

/// The text of the bytes `from..to` of `b`, without the NULs at either end.
pub fn trimmed_text(b: &[u8], from: usize, to: usize) -> (r: Result<String, Error>)
    requires
        from <= to <= b@.len(),
    ensures
        r is Ok <==> valid_utf8(trim_nul(b@.subrange(from as int, to as int))),
        r matches Ok(s) ==> s@ == decode_utf8(trim_nul(b@.subrange(from as int, to as int))),
        r is Err ==> r == Err::<String, Error>(Error::InvalidUtf8),
{
    utf8_string(trimmed_field(b, from, to))
}

/// A byte mapped to ASCII lower case.
pub open spec fn lower_byte(b: u8) -> u8 {
    if 0x41 <= b <= 0x5A {
        (b + 32) as u8
    } else {
        b
    }
}

pub open spec fn lower_bytes(s: Seq<u8>) -> Seq<u8> {
    s.map_values(|b: u8| lower_byte(b))
}

/// The bytes of `b` in ASCII lower case.
pub fn lowercase_bytes(b: &[u8]) -> (r: Vec<u8>)
    ensures
        r@ == lower_bytes(b@),
{
    let mut out: Vec<u8> = Vec::new();
    let mut i: usize = 0;
    while i < b.len()
        invariant
            i <= b@.len(),
            out@ == lower_bytes(b@.subrange(0, i as int)),
        decreases b@.len() - i,
    {
        let c = b[i];
        let l = if c >= 0x41 && c <= 0x5A {
            c + 32
        } else {
            c
        };
        out.push(l);
        i += 1;
        assert(out@ =~= lower_bytes(b@.subrange(0, i as int)));
    }
    assert(b@.subrange(0, b@.len() as int) =~= b@);
    out
}

/// Whether two byte strings are equal.
pub fn bytes_eq(a: &[u8], b: &[u8]) -> (r: bool)
    ensures
        r == (a@ == b@),
{
    if a.len() != b.len() {
        return false;
    }
    let mut i: usize = 0;
    while i < a.len()
        invariant
            i <= a@.len() == b@.len(),
            forall|j: int| 0 <= j < i ==> a@[j] == b@[j],
        decreases a@.len() - i,
    {
        if a[i] != b[i] {
            return false;
        }
        i += 1;
    }
    assert(a@ =~= b@);
    true
}

/// Lexicographic order on byte strings, a prefix first.
pub open spec fn lex_le(a: Seq<u8>, b: Seq<u8>) -> bool
    decreases a.len(),
{
    if a.len() == 0 {
        true
    } else if b.len() == 0 {
        false
    } else if a[0] != b[0] {
        a[0] < b[0]
    } else {
        lex_le(a.drop_first(), b.drop_first())
    }
}

/// Of two byte strings, one comes first.
pub proof fn lemma_lex_total(a: Seq<u8>, b: Seq<u8>)
    ensures
        lex_le(a, b) || lex_le(b, a),
    decreases a.len(),
{
    if a.len() > 0 && b.len() > 0 && a[0] == b[0] {
        lemma_lex_total(a.drop_first(), b.drop_first());
    }
}

/// Whether `a` comes no later than `b` lexicographically.
pub fn lex_less_eq(a: &[u8], b: &[u8]) -> (r: bool)
    ensures
        r == lex_le(a@, b@),
{
    let mut i: usize = 0;
    assert(a@.subrange(0, a@.len() as int) =~= a@);
    assert(b@.subrange(0, b@.len() as int) =~= b@);
    while i < a.len() && i < b.len() && a[i] == b[i]
        invariant
            i <= a@.len(),
            i <= b@.len(),
            lex_le(a@, b@) == lex_le(a@.subrange(i as int, a@.len() as int), b@.subrange(
                i as int,
                b@.len() as int,
            )),
        decreases a@.len() - i,
    {
        assert(a@.subrange(i as int, a@.len() as int).drop_first() =~= a@.subrange(
            i + 1,
            a@.len() as int,
        ));
        assert(b@.subrange(i as int, b@.len() as int).drop_first() =~= b@.subrange(
            i + 1,
            b@.len() as int,
        ));
        i += 1;
    }
    if i >= a.len() {
        true
    } else if i >= b.len() {
        false
    } else {
        a[i] < b[i]
    }
}

/// The index of the last `.` of a name, or -1.
pub open spec fn last_dot(s: Seq<u8>) -> int
    decreases s.len(),
{
    if s.len() == 0 {
        -1
    } else if s.last() == 0x2E {
        s.len() - 1
    } else {
        last_dot(s.drop_last())
    }
}

pub proof fn lemma_last_dot_bounds(s: Seq<u8>)
    ensures
        -1 <= last_dot(s) < s.len(),
        last_dot(s) >= 0 ==> s[last_dot(s)] == 0x2E,
        forall|j: int| last_dot(s) < j < s.len() ==> s[j] != 0x2E,
    decreases s.len(),
{
    if s.len() > 0 && s.last() != 0x2E {
        lemma_last_dot_bounds(s.drop_last());
        assert forall|j: int| last_dot(s) < j < s.len() implies s[j] != 0x2E by {
            if j < s.len() - 1 {
                assert(s.drop_last()[j] == s[j]);
            }
        }
    }
}

/// The extension of a file name: what follows its last dot, where that dot
/// is not its first byte.
pub open spec fn extension_of(name: Seq<u8>) -> Option<Seq<u8>> {
    let d = last_dot(name);
    if d <= 0 {
        None
    } else {
        Some(name.subrange(d + 1, name.len() as int))
    }
}

/// The stem of a file name: what precedes the dot of its extension.
pub open spec fn stem_of(name: Seq<u8>) -> Seq<u8> {
    let d = last_dot(name);
    if d <= 0 {
        name
    } else {
        name.subrange(0, d)
    }
}

/// Where the extension's dot of `name` lies, if it has an extension.
pub fn extension_dot(name: &[u8]) -> (r: Option<usize>)
    ensures
        match r {
            Some(d) => d == last_dot(name@) && d > 0,
            None => last_dot(name@) <= 0,
        },
{
    proof {
        lemma_last_dot_bounds(name@);
    }
    let mut i = name.len();
    assert(name@.subrange(0, name@.len() as int) =~= name@);
    while i > 0 && name[i - 1] != 0x2E
        invariant
            i <= name@.len(),
            last_dot(name@) == last_dot(name@.subrange(0, i as int)),
        decreases i,
    {
        assert(name@.subrange(0, i as int).drop_last() =~= name@.subrange(0, i - 1));
        i -= 1;
    }
    assert(name@.subrange(0, name@.len() as int) =~= name@);
    if i <= 1 {
        proof {
            if i == 1 {
                assert(last_dot(name@.subrange(0, 1)) == 0);
            }
        }
        None
    } else {
        Some(i - 1)
    }
}

/// Whether the name's extension, in ASCII lower case, is `ext`.
pub fn has_extension(name: &[u8], ext: &[u8]) -> (r: bool)
    ensures
        r == (extension_of(name@) matches Some(e) && lower_bytes(e) == ext@),
{
    proof {
        lemma_last_dot_bounds(name@);
    }
    match extension_dot(name) {
        None => false,
        Some(d) => {
            let n = name.len();
            assert(d < n);
            let e = lowercase_bytes(&slice_bytes(name, d + 1, n));
            bytes_eq(&e, ext)
        },
    }
}

/// What String::from_utf8_lossy makes of some bytes.
pub uninterp spec fn utf8_lossy(b: Seq<u8>) -> Seq<char>;

/// Relies on String::from_utf8_lossy: the text depends on the bytes alone,
/// and valid UTF-8 is decoded as it is.
#[verifier::external_body]
pub fn lossy_string(b: &[u8]) -> (r: String)
    ensures
        r@ == utf8_lossy(b@),
        valid_utf8(b@) ==> r@ == decode_utf8(b@),
{
    String::from_utf8_lossy(b).into_owned()
}

/// The little-endian values of two and four bytes from `at` on.
pub open spec fn le16_at(b: Seq<u8>, at: int) -> int {
    b[at] + 256 * b[at + 1]
}

pub open spec fn le32_at(b: Seq<u8>, at: int) -> int {
    le16_at(b, at) + 65536 * le16_at(b, at + 2)
}

pub open spec fn le64_at(b: Seq<u8>, at: int) -> int {
    le32_at(b, at) + 0x1_0000_0000 * le32_at(b, at + 4)
}

/// The big-endian value of four bytes from `at` on.
pub open spec fn be32_at(b: Seq<u8>, at: int) -> int {
    b[at + 3] + 256 * b[at + 2] + 65536 * b[at + 1] + 16777216 * b[at]
}

pub fn read_le16(b: &[u8], at: usize) -> (r: u16)
    requires
        at + 2 <= b@.len(),
    ensures
        r == le16_at(b@, at as int),
{
    b[at] as u16 + 256 * (b[at + 1] as u16)
}

pub fn read_le32(b: &[u8], at: usize) -> (r: u32)
    requires
        at + 4 <= b@.len(),
    ensures
        r == le32_at(b@, at as int),
{
    let n = b.len();
    assert(at + 4 <= n);
    read_le16(b, at) as u32 + 65536 * (read_le16(b, at + 2) as u32)
}

pub fn read_le64(b: &[u8], at: usize) -> (r: u64)
    requires
        at + 8 <= b@.len(),
    ensures
        r == le64_at(b@, at as int),
{
    let n = b.len();
    assert(at + 8 <= n);
    read_le32(b, at) as u64 + 0x1_0000_0000 * (read_le32(b, at + 4) as u64)
}

pub fn read_be32(b: &[u8], at: usize) -> (r: u32)
    requires
        at + 4 <= b@.len(),
    ensures
        r == be32_at(b@, at as int),
{
    let n = b.len();
    assert(at + 4 <= n);
    b[at + 3] as u32 + 256 * (b[at + 2] as u32) + 65536 * (b[at + 1] as u32) + 16777216 * (
    b[at] as u32)
}

} // verus!
