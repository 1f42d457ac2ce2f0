use vstd::prelude::*;
use vstd::string::*;
use vstd::utf8::{decode_utf8, encode_utf8, valid_utf8};

use crate::error::{Error, ParseTrailerMetadataTxtError};
use crate::file::File;
use crate::metadata::{TrailersMetadata, TrailersMetadataTxtEntry};
use crate::text::{slice_bytes, utf8_string};

verus! {

/// Whether the character is alphabetic or numeric in the Unicode sense.
pub uninterp spec fn alphanumeric(c: char) -> bool;

/// Relies on char::is_alphanumeric; on ASCII it holds of letters and digits
/// alone.
#[verifier::external_body]
fn is_alphanumeric(c: char) -> (r: bool)
    ensures
        r == alphanumeric(c),
        (c as u32) < 128 ==> (r <==> ('a' <= c <= 'z' || 'A' <= c <= 'Z' || '0' <= c <= '9')),
{
    c.is_alphanumeric()
}

/// ASCII whitespace as `split_ascii_whitespace` knows it.
pub open spec fn is_ws(b: u8) -> bool {
    b == 0x20 || b == 0x09 || b == 0x0A || b == 0x0C || b == 0x0D
}

/// The first index from `pos` on that holds a line feed, or the length.
pub open spec fn line_end(s: Seq<u8>, pos: int) -> int
    decreases s.len() - pos,
{
    if pos >= s.len() || pos < 0 {
        s.len() as int
    } else if s[pos] == 0x0A {
        pos
    } else {
        line_end(s, pos + 1)
    }
}

/// The line without its carriage return.
pub open spec fn strip_cr(l: Seq<u8>) -> Seq<u8> {
    if l.len() > 0 && l.last() == 0x0D {
        l.drop_last()
    } else {
        l
    }
}

/// The first index from `pos` on that holds no whitespace, or the length.
pub open spec fn skip_ws(s: Seq<u8>, pos: int) -> int
    decreases s.len() - pos,
{
    if 0 <= pos < s.len() && is_ws(s[pos]) {
        skip_ws(s, pos + 1)
    } else {
        pos
    }
}

/// The first index from `pos` on that holds whitespace, or the length.
pub open spec fn token_end(s: Seq<u8>, pos: int) -> int
    decreases s.len() - pos,
{
    if 0 <= pos < s.len() && !is_ws(s[pos]) {
        token_end(s, pos + 1)
    } else {
        pos
    }
}

pub proof fn lemma_token_end_bounds(s: Seq<u8>, pos: int)
    requires
        0 <= pos,
    ensures
        pos <= token_end(s, pos),
        pos <= s.len() ==> token_end(s, pos) <= s.len(),
    decreases s.len() - pos,
{
    if pos < s.len() && !is_ws(s[pos]) {
        lemma_token_end_bounds(s, pos + 1);
    }
}

/// The whitespace-separated tokens of `s` from `pos` on.
pub open spec fn tokens_from(s: Seq<u8>, pos: int) -> Seq<Seq<u8>>
    decreases s.len() - pos,
{
    if pos < 0 {
        Seq::empty()
    } else {
        let a = skip_ws(s, pos);
        if a >= s.len() {
            Seq::empty()
        } else {
            let b = token_end(s, a);
            if b <= pos || b > s.len() {
                Seq::empty()
            } else {
                seq![s.subrange(a, b)] + tokens_from(s, b)
            }
        }
    }
}

pub open spec fn is_digit(b: u8) -> bool {
    0x30 <= b <= 0x39
}

/// The value of a run of decimal digits.
pub open spec fn digits_value(s: Seq<u8>) -> int
    decreases s.len(),
{
    if s.len() == 0 {
        0
    } else {
        digits_value(s.drop_last()) * 10 + (s.last() - 0x30)
    }
}

/// The digits of a token after an optional `+`.
pub open spec fn unsigned_digits(t: Seq<u8>) -> Seq<u8> {
    if t.len() > 0 && t[0] == 0x2B {
        t.drop_first()
    } else {
        t
    }
}

/// The unsigned number a token spells, if it spells one not above `max`.
pub open spec fn parsed_number(t: Seq<u8>, max: int) -> Option<int> {
    let d = unsigned_digits(t);
    if d.len() > 0 && (forall|i: int| 0 <= i < d.len() ==> is_digit(d[i])) && digits_value(d)
        <= max {
        Some(digits_value(d))
    } else {
        None
    }
}

/// Reads an unsigned decimal number not above `max`, with an optional `+`.
pub fn parse_number(t: &[u8], max: u64) -> (r: Option<u64>)
    ensures
        match parsed_number(t@, max as int) {
            Some(v) => r == Some(v as u64) && 0 <= v <= max,
            None => r is None,
        },
{
    let start: usize = if t.len() > 0 && t[0] == 0x2B {
        1
    } else {
        0
    };
    let ghost d = unsigned_digits(t@);
    assert(d =~= t@.subrange(start as int, t@.len() as int));
    if start >= t.len() {
        return None;
    }
    let mut v: u64 = 0;
    let mut i: usize = start;
    while i < t.len()
        invariant
            start <= i <= t@.len(),
            d =~= t@.subrange(start as int, t@.len() as int),
            d == unsigned_digits(t@),
            forall|j: int| start <= j < i ==> is_digit(t@[j]),
            v == digits_value(t@.subrange(start as int, i as int)),
            v <= max,
        decreases t@.len() - i,
    {
        let c = t[i];
        if c < 0x30 || c > 0x39 {
            assert(d[i - start] == c);
            assert(!is_digit(d[i - start]));
            assert(!(forall|k: int| 0 <= k < d.len() ==> is_digit(d[k])));
            return None;
        }
        let digit = (c - 0x30) as u64;
        assert(t@.subrange(start as int, i + 1).drop_last() =~= t@.subrange(
            start as int,
            i as int,
        ));
        if digit > max || v > (max - digit) / 10 {
            proof {
                if digit <= max {
                    assert(v * 10 + digit > max) by (nonlinear_arith)
                        requires
                            v > (max - digit) / 10,
                            digit <= max,
                    ;
                }
                assert(d.subrange(0, i + 1 - start) =~= t@.subrange(start as int, i + 1));
                assert(d.subrange(0, d.len() as int) =~= d);
                assert(digits_value(t@.subrange(start as int, i + 1)) == v * 10 + digit);
                if forall|k: int| 0 <= k < d.len() ==> is_digit(d[k]) {
                    lemma_digits_value_prefix_monotone(d, i + 1 - start, d.len() as int);
                    assert(digits_value(d) > max);
                }
            }
            return None;
        }
        proof {
            assert(v * 10 + digit <= max) by (nonlinear_arith)
                requires
                    v <= (max - digit) / 10,
                    digit <= max,
            ;
        }
        v = v * 10 + digit;
        i += 1;
    }
    assert(t@.subrange(start as int, t@.len() as int) =~= d);
    Some(v)
}

/// Adding digits never lowers the value.
pub proof fn lemma_digits_value_prefix_monotone(d: Seq<u8>, i: int, j: int)
    requires
        0 <= i <= j <= d.len(),
        forall|k: int| 0 <= k < d.len() ==> is_digit(d[k]),
    ensures
        digits_value(d.subrange(0, i)) <= digits_value(d.subrange(0, j)),
    decreases j - i,
{
    if i < j {
        lemma_digits_value_prefix_monotone(d, i, j - 1);
        assert(d.subrange(0, j).drop_last() =~= d.subrange(0, j - 1));
        lemma_digits_value_nonneg(d.subrange(0, j - 1));
    }
}

pub proof fn lemma_digits_value_nonneg(d: Seq<u8>)
    requires
        forall|k: int| 0 <= k < d.len() ==> is_digit(d[k]),
    ensures
        digits_value(d) >= 0,
    decreases d.len(),
{
    if d.len() > 0 {
        lemma_digits_value_nonneg(d.drop_last());
    }
}

/// A manifest line as plain values: title, id, start, end and offset.
pub type EntryView = (Seq<char>, u16, u32, usize, usize);

pub open spec fn entry_view(e: TrailersMetadataTxtEntry) -> EntryView {
    (e.title@, e.id, e.start, e.end, e.offset)
}

/// Every character is alphanumeric.
pub open spec fn all_alnum(cs: Seq<char>) -> bool {
    forall|i: int| 0 <= i < cs.len() ==> alphanumeric(cs[i])
}

/// Why a line is refused: its text is not UTF-8, or it is malformed
/// (five tokens of which a number does not parse, or another count of
/// tokens that is not a stray alphanumeric word).
pub const LINE_BAD_TEXT: u8 = 0;

pub const LINE_MALFORMED: u8 = 2;

/// What one line gives: nothing (a comment or a stray word), a record, or
/// the reason it is refused.
pub open spec fn line_decoded(line: Seq<u8>) -> Result<Option<EntryView>, u8> {
    if line.len() > 0 && line[0] == 0x3B {
        Ok(None)
    } else {
        let t = tokens_from(line, 0);
        if t.len() == 5 {
            let id = parsed_number(t[1], 0xFFFF);
            let start = parsed_number(t[2], 0xFFFF_FFFF);
            let end = parsed_number(t[3], usize::MAX as int);
            let offset = parsed_number(t[4], usize::MAX as int);
            if id is None || start is None || end is None || offset is None {
                if !valid_utf8(line) {
                    Err(LINE_BAD_TEXT)
                } else {
                    Err(LINE_MALFORMED)
                }
            } else if !valid_utf8(t[0]) {
                Err(LINE_BAD_TEXT)
            } else {
                Ok(
                    Some(
                        (
                            decode_utf8(t[0]),
                            id->0 as u16,
                            start->0 as u32,
                            end->0 as usize,
                            offset->0 as usize,
                        ),
                    ),
                )
            }
        } else if !valid_utf8(line) {
            Err(LINE_BAD_TEXT)
        } else if all_alnum(decode_utf8(line)) {
            Ok(None)
        } else {
            Err(LINE_MALFORMED)
        }
    }
}

/// The records of the lines from `pos` on, the first of which has index
/// `lineno`; or the reason and index of the first refused line.
pub open spec fn decode_from(s: Seq<u8>, pos: int, lineno: int) -> Result<
    Seq<EntryView>,
    (u8, int, Seq<u8>),
>
    decreases s.len() - pos,
{
    if pos < 0 || pos >= s.len() {
        Ok(Seq::empty())
    } else {
        let e = line_end(s, pos);
        if e < pos {
            Ok(Seq::empty())
        } else {
            let line = strip_cr(s.subrange(pos, e));
            match line_decoded(line) {
                Err(k) => Err((k, lineno, line)),
                Ok(x) => match (if e + 1 >= s.len() {
                    Ok(Seq::empty())
                } else {
                    decode_from(s, e + 1, lineno + 1)
                }) {
                    Err(er) => Err(er),
                    Ok(rest) => Ok(
                        match x {
                            Some(v) => seq![v] + rest,
                            None => rest,
                        },
                    ),
                },
            }
        }
    }
}

/// What a whole manifest decodes to.
pub open spec fn decoded_manifest(s: Seq<u8>) -> Result<Seq<EntryView>, (u8, int, Seq<u8>)> {
    decode_from(s, 0, 0)
}

/// The whitespace-separated tokens of a line.
fn tokenize(line: &[u8]) -> (r: Vec<Vec<u8>>)
    ensures
        r@.map_values(|t: Vec<u8>| t@) == tokens_from(line@, 0),
{
    let mut toks: Vec<Vec<u8>> = Vec::new();
    let mut pos: usize = 0;
    while pos < line.len()
        invariant
            pos <= line@.len(),
            toks@.map_values(|t: Vec<u8>| t@) + tokens_from(line@, pos as int) == tokens_from(
                line@,
                0,
            ),
        decreases line@.len() - pos,
    {
        let ghost p0 = pos as int;
        let mut a = pos;
        while a < line.len() && (line[a] == 0x20 || line[a] == 0x09 || line[a] == 0x0A
            || line[a] == 0x0C || line[a] == 0x0D)
            invariant
                p0 <= a <= line@.len(),
                skip_ws(line@, p0) == skip_ws(line@, a as int),
            decreases line@.len() - a,
        {
            a += 1;
        }
        if a >= line.len() {
            pos = a;
            assert(tokens_from(line@, p0) =~= Seq::<Seq<u8>>::empty());
            assert(tokens_from(line@, pos as int) =~= Seq::<Seq<u8>>::empty());
        } else {
        let mut b = a;
        while b < line.len() && !(line[b] == 0x20 || line[b] == 0x09 || line[b] == 0x0A
            || line[b] == 0x0C || line[b] == 0x0D)
            invariant
                a <= b <= line@.len(),
                token_end(line@, a as int) == token_end(line@, b as int),
            decreases line@.len() - b,
        {
            b += 1;
        }
        assert(b > a);
        let tok = slice_bytes(line, a, b);
        let ghost before = toks@.map_values(|t: Vec<u8>| t@);
        toks.push(tok);
        assert(toks@.map_values(|t: Vec<u8>| t@) =~= before + seq![line@.subrange(
            a as int,
            b as int,
        )]);
        pos = b;
        }
    }
    assert(skip_ws(line@, pos as int) == pos as int);
    assert(tokens_from(line@, pos as int) =~= Seq::<Seq<u8>>::empty());
    assert(toks@.map_values(|t: Vec<u8>| t@) =~= tokens_from(line@, 0));
    toks
}

/// Whether every character of the text is alphanumeric.
fn all_alphanumeric(s: &String) -> (r: bool)
    ensures
        r == all_alnum(s@),
{
    let n = s.as_str().unicode_len();
    let mut i: usize = 0;
    while i < n
        invariant
            i <= n == s@.len(),
            forall|j: int| 0 <= j < i ==> alphanumeric(s@[j]),
        decreases n - i,
    {
        if !is_alphanumeric(s.as_str().get_char(i)) {
            return false;
        }
        i += 1;
    }
    true
}

/// Decodes one line; `lineno` is its zero-based index among all lines and
/// `path` names the manifest in errors.
fn line_to_entry(line: &[u8], lineno: usize, path: &str) -> (r: Result<
    Option<TrailersMetadataTxtEntry>,
    Error,
>)
    ensures
        match line_decoded(line@) {
            Ok(None) => r matches Ok(None),
            Ok(Some(v)) => r matches Ok(Some(e)) && entry_view(e) == v,
            Err(k) => line_error(r, k, lineno as int, path@, line@),
        },
{
    if line.len() > 0 && line[0] == 0x3B {
        return Ok(None);
    }
    let tokens = tokenize(line);
    proof {
        assert(tokens@.map_values(|t: Vec<u8>| t@).len() == tokens@.len());
    }
    if tokens.len() == 5 {
        proof {
            assert forall|i: int| 0 <= i < 5 implies tokens@[i]@ == tokens_from(line@, 0)[i] by {
                assert(tokens@.map_values(|t: Vec<u8>| t@)[i] == tokens@[i]@);
            }
        }
        let id = parse_number(tokens[1].as_slice(), 0xFFFF);
        let start = parse_number(tokens[2].as_slice(), 0xFFFF_FFFF);
        let end = parse_number(tokens[3].as_slice(), usize::MAX as u64);
        let offset = parse_number(tokens[4].as_slice(), usize::MAX as u64);
        match (id, start, end, offset) {
            (Some(id), Some(start), Some(end), Some(offset)) => {
                let first = slice_bytes(&tokens[0], 0, tokens[0].len());
                assert(first@ =~= tokens_from(line@, 0)[0]);
                let title = utf8_string(first)?;
                Ok(
                    Some(
                        TrailersMetadataTxtEntry {
                            title,
                            id: id as u16,
                            start: start as u32,
                            end: end as usize,
                            offset: offset as usize,
                        },
                    ),
                )
            },
            _ => {
                let whole = slice_bytes(line, 0, line.len());
                assert(whole@ =~= line@);
                let text = utf8_string(whole)?;
                let low = (lineno as u64 % 0x1_0000_0000u64) as u32;
                assert(low.wrapping_add(2) == (lineno + 2) % 0x1_0000_0000);
                Err(
                    Error::ParseTrailerMetadataTxt(
                        ParseTrailerMetadataTxtError {
                            file: path.to_owned(),
                            line: text,
                            position: low.wrapping_add(2),
                        },
                    ),
                )
            },
        }
    } else {
        let whole = slice_bytes(line, 0, line.len());
        assert(whole@ =~= line@);
        let text = utf8_string(whole)?;
        if all_alphanumeric(&text) {
            Ok(None)
        } else {
            let low = (lineno as u64 % 0x1_0000_0000u64) as u32;
            assert(low.wrapping_add(2) == (lineno + 2) % 0x1_0000_0000);
            Err(
                Error::ParseTrailerMetadataTxt(
                    ParseTrailerMetadataTxtError {
                        file: path.to_owned(),
                        line: text,
                        position: ((lineno as u64 % 0x1_0000_0000u64) as u32).wrapping_add(2),
                    },
                ),
            )
        }
    }
}

/// The error that a refused line gives: `kind` says why, `lineno` which
/// line (zero-based, comments counted) and `line` its bytes.
pub open spec fn line_error<T>(
    r: Result<T, Error>,
    kind: u8,
    lineno: int,
    path: Seq<char>,
    line: Seq<u8>,
) -> bool {
    if kind == LINE_BAD_TEXT {
        r == Err::<T, Error>(Error::InvalidUtf8)
    } else {
        r matches Err(Error::ParseTrailerMetadataTxt(e)) && e.file@ == path && e.line@
            == decode_utf8(line) && e.position == (lineno + 2) % 0x1_0000_0000
    }
}

pub proof fn lemma_line_end_step(s: Seq<u8>, pos: int, i: int)
    requires
        0 <= pos <= i <= s.len(),
        forall|j: int| pos <= j < i ==> s[j] != 0x0A,
    ensures
        line_end(s, pos) == line_end(s, i),
    decreases i - pos,
{
    if pos < i {
        lemma_line_end_step(s, pos + 1, i);
    }
}

/// Decodes a trailers manifest held in `bytes`; `path` names it in errors.
pub fn decode_trailers_txt(bytes: &[u8], path: &str) -> (r: Result<TrailersMetadata, Error>)
    ensures
        match decoded_manifest(bytes@) {
            Ok(es) => r matches Ok(m) && m.entries@.map_values(|e: TrailersMetadataTxtEntry| entry_view(e)) == es,
            Err((k, n, l)) => line_error(r, k, n, path@, l),
        },
{
    let mut entries: Vec<TrailersMetadataTxtEntry> = Vec::new();
    let mut pos: usize = 0;
    let mut lineno: usize = 0;
    while pos < bytes.len()
        invariant
            pos <= bytes@.len(),
            lineno <= pos,
            decoded_manifest(bytes@) == (match decode_from(bytes@, pos as int, lineno as int) {
                Err(er) => Err(er),
                Ok(rest) => Ok(entries@.map_values(|e: TrailersMetadataTxtEntry| entry_view(e)) + rest),
            }),
        decreases bytes@.len() - pos,
    {
        let mut e = pos;
        while e < bytes.len() && bytes[e] != 0x0A
            invariant
                pos <= e <= bytes@.len(),
                forall|j: int| pos <= j < e ==> bytes@[j] != 0x0A,
            decreases bytes@.len() - e,
        {
            e += 1;
        }
        proof {
            lemma_line_end_step(bytes@, pos as int, e as int);
            assert(line_end(bytes@, e as int) == e);
        }
        let stop = if e > pos && bytes[e - 1] == 0x0D {
            e - 1
        } else {
            e
        };
        let line = slice_bytes(bytes, pos, stop);
        proof {
            let raw = bytes@.subrange(pos as int, e as int);
            if e > pos && bytes@[e - 1] == 0x0D {
                assert(raw.drop_last() =~= line@);
            } else {
                assert(raw =~= line@);
            }
            assert(strip_cr(raw) == line@);
        }
        let ghost before = entries@.map_values(|x: TrailersMetadataTxtEntry| entry_view(x));
        proof {
            let rest = if e + 1 >= bytes@.len() {
                Ok::<Seq<EntryView>, (u8, int, Seq<u8>)>(Seq::<EntryView>::empty())
            } else {
                decode_from(bytes@, e + 1, lineno + 1)
            };
            assert(decode_from(bytes@, pos as int, lineno as int) == match line_decoded(line@) {
                Err(k) => Err((k, lineno as int, line@)),
                Ok(x) => match rest {
                    Err(er) => Err(er),
                    Ok(rest) => Ok(
                        match x {
                            Some(v) => seq![v] + rest,
                            None => rest,
                        },
                    ),
                },
            });
        }
        let ghost xv = line_decoded(line@);
        match line_to_entry(&line, lineno, path) {
            Err(er) => {
                return Err(er);
            },
            Ok(Some(x)) => {
                entries.push(x);
                assert(entries@.map_values(|x: TrailersMetadataTxtEntry| entry_view(x)) =~= before
                    + seq![entry_view(x)]);
            },
            Ok(None) => {},
        }
        lineno = lineno + 1;
        if e >= bytes.len() {
            pos = bytes.len();
        } else {
            pos = e + 1;
        }
        proof {
            let ev = entries@.map_values(|x: TrailersMetadataTxtEntry| entry_view(x));
            match decode_from(bytes@, pos as int, lineno as int) {
                Ok(rest) => {
                    match xv {
                        Ok(Some(v)) => {
                            assert(ev + rest =~= before + (seq![v] + rest));
                        },
                        _ => {
                            assert(ev =~= before);
                        },
                    }
                },
                Err(_) => {},
            }
        }
    }
    Ok(TrailersMetadata { entries })
}

/// Reads and decodes the trailers manifest `file`; `path` names it in errors.
pub fn decode_trailers_from_txt_file<F: File>(file: &mut F, path: &str) -> (r: Result<
    TrailersMetadata,
    Error,
>)
    ensures
        final(file).content() == old(file).content(),
        final(file).pos() == old(file).pos(),
        r matches Ok(m) ==> decoded_manifest(old(file).content()) matches Ok(es) && m.entries@.map_values(
            |e: TrailersMetadataTxtEntry| entry_view(e),
        ) == es,
{
    let len = file.len();
    if len > usize::MAX as u64 {
        return Err(Error::UnexpectedEof);
    }
    let bytes = file.read_bytes(len as usize)?;
    assert(bytes@ =~= old(file).content());
    decode_trailers_txt(&bytes, path)
}

/// The decimal digits of `n`.
pub open spec fn digits_of(n: nat) -> Seq<u8>
    decreases n,
{
    if n < 10 {
        seq![(n + 0x30) as u8]
    } else {
        digits_of(n / 10) + seq![((n % 10) + 0x30) as u8]
    }
}

/// Appends the decimal digits of `n`.
pub fn push_decimal(out: &mut Vec<u8>, n: u64)
    ensures
        final(out)@ == old(out)@ + digits_of(n as nat),
    decreases n,
{
    if n >= 10 {
        push_decimal(out, n / 10);
    }
    out.push((n % 10) as u8 + 0x30);
    assert(final(out)@ =~= old(out)@ + digits_of(n as nat));
}

/// The two comment lines that open a manifest.
pub open spec fn manifest_header() -> Seq<u8> {
    seq![0x3Bu8, 0x4Eu8, 0x41u8, 0x4Du8, 0x45u8, 0x20u8, 0x20u8, 0x20u8, 0x20u8, 0x20u8, 0x20u8, 0x20u8, 0x20u8, 0x20u8, 0x20u8, 0x20u8, 0x53u8, 0x45u8, 0x52u8, 0x49u8, 0x41u8, 0x4Cu8, 0x20u8, 0x20u8, 0x53u8, 0x54u8, 0x41u8, 0x52u8, 0x54u8, 0x20u8, 0x20u8, 0x20u8, 0x45u8, 0x4Eu8, 0x44u8, 0x20u8, 0x20u8, 0x20u8, 0x20u8, 0x20u8, 0x4Fu8, 0x46u8, 0x46u8, 0x53u8, 0x45u8, 0x54u8, 0x0Du8, 0x0Au8, 0x3Bu8, 0x2Du8, 0x2Du8, 0x2Du8, 0x2Du8, 0x20u8, 0x20u8, 0x20u8, 0x20u8, 0x20u8, 0x20u8, 0x20u8, 0x20u8, 0x20u8, 0x20u8, 0x20u8, 0x2Du8, 0x2Du8, 0x2Du8, 0x2Du8, 0x2Du8, 0x2Du8, 0x20u8, 0x20u8, 0x2Du8, 0x2Du8, 0x2Du8, 0x2Du8, 0x2Du8, 0x20u8, 0x20u8, 0x20u8, 0x2Du8, 0x2Du8, 0x2Du8, 0x20u8, 0x20u8, 0x20u8, 0x20u8, 0x20u8, 0x2Du8, 0x2Du8, 0x2Du8, 0x2Du8, 0x2Du8, 0x2Du8, 0x0Du8, 0x0Au8]
}

/// The header of a manifest.
pub fn get_header() -> (r: Vec<u8>)
    ensures
        r@ == manifest_header(),
{
    let h: [u8; 96] = [0x3Bu8, 0x4Eu8, 0x41u8, 0x4Du8, 0x45u8, 0x20u8, 0x20u8, 0x20u8, 0x20u8, 0x20u8, 0x20u8, 0x20u8, 0x20u8, 0x20u8, 0x20u8, 0x20u8, 0x53u8, 0x45u8, 0x52u8, 0x49u8, 0x41u8, 0x4Cu8, 0x20u8, 0x20u8, 0x53u8, 0x54u8, 0x41u8, 0x52u8, 0x54u8, 0x20u8, 0x20u8, 0x20u8, 0x45u8, 0x4Eu8, 0x44u8, 0x20u8, 0x20u8, 0x20u8, 0x20u8, 0x20u8, 0x4Fu8, 0x46u8, 0x46u8, 0x53u8, 0x45u8, 0x54u8, 0x0Du8, 0x0Au8, 0x3Bu8, 0x2Du8, 0x2Du8, 0x2Du8, 0x2Du8, 0x20u8, 0x20u8, 0x20u8, 0x20u8, 0x20u8, 0x20u8, 0x20u8, 0x20u8, 0x20u8, 0x20u8, 0x20u8, 0x2Du8, 0x2Du8, 0x2Du8, 0x2Du8, 0x2Du8, 0x2Du8, 0x20u8, 0x20u8, 0x2Du8, 0x2Du8, 0x2Du8, 0x2Du8, 0x2Du8, 0x20u8, 0x20u8, 0x20u8, 0x2Du8, 0x2Du8, 0x2Du8, 0x20u8, 0x20u8, 0x20u8, 0x20u8, 0x20u8, 0x2Du8, 0x2Du8, 0x2Du8, 0x2Du8, 0x2Du8, 0x2Du8, 0x0Du8, 0x0Au8];
    let mut out: Vec<u8> = Vec::new();
    let mut i: usize = 0;
    while i < 96
        invariant
            i <= 96,
            h@ == manifest_header(),
            out@ == h@.subrange(0, i as int),
        decreases 96 - i,
    {
        out.push(h[i]);
        i += 1;
    }
    assert(out@ =~= manifest_header());
    out
}

/// The line that encodes one record, with its CR LF.
pub open spec fn entry_line(e: EntryView) -> Seq<u8> {
    encode_utf8(e.0) + seq![0x09u8] + digits_of(e.1 as nat) + seq![0x09u8] + digits_of(
        e.2 as nat,
    ) + seq![0x09u8] + digits_of(e.3 as nat) + seq![0x09u8] + digits_of(e.4 as nat) + seq![
        0x0Du8,
        0x0Au8,
    ]
}

/// The lines of all records, in order.
pub open spec fn entry_lines(es: Seq<EntryView>) -> Seq<u8>
    decreases es.len(),
{
    if es.len() == 0 {
        Seq::empty()
    } else {
        entry_lines(es.drop_last()) + entry_line(es.last())
    }
}

/// The whole manifest that encodes the records.
pub open spec fn encoded_manifest(es: Seq<EntryView>) -> Seq<u8> {
    manifest_header() + entry_lines(es)
}

/// The line that encodes one record.
pub fn entry_to_line(entry: &TrailersMetadataTxtEntry) -> (r: Vec<u8>)
    ensures
        r@ == entry_line(entry_view(*entry)),
{
    let mut out: Vec<u8> = Vec::new();
    let title = entry.title.as_str().as_bytes();
    let mut i: usize = 0;
    while i < title.len()
        invariant
            i <= title@.len(),
            out@ == title@.subrange(0, i as int),
        decreases title@.len() - i,
    {
        out.push(title[i]);
        i += 1;
    }
    out.push(0x09);
    push_decimal(&mut out, entry.id as u64);
    out.push(0x09);
    push_decimal(&mut out, entry.start as u64);
    out.push(0x09);
    push_decimal(&mut out, entry.end as u64);
    out.push(0x09);
    push_decimal(&mut out, entry.offset as u64);
    out.push(0x0D);
    out.push(0x0A);
    assert(out@ =~= entry_line(entry_view(*entry)));
    out
}

/// Encodes a trailers manifest: the two header lines, then one CR LF line per
/// record in order.
pub fn encode_trailers_txt(data: &TrailersMetadata) -> (r: Vec<u8>)
    ensures
        r@ == encoded_manifest(data.entries@.map_values(|e: TrailersMetadataTxtEntry| entry_view(e))),
{
    let mut buf = get_header();
    let mut i: usize = 0;
    while i < data.entries.len()
        invariant
            i <= data.entries@.len(),
            buf@ == manifest_header() + entry_lines(
                data.entries@.subrange(0, i as int).map_values(|e: TrailersMetadataTxtEntry| entry_view(e)),
            ),
        decreases data.entries@.len() - i,
    {
        let line = entry_to_line(&data.entries[i]);
        let mut k: usize = 0;
        let ghost b0 = buf@;
        while k < line.len()
            invariant
                k <= line@.len(),
                buf@ == b0 + line@.subrange(0, k as int),
            decreases line@.len() - k,
        {
            buf.push(line[k]);
            k += 1;
        }
        proof {
            let es = data.entries@.subrange(0, i + 1).map_values(|e: TrailersMetadataTxtEntry| entry_view(e));
            assert(es.drop_last() =~= data.entries@.subrange(0, i as int).map_values(
                |e: TrailersMetadataTxtEntry| entry_view(e),
            ));
            assert(line@.subrange(0, line@.len() as int) =~= line@);
            assert(buf@ =~= manifest_header() + entry_lines(es));
        }
        i += 1;
    }
    assert(data.entries@.subrange(0, data.entries@.len() as int) =~= data.entries@);
    buf
}

/// The decimal digits of a number are digits, at least one, and spell it.
pub proof fn lemma_digits_of(n: nat)
    ensures
        digits_of(n).len() > 0,
        forall|i: int| 0 <= i < digits_of(n).len() ==> is_digit(#[trigger] digits_of(n)[i]),
        digits_value(digits_of(n)) == n,
    decreases n,
{
    if n < 10 {
        let d = digits_of(n);
        assert(d.drop_last() =~= Seq::<u8>::empty());
        assert(d.last() == (n + 0x30) as u8);
        assert(digits_value(d) == digits_value(d.drop_last()) * 10 + (d.last() - 0x30));
    } else {
        lemma_digits_of(n / 10);
        let d = digits_of(n);
        assert(d.drop_last() =~= digits_of(n / 10));
        assert(d.last() == ((n % 10) + 0x30) as u8);
        assert((n / 10) * 10 + n % 10 == n) by (nonlinear_arith);
        assert(digits_value(d) == digits_value(d.drop_last()) * 10 + (d.last() - 0x30));
        assert(d.last() - 0x30 == n % 10);
        assert forall|i: int| 0 <= i < d.len() implies is_digit(#[trigger] d[i]) by {
            if i < d.len() - 1 {
                assert(d[i] == digits_of(n / 10)[i]);
            }
        }
    }
}

/// A number's digits parse back to it where it is within the bound.
pub proof fn lemma_parse_digits(n: nat, max: int)
    requires
        n <= max,
    ensures
        parsed_number(digits_of(n), max) == Some(n as int),
{
    lemma_digits_of(n);
    assert(unsigned_digits(digits_of(n)) == digits_of(n));
}

/// A run of non-whitespace from `p` that stops at `m` ends the token there.
pub proof fn lemma_token_end_run(s: Seq<u8>, p: int, m: int)
    requires
        0 <= p <= m <= s.len(),
        forall|i: int| p <= i < m ==> !is_ws(s[i]),
        m == s.len() || is_ws(s[m]),
    ensures
        token_end(s, p) == m,
    decreases m - p,
{
    if p < m {
        lemma_token_end_run(s, p + 1, m);
    }
}

/// The body of a record's line: its five fields separated by tabs.
pub open spec fn entry_body(e: EntryView) -> Seq<u8> {
    encode_utf8(e.0) + seq![0x09u8] + digits_of(e.1 as nat) + seq![0x09u8] + digits_of(e.2 as nat)
        + seq![0x09u8] + digits_of(e.3 as nat) + seq![0x09u8] + digits_of(e.4 as nat)
}

/// A record whose title the manifest can carry: one token of UTF-8, not
/// empty and not starting a comment.
pub open spec fn entry_writable(e: EntryView) -> bool {
    let t = encode_utf8(e.0);
    &&& t.len() > 0
    &&& t[0] != 0x3B
    &&& forall|i: int| 0 <= i < t.len() ==> !is_ws(#[trigger] t[i])
}

/// Tokens of `s` from `a` on, where `s[a..b]` is a token and a tab follows
/// it, are that token and the tokens after the tab.
pub proof fn lemma_tokens_step(s: Seq<u8>, a: int, b: int)
    requires
        0 <= a < b < s.len(),
        forall|i: int| a <= i < b ==> !is_ws(s[i]),
        s[b] == 0x09,
        b + 1 < s.len() && !is_ws(s[b + 1]),
    ensures
        tokens_from(s, a) == seq![s.subrange(a, b)] + tokens_from(s, b + 1),
{
    lemma_token_end_run(s, a, b);
    assert(skip_ws(s, a) == a);
    assert(skip_ws(s, b + 1) == b + 1);
    assert(skip_ws(s, b) == skip_ws(s, b + 1));
    lemma_token_end_bounds(s, b + 2);
    assert(token_end(s, b + 1) == token_end(s, b + 2));
    assert(tokens_from(s, b) == tokens_from(s, b + 1));
}

/// A record's line body splits into its five fields.
pub proof fn lemma_body_tokens(e: EntryView)
    requires
        entry_writable(e),
    ensures
        tokens_from(entry_body(e), 0) == seq![
            encode_utf8(e.0),
            digits_of(e.1 as nat),
            digits_of(e.2 as nat),
            digits_of(e.3 as nat),
            digits_of(e.4 as nat),
        ],
{
    let t = encode_utf8(e.0);
    let d1 = digits_of(e.1 as nat);
    let d2 = digits_of(e.2 as nat);
    let d3 = digits_of(e.3 as nat);
    let d4 = digits_of(e.4 as nat);
    lemma_digits_of(e.1 as nat);
    lemma_digits_of(e.2 as nat);
    lemma_digits_of(e.3 as nat);
    lemma_digits_of(e.4 as nat);
    let s = entry_body(e);
    let b0 = t.len() as int;
    let a1 = b0 + 1;
    let b1 = a1 + d1.len();
    let a2 = b1 + 1;
    let b2 = a2 + d2.len();
    let a3 = b2 + 1;
    let b3 = a3 + d3.len();
    let a4 = b3 + 1;
    let b4 = a4 + d4.len();
    assert(s.len() == b4);
    assert(s.subrange(0, b0) =~= t);
    assert(s.subrange(a1, b1) =~= d1);
    assert(s.subrange(a2, b2) =~= d2);
    assert(s.subrange(a3, b3) =~= d3);
    assert(s.subrange(a4, b4) =~= d4);
    assert forall|i: int| 0 <= i < b0 implies !is_ws(s[i]) by {
        assert(s[i] == t[i]);
    }
    assert forall|i: int| a1 <= i < b1 implies !is_ws(s[i]) by {
        assert(s[i] == d1[i - a1]);
        assert(is_digit(d1[i - a1]));
    }
    assert forall|i: int| a2 <= i < b2 implies !is_ws(s[i]) by {
        assert(s[i] == d2[i - a2]);
        assert(is_digit(d2[i - a2]));
    }
    assert forall|i: int| a3 <= i < b3 implies !is_ws(s[i]) by {
        assert(s[i] == d3[i - a3]);
        assert(is_digit(d3[i - a3]));
    }
    assert forall|i: int| a4 <= i < b4 implies !is_ws(s[i]) by {
        assert(s[i] == d4[i - a4]);
        assert(is_digit(d4[i - a4]));
    }
    assert(s[b0] == 0x09 && s[b1] == 0x09 && s[b2] == 0x09 && s[b3] == 0x09);
    assert(s[a1] == d1[0] && s[a2] == d2[0] && s[a3] == d3[0] && s[a4] == d4[0]);
    assert(is_digit(d1[0]) && is_digit(d2[0]) && is_digit(d3[0]) && is_digit(d4[0]));
    lemma_tokens_step(s, 0, b0);
    lemma_tokens_step(s, a1, b1);
    lemma_tokens_step(s, a2, b2);
    lemma_tokens_step(s, a3, b3);
    lemma_token_end_run(s, a4, b4);
    assert(skip_ws(s, a4) == a4);
    assert(skip_ws(s, b4) == b4);
    assert(tokens_from(s, b4) =~= Seq::<Seq<u8>>::empty());
    assert(tokens_from(s, a4) =~= seq![d4]);
    assert(skip_ws(s, 0) == 0);
}

/// A record's line body decodes to the record.
pub proof fn lemma_body_decodes(e: EntryView)
    requires
        entry_writable(e),
    ensures
        line_decoded(entry_body(e)) == Ok::<Option<EntryView>, u8>(Some(e)),
{
    broadcast use vstd::utf8::encode_utf8_valid_utf8, vstd::utf8::encode_utf8_decode_utf8;

    lemma_body_tokens(e);
    lemma_parse_digits(e.1 as nat, 0xFFFF);
    lemma_parse_digits(e.2 as nat, 0xFFFF_FFFF);
    lemma_parse_digits(e.3 as nat, usize::MAX as int);
    lemma_parse_digits(e.4 as nat, usize::MAX as int);
    let s = entry_body(e);
    assert(s[0] == encode_utf8(e.0)[0]);
}

/// A record's line body holds no line feed.
pub proof fn lemma_body_no_newline(e: EntryView)
    requires
        entry_writable(e),
    ensures
        forall|i: int| 0 <= i < entry_body(e).len() ==> entry_body(e)[i] != 0x0A,
{
    let t = encode_utf8(e.0);
    let d1 = digits_of(e.1 as nat);
    let d2 = digits_of(e.2 as nat);
    let d3 = digits_of(e.3 as nat);
    let d4 = digits_of(e.4 as nat);
    lemma_digits_of(e.1 as nat);
    lemma_digits_of(e.2 as nat);
    lemma_digits_of(e.3 as nat);
    lemma_digits_of(e.4 as nat);
    let s = entry_body(e);
    let b0 = t.len() as int;
    let a1 = b0 + 1;
    let b1 = a1 + d1.len();
    let a2 = b1 + 1;
    let b2 = a2 + d2.len();
    let a3 = b2 + 1;
    let b3 = a3 + d3.len();
    let a4 = b3 + 1;
    assert forall|i: int| 0 <= i < s.len() implies s[i] != 0x0A by {
        if i < b0 {
            assert(s[i] == t[i]);
        } else if a1 <= i < b1 {
            assert(s[i] == d1[i - a1]);
            assert(is_digit(d1[i - a1]));
        } else if a2 <= i < b2 {
            assert(s[i] == d2[i - a2]);
            assert(is_digit(d2[i - a2]));
        } else if a3 <= i < b3 {
            assert(s[i] == d3[i - a3]);
            assert(is_digit(d3[i - a3]));
        } else if a4 <= i {
            assert(s[i] == d4[i - a4]);
            assert(is_digit(d4[i - a4]));
        }
    }
}

/// The lines of the first `j` records begin the lines of the first `k`.
pub proof fn lemma_entry_lines_prefix(es: Seq<EntryView>, j: int, k: int)
    requires
        0 <= j <= k <= es.len(),
    ensures
        entry_lines(es.subrange(0, j)).len() <= entry_lines(es.subrange(0, k)).len(),
        entry_lines(es.subrange(0, k)).subrange(0, entry_lines(es.subrange(0, j)).len() as int)
            == entry_lines(es.subrange(0, j)),
    decreases k - j,
{
    if j < k {
        lemma_entry_lines_prefix(es, j, k - 1);
        assert(es.subrange(0, k).drop_last() =~= es.subrange(0, k - 1));
        let a = entry_lines(es.subrange(0, j));
        let b = entry_lines(es.subrange(0, k - 1));
        let c = entry_lines(es.subrange(0, k));
        assert(c == b + entry_line(es[k - 1]));
        assert(c.subrange(0, a.len() as int) =~= b.subrange(0, a.len() as int));
    } else {
        assert(entry_lines(es.subrange(0, k)).subrange(0, entry_lines(es.subrange(0, k)).len() as int)
            =~= entry_lines(es.subrange(0, k)));
    }
}

/// Where the `k`-th record's line starts in the encoded manifest.
pub open spec fn line_start(es: Seq<EntryView>, k: int) -> int {
    (manifest_header().len() + entry_lines(es.subrange(0, k)).len()) as int
}

/// The `k`-th record's line stands at its place in the encoded manifest.
pub proof fn lemma_line_in_place(es: Seq<EntryView>, k: int)
    requires
        0 <= k < es.len(),
    ensures
        line_start(es, k + 1) == line_start(es, k) + entry_line(es[k]).len(),
        line_start(es, k + 1) <= encoded_manifest(es).len(),
        encoded_manifest(es).subrange(line_start(es, k), line_start(es, k + 1)) == entry_line(es[k]),
{
    let s = encoded_manifest(es);
    let n = es.len() as int;
    assert(es.subrange(0, n) =~= es);
    lemma_entry_lines_prefix(es, k + 1, n);
    assert(es.subrange(0, k + 1).drop_last() =~= es.subrange(0, k));
    let lk = entry_lines(es.subrange(0, k));
    let lk1 = entry_lines(es.subrange(0, k + 1));
    assert(lk1 == lk + entry_line(es[k]));
    let p = line_start(es, k);
    let q = line_start(es, k + 1);
    assert(entry_lines(es).subrange(0, lk1.len() as int) == lk1);
    assert forall|i: int| 0 <= i < q - p implies s.subrange(p, q)[i] == entry_line(es[k])[i] by {
        assert(s[p + i] == entry_lines(es)[lk.len() + i]);
        assert(entry_lines(es)[lk.len() + i] == lk1[lk.len() + i]);
    }
    assert(s.subrange(p, q) =~= entry_line(es[k]));
}

/// The `k`-th record's line ends at the line feed it closes with, and what
/// precedes its carriage return is its body.
pub proof fn lemma_line_of_record(es: Seq<EntryView>, k: int)
    requires
        0 <= k < es.len(),
        entry_writable(es[k]),
    ensures
        line_end(encoded_manifest(es), line_start(es, k)) == line_start(es, k + 1) - 1,
        strip_cr(encoded_manifest(es).subrange(line_start(es, k), line_start(es, k + 1) - 1))
            == entry_body(es[k]),
{
    let s = encoded_manifest(es);
    let e = es[k];
    lemma_line_in_place(es, k);
    let p = line_start(es, k);
    let q = line_start(es, k + 1);
    let body = entry_body(e);
    assert(entry_line(e) =~= body + seq![0x0Du8, 0x0Au8]);
    lemma_body_no_newline(e);
    assert forall|j: int| p <= j < q - 1 implies s[j] != 0x0A by {
        assert(s[j] == s.subrange(p, q)[j - p]);
        if j - p < body.len() {
            assert(entry_line(e)[j - p] == body[j - p]);
        }
    }
    assert(s[q - 1] == s.subrange(p, q)[q - 1 - p]);
    lemma_line_end_step(s, p, q - 1);
    assert(line_end(s, q - 1) == q - 1);
    assert(s.subrange(p, q - 1) =~= body + seq![0x0Du8]);
    assert(strip_cr(s.subrange(p, q - 1)) =~= body);
}

/// Decoding the encoded manifest from the `k`-th record's line on gives
/// the records from the `k`-th on.
pub proof fn lemma_decode_records(es: Seq<EntryView>, k: int)
    requires
        0 <= k <= es.len(),
        forall|j: int| 0 <= j < es.len() ==> entry_writable(#[trigger] es[j]),
    ensures
        decode_from(encoded_manifest(es), line_start(es, k), 2 + k) == Ok::<
            Seq<EntryView>,
            (u8, int, Seq<u8>),
        >(es.subrange(k, es.len() as int)),
    decreases es.len() - k,
{
    let s = encoded_manifest(es);
    let n = es.len() as int;
    assert(es.subrange(0, n) =~= es);
    if k == n {
        assert(line_start(es, k) == s.len());
        assert(es.subrange(k, n) =~= Seq::<EntryView>::empty());
    } else {
        let e = es[k];
        lemma_line_of_record(es, k);
        lemma_line_in_place(es, k);
        lemma_body_decodes(e);
        let q = line_start(es, k + 1);
        if q < s.len() {
            lemma_decode_records(es, k + 1);
        } else if k + 1 < n {
            lemma_line_in_place(es, k + 1);
            assert(false);
        }
        assert(seq![e] + es.subrange(k + 1, n) =~= es.subrange(k, n));
    }
}

/// Encoding records and decoding the text gives the records back, where
/// each title is one token that does not start a comment.
pub proof fn lemma_manifest_round_trip(es: Seq<EntryView>)
    requires
        forall|j: int| 0 <= j < es.len() ==> entry_writable(#[trigger] es[j]),
    ensures
        decoded_manifest(encoded_manifest(es)) == Ok::<Seq<EntryView>, (u8, int, Seq<u8>)>(es),
{
    let s = encoded_manifest(es);
    let h = manifest_header();
    assert(h.len() == 96);
    assert(es.subrange(0, 0) =~= Seq::<EntryView>::empty());
    assert(line_start(es, 0) == 96);
    lemma_decode_records(es, 0);
    assert(es.subrange(0, es.len() as int) =~= es);
    assert forall|i: int| 0 <= i < 96 implies s[i] == h[i] by {}
    assert forall|i: int| 0 <= i < 47 implies s[i] != 0x0A by {
        assert(s[i] == h[i]);
    }
    assert(s[47] == 0x0A);
    lemma_line_end_step(s, 0, 47);
    assert(line_end(s, 47) == 47);
    assert forall|i: int| 48 <= i < 95 implies s[i] != 0x0A by {
        assert(s[i] == h[i]);
    }
    assert(s[95] == 0x0A);
    lemma_line_end_step(s, 48, 95);
    assert(line_end(s, 95) == 95);
    assert(strip_cr(s.subrange(0, 47))[0] == 0x3B);
    assert(strip_cr(s.subrange(48, 95))[0] == 0x3B);
    assert(decode_from(s, 48, 1) == decode_from(s, 96, 2));
}

} // verus!
