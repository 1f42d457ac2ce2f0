use vstd::prelude::*;
use vstd::string::*;
use vstd::utf8::{decode_utf8, encode_utf8, valid_utf8};

use crate::bcd::{lemma_bcd_byte, bcd_byte, bcd_to_decimal, bcd_value, decimal_to_bcd, is_bcd};
use crate::error::{Error, SndUnexpectedSizeError, UnknownOpticalBackupSoundtrackFormatError};
use crate::file::{le_u16, File};
use crate::metadata::{
    backup_format_byte, BackupSoundtrackFormat, Offset, SndFileMetadata, SndRevision, SndType,
    XdaFields,
};
use crate::text::{padded_text, trim_nul, trim_pad, trimmed_text};

verus! {

/// The length of the base header that every revision shares.
pub const SND_HEADER_LEN: usize = 92;

/// The base header, the encryption flag and the two-byte key.
pub const SND_HEADER_LEN_WITH_ENCRYPTION: usize = 95;

/// The reel number reserved for trailer assemblies.
pub const TRAILER_REEL: u8 = 14;

/// Spaces at the field starts, `D` before the surround delay and zeros after
/// the language: what marks the XDA layout.
pub open spec fn is_xda_pattern(b: Seq<u8>) -> bool {
    &&& b[18] == 0x20
    &&& b[31] == 0x20
    &&& b[47] == 0x20
    &&& b[50] == 0x44
    &&& b[51] == 0x20
    &&& b[55] == 0x20
    &&& b[59] == 0x20
    &&& b[65] == 0
    &&& b[66] == 0
}

/// The revision of a header: byte 60 is `*` from XD on, and XDA adds its
/// pattern.
pub open spec fn snd_revision(b: Seq<u8>) -> SndRevision {
    if b[60] != 0x2A {
        SndRevision::H1
    } else if is_xda_pattern(b) {
        SndRevision::XDA
    } else {
        SndRevision::XD
    }
}

/// Where the title field ends in each revision.
pub open spec fn title_end(rev: SndRevision) -> int {
    match rev {
        SndRevision::H1 => 67,
        SndRevision::XD => 60,
        SndRevision::XDA => 18,
    }
}

/// The revision depends on bytes 18, 31, 47, 50, 51, 55, 59, 60, 65 and 66
/// alone: two headers that agree there have the same revision.
pub proof fn lemma_revision_depends_on_marker_bytes(a: Seq<u8>, b: Seq<u8>)
    requires
        a.len() >= SND_HEADER_LEN,
        b.len() >= SND_HEADER_LEN,
        a[18] == b[18],
        a[31] == b[31],
        a[47] == b[47],
        a[50] == b[50],
        a[51] == b[51],
        a[55] == b[55],
        a[59] == b[59],
        a[60] == b[60],
        a[65] == b[65],
        a[66] == b[66],
    ensures
        snd_revision(a) == snd_revision(b),
{
}

/// Classifies the header revision.
pub fn classify_revision(bytes: &[u8]) -> (r: SndRevision)
    requires
        bytes@.len() >= SND_HEADER_LEN,
    ensures
        r == snd_revision(bytes@),
{
    if bytes[60] != 0x2A {
        SndRevision::H1
    } else if bytes[18] == 0x20 && bytes[31] == 0x20 && bytes[47] == 0x20 && bytes[50] == 0x44
        && bytes[51] == 0x20 && bytes[55] == 0x20 && bytes[59] == 0x20 && bytes[65] == 0
        && bytes[66] == 0 {
        SndRevision::XDA
    } else {
        SndRevision::XD
    }
}

/// A seconds or minutes byte with its +0x60 bias removed.
pub open spec fn unbias(b: u8) -> u8 {
    if b >= 0x60 {
        (b - 0x60) as u8
    } else {
        b
    }
}

pub open spec fn quad_is_zero(q: Seq<u8>) -> bool {
    q[0] == 0 && q[1] == 0 && q[2] == 0 && q[3] == 0
}

pub open spec fn quad_is_valid(q: Seq<u8>) -> bool {
    is_bcd(q[0]) && is_bcd(unbias(q[1])) && is_bcd(unbias(q[2])) && is_bcd(q[3])
}

/// The time code that a quad holds.
pub open spec fn quad_offset(q: Seq<u8>) -> Offset {
    Offset {
        frames: bcd_value(q[0]) as u8,
        seconds: bcd_value(unbias(q[1])) as u8,
        minutes: bcd_value(unbias(q[2])) as u8,
        hours: bcd_value(q[3]) as u8,
    }
}

/// What a quad decodes to; `None` inside stands for "no offset".
pub open spec fn decoded_quad(q: Seq<u8>) -> Option<Option<Offset>> {
    if quad_is_zero(q) {
        Some(None)
    } else if quad_is_valid(q) {
        Some(Some(quad_offset(q)))
    } else {
        None
    }
}

/// Each field of the time code fits two decimal digits.
pub open spec fn offset_in_range(o: Offset) -> bool {
    o.frames <= 99 && o.seconds <= 99 && o.minutes <= 99 && o.hours <= 99
}

/// The four bytes that hold a time code; zeros for none.
pub open spec fn offset_quad(o: Option<Offset>) -> Seq<u8> {
    match o {
        None => seq![0u8, 0u8, 0u8, 0u8],
        Some(o) => seq![
            bcd_byte(o.frames) as u8,
            bcd_byte(o.seconds) as u8,
            bcd_byte(o.minutes) as u8,
            bcd_byte(o.hours) as u8,
        ],
    }
}

/// Decodes the time code at `at..at + 4`.
pub fn decode_offset(bytes: &[u8], at: usize) -> (r: Result<Option<Offset>, Error>)
    requires
        at + 4 <= bytes@.len(),
    ensures
        match decoded_quad(bytes@.subrange(at as int, at + 4)) {
            Some(o) => r == Ok::<Option<Offset>, Error>(o),
            None => r matches Err(Error::BcdOutOfRange(_)),
        },
{
    let ghost q = bytes@.subrange(at as int, at + 4);
    let f = bytes[at];
    let s = bytes[at + 1];
    let m = bytes[at + 2];
    let h = bytes[at + 3];
    if f == 0 && s == 0 && m == 0 && h == 0 {
        return Ok(None);
    }
    let s = if s >= 0x60 {
        s - 0x60
    } else {
        s
    };
    let m = if m >= 0x60 {
        m - 0x60
    } else {
        m
    };
    let frames = bcd_to_decimal(f)?;
    let seconds = bcd_to_decimal(s)?;
    let minutes = bcd_to_decimal(m)?;
    let hours = bcd_to_decimal(h)?;
    Ok(Some(Offset { frames, seconds, minutes, hours }))
}

/// Appends the four bytes of a time code.
pub fn encode_offset(out: &mut Vec<u8>, o: &Option<Offset>)
    requires
        *o matches Some(v) ==> offset_in_range(v),
    ensures
        final(out)@ == old(out)@ + offset_quad(*o),
{
    match o {
        None => {
            out.push(0);
            out.push(0);
            out.push(0);
            out.push(0);
        },
        Some(v) => {
            let f = decimal_to_bcd(v.frames);
            let s = decimal_to_bcd(v.seconds);
            let m = decimal_to_bcd(v.minutes);
            let h = decimal_to_bcd(v.hours);
            match (f, s, m, h) {
                (Ok(f), Ok(s), Ok(m), Ok(h)) => {
                    out.push(f);
                    out.push(s);
                    out.push(m);
                    out.push(h);
                },
                _ => {},
            }
        },
    }
    assert(final(out)@ =~= old(out)@ + offset_quad(*o));
}

/// A time code whose seconds and minutes stay below 60 and that is not all
/// zero decodes from its four bytes to itself; no offset encodes as zeros,
/// which decode to no offset.
pub proof fn lemma_offset_round_trip(o: Offset)
    requires
        o.frames <= 99,
        o.hours <= 99,
        o.seconds < 60,
        o.minutes < 60,
        !(o.frames == 0 && o.seconds == 0 && o.minutes == 0 && o.hours == 0),
    ensures
        decoded_quad(offset_quad(Some(o))) == Some(Some(o)),
        decoded_quad(offset_quad(None)) == Some(None::<Offset>),
{
    lemma_bcd_byte(o.frames);
    lemma_bcd_byte(o.seconds);
    lemma_bcd_byte(o.minutes);
    lemma_bcd_byte(o.hours);
    let q = offset_quad(Some(o));
    assert(unbias(q[1]) == q[1] && unbias(q[2]) == q[2]);
    assert(!quad_is_zero(q));
    assert(quad_offset(q) == o);
}

/// The optical backup format that a byte stands for.
pub fn get_optical_backup_format(value: u8) -> (r: Result<BackupSoundtrackFormat, Error>)
    ensures
        r matches Ok(f) ==> backup_format_byte(f) == value,
        r is Err <==> !(value == 0x00 || value == 0x01 || value == 0x02 || value == 0x80
            || value == 0x81),
        r is Err ==> r == Err::<BackupSoundtrackFormat, Error>(
            Error::UnknownOpticalBackupSoundtrackFormat(
                UnknownOpticalBackupSoundtrackFormatError { value },
            ),
        ),
{
    match value {
        0x00 => Ok(BackupSoundtrackFormat::DolbyA),
        0x01 => Ok(BackupSoundtrackFormat::DolbySR),
        0x02 => Ok(BackupSoundtrackFormat::Academy),
        0x80 => Ok(BackupSoundtrackFormat::NonSync),
        0x81 => Ok(BackupSoundtrackFormat::LastReelDolbySR),
        _ => Err(
            Error::UnknownOpticalBackupSoundtrackFormat(
                UnknownOpticalBackupSoundtrackFormatError { value },
            ),
        ),
    }
}

pub open spec fn known_backup_byte(v: u8) -> bool {
    v == 0x00 || v == 0x01 || v == 0x02 || v == 0x80 || v == 0x81
}

pub open spec fn snd_title_bytes(b: Seq<u8>) -> Seq<u8> {
    if snd_revision(b) == SndRevision::XDA {
        trim_pad(b.subrange(0, 18))
    } else {
        trim_nul(b.subrange(0, title_end(snd_revision(b))))
    }
}

/// The XDA descriptive field at `from..to`, without its padding.
pub open spec fn xda_bytes(b: Seq<u8>, from: int, to: int) -> Seq<u8> {
    trim_pad(b.subrange(from, to))
}

/// The XDA fields are text.
pub open spec fn xda_decodable(b: Seq<u8>) -> bool {
    &&& valid_utf8(xda_bytes(b, 18, 31))
    &&& valid_utf8(xda_bytes(b, 31, 47))
    &&& valid_utf8(xda_bytes(b, 47, 50))
    &&& valid_utf8(xda_bytes(b, 51, 55))
    &&& valid_utf8(xda_bytes(b, 55, 59))
}

/// `x` holds the XDA fields of `b`.
pub open spec fn xda_describes(x: XdaFields, b: Seq<u8>) -> bool {
    &&& x.source@ == decode_utf8(xda_bytes(b, 18, 31))
    &&& x.mix@ == decode_utf8(xda_bytes(b, 31, 47))
    &&& x.lfe_level@ == decode_utf8(xda_bytes(b, 47, 50))
    &&& x.surround_delay@ == decode_utf8(xda_bytes(b, 51, 55))
    &&& x.filters@ == decode_utf8(xda_bytes(b, 55, 59))
}

pub open spec fn snd_language_bytes(b: Seq<u8>) -> Seq<u8> {
    if snd_revision(b) == SndRevision::H1 {
        Seq::empty()
    } else {
        trim_nul(b.subrange(61, 65))
    }
}

pub open spec fn snd_studio_bytes(b: Seq<u8>) -> Seq<u8> {
    trim_nul(b.subrange(68, 72))
}

/// A header of at least 95 bytes whose text fields are UTF-8.
pub open spec fn snd_text_decodable(b: Seq<u8>) -> bool {
    &&& b.len() >= SND_HEADER_LEN_WITH_ENCRYPTION
    &&& valid_utf8(snd_title_bytes(b))
    &&& valid_utf8(snd_language_bytes(b))
    &&& valid_utf8(snd_studio_bytes(b))
    &&& (snd_revision(b) == SndRevision::XDA ==> xda_decodable(b))
}

/// A header of at least 95 bytes whose text is UTF-8, whose format byte is
/// known and whose time codes are decimal.
pub open spec fn snd_decodable(b: Seq<u8>) -> bool {
    &&& b.len() >= SND_HEADER_LEN_WITH_ENCRYPTION
    &&& valid_utf8(snd_title_bytes(b))
    &&& valid_utf8(snd_language_bytes(b))
    &&& valid_utf8(snd_studio_bytes(b))
    &&& known_backup_byte(b[75])
    &&& decoded_quad(b.subrange(84, 88)) is Some
    &&& decoded_quad(b.subrange(88, 92)) is Some
    &&& (snd_revision(b) == SndRevision::XDA ==> xda_decodable(b))
}

/// `m` holds what the header bytes `b` embed.
pub open spec fn snd_describes(m: SndFileMetadata, b: Seq<u8>) -> bool {
    &&& m.revision == snd_revision(b)
    &&& m.title@ == decode_utf8(snd_title_bytes(b))
    &&& m.language@ == decode_utf8(snd_language_bytes(b))
    &&& m.studio matches Some(s) && s@ == decode_utf8(snd_studio_bytes(b))
    &&& backup_format_byte(m.optical_backup) == b[75]
    &&& m.reel == b[78]
    &&& m.id == le_u16(b[80], b[81])
    &&& m.tracks == b[82]
    &&& Some(m.start) == decoded_quad(b.subrange(84, 88))
    &&& Some(m.end) == decoded_quad(b.subrange(88, 92))
    &&& m.encrypted == (b[92] == 1)
    &&& m.key == (if b[92] == 1 {
        Some(le_u16(b[93], b[94]))
    } else {
        None
    })
    &&& (if snd_revision(b) == SndRevision::XDA {
        m.xda matches Some(x) && xda_describes(x, b)
    } else {
        m.xda is None
    })
    &&& m.snd_type == (if b[78] == TRAILER_REEL {
        SndType::Trailer
    } else {
        SndType::Feature
    })
}

/// Decodes a sound file header held in `bytes`.
pub fn decode_snd_header(bytes: &[u8]) -> (r: Result<SndFileMetadata, Error>)
    ensures
        r is Ok <==> snd_decodable(bytes@),
        r matches Ok(m) ==> snd_describes(m, bytes@),
        bytes@.len() < SND_HEADER_LEN_WITH_ENCRYPTION ==> r == Err::<SndFileMetadata, Error>(
            Error::UnexpectedEof,
        ),
        snd_text_decodable(bytes@) && !known_backup_byte(bytes@[75]) ==> r == Err::<
            SndFileMetadata,
            Error,
        >(
            Error::UnknownOpticalBackupSoundtrackFormat(
                UnknownOpticalBackupSoundtrackFormatError { value: bytes@[75] },
            ),
        ),
{
    if bytes.len() < SND_HEADER_LEN_WITH_ENCRYPTION {
        return Err(Error::UnexpectedEof);
    }
    let revision = classify_revision(bytes);
    let title_to: usize = match revision {
        SndRevision::H1 => 67,
        SndRevision::XD => 60,
        SndRevision::XDA => 18,
    };
    let title = match revision {
        SndRevision::XDA => padded_text(bytes, 0, 18)?,
        _ => trimmed_text(bytes, 0, title_to)?,
    };
    let language = match revision {
        SndRevision::H1 => String::new(),
        _ => trimmed_text(bytes, 61, 65)?,
    };
    proof {
        if revision == SndRevision::H1 {
            assert(decode_utf8(Seq::<u8>::empty()) =~= Seq::<char>::empty());
            assert(valid_utf8(Seq::<u8>::empty()));
        }
    }
    let xda = match revision {
        SndRevision::XDA => Some(
            XdaFields {
                source: padded_text(bytes, 18, 31)?,
                mix: padded_text(bytes, 31, 47)?,
                lfe_level: padded_text(bytes, 47, 50)?,
                surround_delay: padded_text(bytes, 51, 55)?,
                filters: padded_text(bytes, 55, 59)?,
            },
        ),
        _ => None,
    };
    let studio = trimmed_text(bytes, 68, 72)?;
    let optical_backup = get_optical_backup_format(bytes[75])?;
    let reel = bytes[78];
    let id = bytes[80] as u16 + 256 * (bytes[81] as u16);
    let tracks = bytes[82];
    let start = decode_offset(bytes, 84)?;
    let end = decode_offset(bytes, 88)?;
    let encrypted = bytes[92] == 1;
    let key = if encrypted {
        Some(bytes[93] as u16 + 256 * (bytes[94] as u16))
    } else {
        None
    };
    let snd_type = if reel == TRAILER_REEL {
        SndType::Trailer
    } else {
        SndType::Feature
    };
    Ok(
        SndFileMetadata {
            snd_type,
            revision,
            id,
            reel,
            title,
            language,
            studio: Some(studio),
            optical_backup,
            tracks,
            encrypted,
            key,
            start,
            end,
            xda,
        },
    )
}

/// Whether the file is long enough to hold a sound header, and its length.
pub fn check_snd_size<F: File>(file: &mut F) -> (r: (bool, u64))
    ensures
        r.1 == old(file).content().len(),
        r.0 == (r.1 >= SND_HEADER_LEN_WITH_ENCRYPTION),
        *final(file) == *old(file),
{
    let len = file.len();
    (len >= SND_HEADER_LEN_WITH_ENCRYPTION as u64, len)
}

/// Decodes the header of the sound file `file`; `path` names it in errors.
pub fn decode_snd_header_from_file<F: File>(file: &mut F, path: &str) -> (r: Result<
    SndFileMetadata,
    Error,
>)
    ensures
        final(file).content() == old(file).content(),
        final(file).pos() == old(file).pos(),
        r matches Ok(m) ==> snd_decodable(old(file).content()) && snd_describes(
            m,
            old(file).content(),
        ),
        old(file).content().len() < SND_HEADER_LEN_WITH_ENCRYPTION ==> (r matches Err(
            Error::SndUnexpectedSize(e),
        ) && e.file@ == path@ && e.size == old(file).content().len()),
{
    let size_check = check_snd_size(file);
    if !size_check.0 {
        return Err(
            Error::SndUnexpectedSize(
                SndUnexpectedSizeError { file: path.to_owned(), size: size_check.1 },
            ),
        );
    }
    let bytes = file.read_bytes(SND_HEADER_LEN_WITH_ENCRYPTION)?;
    let r = decode_snd_header(&bytes);
    proof {
        let c = old(file).content();
        let h = c.subrange(0, SND_HEADER_LEN_WITH_ENCRYPTION as int);
        assert(bytes@ == h);
        assert(h.subrange(0, 67) =~= c.subrange(0, 67));
        assert(h.subrange(0, 60) =~= c.subrange(0, 60));
        assert(h.subrange(0, 18) =~= c.subrange(0, 18));
        assert(h.subrange(61, 65) =~= c.subrange(61, 65));
        assert(h.subrange(68, 72) =~= c.subrange(68, 72));
        assert(h.subrange(84, 88) =~= c.subrange(84, 88));
        assert(h.subrange(88, 92) =~= c.subrange(88, 92));
        assert(h.subrange(18, 31) =~= c.subrange(18, 31));
        assert(h.subrange(31, 47) =~= c.subrange(31, 47));
        assert(h.subrange(47, 50) =~= c.subrange(47, 50));
        assert(h.subrange(51, 55) =~= c.subrange(51, 55));
        assert(h.subrange(55, 59) =~= c.subrange(55, 59));
    }
    r
}

/// `f` followed by `pad` up to `width` bytes.
pub open spec fn padded(f: Seq<u8>, width: int, pad: u8) -> Seq<u8> {
    f + Seq::new((width - f.len()) as nat, |_i: int| pad)
}

pub open spec fn studio_field(s: Option<String>) -> Seq<u8> {
    match s {
        Some(s) => encode_utf8(s@),
        None => Seq::empty(),
    }
}

/// How many bytes the title may take in each revision.
pub open spec fn title_width(rev: SndRevision) -> int {
    match rev {
        SndRevision::H1 => 67,
        SndRevision::XD => 60,
        SndRevision::XDA => 18,
    }
}

/// The bytes of an XDA field, empty where there are none.
pub open spec fn xda_field(m: SndFileMetadata, k: int) -> Seq<u8> {
    match m.xda {
        Some(x) => encode_utf8(
            if k == 0 {
                x.source@
            } else if k == 1 {
                x.mix@
            } else if k == 2 {
                x.lfe_level@
            } else if k == 3 {
                x.surround_delay@
            } else {
                x.filters@
            },
        ),
        None => Seq::empty(),
    }
}

/// Every field of `m` fits its width and every time code is decimal.
pub open spec fn snd_encodable(m: SndFileMetadata) -> bool {
    &&& xda_field(m, 0).len() <= 12
    &&& xda_field(m, 1).len() <= 15
    &&& xda_field(m, 2).len() <= 2
    &&& xda_field(m, 3).len() <= 3
    &&& xda_field(m, 4).len() <= 3
    &&& encode_utf8(m.title@).len() <= title_width(m.revision)
    &&& encode_utf8(m.language@).len() <= 4
    &&& studio_field(m.studio).len() <= 4
    &&& (m.start matches Some(o) ==> offset_in_range(o))
    &&& (m.end matches Some(o) ==> offset_in_range(o))
}

/// Bytes 0..68: the revision's own fields.
pub open spec fn snd_head(m: SndFileMetadata) -> Seq<u8> {
    let title = encode_utf8(m.title@);
    let language = encode_utf8(m.language@);
    match m.revision {
        SndRevision::H1 => padded(title, 68, 0),
        SndRevision::XD => padded(title, 60, 0) + seq![0x2Au8] + padded(language, 7, 0),
        SndRevision::XDA => padded(title, 18, 0x20) + seq![0x20u8] + padded(xda_field(m, 0), 12, 0x20)
            + seq![0x20u8] + padded(xda_field(m, 1), 15, 0x20) + seq![0x20u8] + padded(
            xda_field(m, 2),
            2,
            0x20,
        ) + seq![0x44u8, 0x20u8] + padded(xda_field(m, 3), 3, 0x20) + seq![0x20u8] + padded(
            xda_field(m, 4),
            3,
            0x20,
        ) + seq![0x20u8, 0x2Au8] + padded(language, 7, 0),
    }
}

/// Bytes 68..92: the fields that every revision shares.
pub open spec fn snd_tail(m: SndFileMetadata) -> Seq<u8> {
    padded(studio_field(m.studio), 7, 0) + seq![
        backup_format_byte(m.optical_backup),
        0u8,
        0u8,
        m.reel,
        0u8,
        (m.id % 256) as u8,
        (m.id / 256) as u8,
        m.tracks,
        0u8,
    ] + offset_quad(m.start) + offset_quad(m.end)
}

/// The 92 base bytes that encode `m`.
pub open spec fn snd_header_bytes(m: SndFileMetadata) -> Seq<u8> {
    snd_head(m) + snd_tail(m)
}

/// Appends `field` and then `pad` up to `width` bytes.
fn push_padded(out: &mut Vec<u8>, field: &[u8], width: usize, pad: u8)
    requires
        field@.len() <= width,
    ensures
        final(out)@ == old(out)@ + padded(field@, width as int, pad),
{
    let mut i: usize = 0;
    while i < field.len()
        invariant
            i <= field@.len() <= width,
            out@ == old(out)@ + field@.subrange(0, i as int),
        decreases field@.len() - i,
    {
        out.push(field[i]);
        i += 1;
    }
    let mut k: usize = field.len();
    while k < width
        invariant
            field@.len() <= k <= width,
            out@ == old(out)@ + field@ + Seq::new((k - field@.len()) as nat, |_i: int| pad),
        decreases width - k,
    {
        out.push(pad);
        k += 1;
        assert(out@ =~= old(out)@ + field@ + Seq::new((k - field@.len()) as nat, |_i: int| pad));
    }
    assert(field@.subrange(0, field@.len() as int) =~= field@);
}

/// Whether every field of `m` fits its width, so that it can be encoded.
pub fn snd_fits(m: &SndFileMetadata) -> (r: bool)
    ensures
        r == snd_encodable(*m),
{
    let width: usize = match m.revision {
        SndRevision::H1 => 67,
        SndRevision::XD => 60,
        SndRevision::XDA => 18,
    };
    let studio_ok = match &m.studio {
        Some(s) => s.as_str().as_bytes().len() <= 4,
        None => true,
    };
    let start_ok = match m.start {
        Some(o) => o.frames <= 99 && o.seconds <= 99 && o.minutes <= 99 && o.hours <= 99,
        None => true,
    };
    let end_ok = match m.end {
        Some(o) => o.frames <= 99 && o.seconds <= 99 && o.minutes <= 99 && o.hours <= 99,
        None => true,
    };
    let xda_ok = match &m.xda {
        Some(x) => x.source.as_str().as_bytes().len() <= 12 && x.mix.as_str().as_bytes().len() <= 15
            && x.lfe_level.as_str().as_bytes().len() <= 2 && x.surround_delay.as_str().as_bytes().len()
            <= 3 && x.filters.as_str().as_bytes().len() <= 3,
        None => true,
    };
    m.title.as_str().as_bytes().len() <= width && m.language.as_str().as_bytes().len() <= 4
        && studio_ok && start_ok && end_ok && xda_ok
}

/// Appends the revision's own fields, bytes 0..68.
fn push_head(buffer: &mut Vec<u8>, data: &SndFileMetadata)
    requires
        snd_encodable(*data),
    ensures
        final(buffer)@ == old(buffer)@ + snd_head(*data),
{
    let title = data.title.as_str().as_bytes();
    let language = data.language.as_str().as_bytes();
    let empty: [u8; 0] = [];
    match data.revision {
        SndRevision::H1 => {
            push_padded(buffer, title, 68, 0);
        },
        SndRevision::XD => {
            push_padded(buffer, title, 60, 0);
            buffer.push(0x2A);
            push_padded(buffer, language, 7, 0);
        },
        SndRevision::XDA => {
            push_padded(buffer, title, 18, 0x20);
            buffer.push(0x20);
            match &data.xda {
                Some(x) => {
                    push_padded(buffer, x.source.as_str().as_bytes(), 12, 0x20);
                    buffer.push(0x20);
                    push_padded(buffer, x.mix.as_str().as_bytes(), 15, 0x20);
                    buffer.push(0x20);
                    push_padded(buffer, x.lfe_level.as_str().as_bytes(), 2, 0x20);
                    buffer.push(0x44);
                    buffer.push(0x20);
                    push_padded(buffer, x.surround_delay.as_str().as_bytes(), 3, 0x20);
                    buffer.push(0x20);
                    push_padded(buffer, x.filters.as_str().as_bytes(), 3, 0x20);
                },
                None => {
                    push_padded(buffer, &empty, 12, 0x20);
                    buffer.push(0x20);
                    push_padded(buffer, &empty, 15, 0x20);
                    buffer.push(0x20);
                    push_padded(buffer, &empty, 2, 0x20);
                    buffer.push(0x44);
                    buffer.push(0x20);
                    push_padded(buffer, &empty, 3, 0x20);
                    buffer.push(0x20);
                    push_padded(buffer, &empty, 3, 0x20);
                },
            }
            buffer.push(0x20);
            buffer.push(0x2A);
            push_padded(buffer, language, 7, 0);
        },
    }
    assert(empty@ =~= Seq::<u8>::empty());
    assert(final(buffer)@ =~= old(buffer)@ + snd_head(*data));
}

/// Appends the fields that every revision shares, bytes 68..92.
#[verifier::rlimit(60)]
fn push_tail(buffer: &mut Vec<u8>, data: &SndFileMetadata)
    requires
        snd_encodable(*data),
    ensures
        final(buffer)@ == old(buffer)@ + snd_tail(*data),
{
    let empty: [u8; 0] = [];
    assert(empty@ =~= Seq::<u8>::empty());
    match &data.studio {
        Some(s) => push_padded(buffer, s.as_str().as_bytes(), 7, 0),
        None => push_padded(buffer, &empty, 7, 0),
    }
    let ghost mid = buffer@;
    buffer.push(data.optical_backup.to_byte());
    buffer.push(0);
    buffer.push(0);
    buffer.push(data.reel);
    buffer.push(0);
    buffer.push((data.id % 256) as u8);
    buffer.push((data.id / 256) as u8);
    buffer.push(data.tracks);
    buffer.push(0);
    let ghost fixed = seq![
        backup_format_byte(data.optical_backup),
        0u8,
        0u8,
        data.reel,
        0u8,
        (data.id % 256) as u8,
        (data.id / 256) as u8,
        data.tracks,
        0u8,
    ];
    assert(buffer@ =~= mid + fixed);
    encode_offset(buffer, &data.start);
    encode_offset(buffer, &data.end);
    assert(final(buffer)@ =~= old(buffer)@ + snd_tail(*data));
}

/// Encodes the 92 base bytes of a sound file header.
pub fn encode_header(data: &SndFileMetadata) -> (r: Vec<u8>)
    requires
        snd_encodable(*data),
    ensures
        r@ == snd_header_bytes(*data),
        r@.len() == SND_HEADER_LEN,
{
    let mut buffer: Vec<u8> = Vec::new();
    push_head(&mut buffer, data);
    push_tail(&mut buffer, data);
    assert(buffer@ =~= snd_header_bytes(*data));
    buffer
}

/// The header of the combined trailers reel: an XD header for reel 14 with
/// five tracks, Dolby SR backup and English language.
pub open spec fn is_generic_trailers_header(r: SndFileMetadata) -> bool {
    &&& r.snd_type == SndType::Trailer
    &&& r.revision == SndRevision::XD
    &&& r.id == 1045
    &&& r.reel == TRAILER_REEL
    &&& r.title@ == "Trailers Reel 14"@
    &&& r.language@ == "ENG"@
    &&& r.studio matches Some(s) && s@ == "none"@
    &&& r.optical_backup == BackupSoundtrackFormat::DolbySR
    &&& r.tracks == 5
    &&& !r.encrypted
    &&& r.key is None
    &&& r.start == Some(Offset { frames: 0, seconds: 6, minutes: 0, hours: 0 })
    &&& r.end == Some(Offset { frames: 0, seconds: 26, minutes: 48, hours: 1 })
    &&& r.xda is None
}

/// The header of the combined trailers reel that extraction writes.
pub fn get_generic_trailers_header() -> (r: SndFileMetadata)
    ensures
        is_generic_trailers_header(r),
        r.snd_type == SndType::Trailer,
        r.revision == SndRevision::XD,
        r.id == 1045,
        r.reel == TRAILER_REEL,
        r.title@ == "Trailers Reel 14"@,
        r.language@ == "ENG"@,
        r.studio matches Some(s) && s@ == "none"@,
        r.optical_backup == BackupSoundtrackFormat::DolbySR,
        r.tracks == 5,
        !r.encrypted,
        r.key is None,
        r.start == Some(Offset { frames: 0, seconds: 6, minutes: 0, hours: 0 }),
        r.end == Some(Offset { frames: 0, seconds: 26, minutes: 48, hours: 1 }),
        r.xda is None,
        snd_encodable(r),
{
    proof {
        reveal_strlit("Trailers Reel 14");
        reveal_strlit("ENG");
        reveal_strlit("none");
        assert(vstd::utf8::is_ascii_chars("Trailers Reel 14"@));
        assert(vstd::utf8::is_ascii_chars("ENG"@));
        assert(vstd::utf8::is_ascii_chars("none"@));
        vstd::utf8::is_ascii_chars_encode_utf8("Trailers Reel 14"@);
        vstd::utf8::is_ascii_chars_encode_utf8("ENG"@);
        vstd::utf8::is_ascii_chars_encode_utf8("none"@);
    }
    SndFileMetadata {
        snd_type: SndType::Trailer,
        revision: SndRevision::XD,
        id: 1045,
        reel: TRAILER_REEL,
        title: String::from_str("Trailers Reel 14"),
        language: String::from_str("ENG"),
        studio: Some(String::from_str("none")),
        optical_backup: BackupSoundtrackFormat::DolbySR,
        tracks: 5,
        encrypted: false,
        key: None,
        start: Some(Offset { frames: 0, seconds: 6, minutes: 0, hours: 0 }),
        end: Some(Offset { frames: 0, seconds: 26, minutes: 48, hours: 1 }),
        xda: None,
    }
}

} // verus!
