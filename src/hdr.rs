use vstd::prelude::*;
use vstd::utf8::{decode_utf8, valid_utf8};

use crate::error::{Error, HdrUnexpectedHeaderError, HdrUnexpectedSizeError};
use crate::file::{le_u16, File};
use crate::metadata::HdrFileMetadata;
use crate::text::{slice_bytes, trailing_trimmed_text, trim_nul_end};

verus! {

/// The length of a header file, which is also its first byte.
pub const HDR_LEN: u8 = 0xCA;

/// The eight bytes that follow the length byte.
pub open spec fn hdr_signature() -> Seq<u8> {
    seq![0x00u8, 0x01u8, 0x00u8, 0x04u8, 0x00u8, 0x44u8, 0x54u8, 0x53u8]
}

/// `b` starts with the length byte and the signature.
pub open spec fn has_hdr_magic(b: Seq<u8>) -> bool {
    b.len() >= 9 && b[0] == HDR_LEN && b.subrange(1, 9) == hdr_signature()
}

/// The raw bytes of the title and studio fields, without their trailing
/// NULs.
pub open spec fn hdr_title_bytes(b: Seq<u8>) -> Seq<u8> {
    trim_nul_end(b.subrange(9, 27))
}

pub open spec fn hdr_studio_bytes(b: Seq<u8>) -> Seq<u8> {
    trim_nul_end(b.subrange(69, 79))
}

/// A 202-byte buffer with the signature and text fields in UTF-8.
pub open spec fn hdr_decodable(b: Seq<u8>) -> bool {
    &&& b.len() == HDR_LEN
    &&& has_hdr_magic(b)
    &&& valid_utf8(hdr_title_bytes(b))
    &&& valid_utf8(hdr_studio_bytes(b))
}

/// `m` holds what the header bytes `b` embed.
pub open spec fn hdr_describes(m: HdrFileMetadata, b: Seq<u8>) -> bool {
    &&& m.id == le_u16(b[79], b[80])
    &&& m.reel == b[91]
    &&& m.title@ == decode_utf8(hdr_title_bytes(b))
    &&& m.studio@ == decode_utf8(hdr_studio_bytes(b))
}

/// Whether the bytes start like a header file.
pub fn check_hdr_magic(bytes: &[u8]) -> (r: bool)
    ensures
        r == has_hdr_magic(bytes@),
{
    if bytes.len() < 9 || bytes[0] != HDR_LEN {
        return false;
    }
    let sig: [u8; 8] = [0x00, 0x01, 0x00, 0x04, 0x00, 0x44, 0x54, 0x53];
    assert(sig@ == hdr_signature());
    let mut i: usize = 0;
    while i < 8
        invariant
            i <= 8,
            bytes@.len() >= 9,
            sig@ == hdr_signature(),
            forall|j: int| 0 <= j < i ==> bytes@[1 + j] == sig@[j],
        decreases 8 - i,
    {
        if bytes[1 + i] != sig[i] {
            return false;
        }
        i += 1;
    }
    assert(bytes@.subrange(1, 9) =~= hdr_signature());
    true
}

/// Decodes a header file held in `bytes`; `path` names it in errors.
pub fn decode_hdr(bytes: &[u8], path: &str) -> (r: Result<HdrFileMetadata, Error>)
    ensures
        r is Ok <==> hdr_decodable(bytes@),
        r matches Ok(m) ==> hdr_describes(m, bytes@),
        bytes@.len() != HDR_LEN ==> (r matches Err(Error::HdrUnexpectedSize(e)) && e.file@
            == path@ && e.size == bytes@.len()),
        bytes@.len() == HDR_LEN && !has_hdr_magic(bytes@) ==> (r matches Err(
            Error::HdrUnexpectedHeader(e),
        ) && e.file@ == path@ && e.data@ == bytes@.subrange(0, 10)),
        bytes@.len() == HDR_LEN && has_hdr_magic(bytes@) && !hdr_decodable(bytes@) ==> r
            == Err::<HdrFileMetadata, Error>(Error::InvalidUtf8),
{
    if bytes.len() != HDR_LEN as usize {
        return Err(
            Error::HdrUnexpectedSize(
                HdrUnexpectedSizeError { file: path.to_owned(), size: bytes.len() as u64 },
            ),
        );
    }
    if !check_hdr_magic(bytes) {
        return Err(
            Error::HdrUnexpectedHeader(
                HdrUnexpectedHeaderError { file: path.to_owned(), data: slice_bytes(bytes, 0, 10) },
            ),
        );
    }
    let title = trailing_trimmed_text(bytes, 9, 27)?;
    let studio = trailing_trimmed_text(bytes, 69, 79)?;
    let id = bytes[79] as u16 + 256 * (bytes[80] as u16);
    let reel = bytes[91];
    Ok(HdrFileMetadata { id, reel, title, studio })
}

/// Whether the file's length is that of a header file, and the length.
fn check_hdr_size<F: File>(file: &mut F) -> (r: (bool, u64))
    ensures
        r.1 == old(file).content().len(),
        r.0 == (r.1 == HDR_LEN),
        *final(file) == *old(file),
{
    let len = file.len();
    (len == HDR_LEN as u64, len)
}

/// Whether the file is a header file: 202 bytes that start with the
/// signature.
pub fn is_hdr_file<F: File>(file: &mut F) -> (r: bool)
    ensures
        r ==> old(file).content().len() == HDR_LEN && has_hdr_magic(old(file).content()),
        final(file).content() == old(file).content(),
        final(file).pos() == old(file).pos(),
{
    if check_hdr_size(file).0 {
        let bytes = match file.read_bytes(HDR_LEN as usize) {
            Ok(b) => b,
            Err(_) => return false,
        };
        assert(bytes@ =~= old(file).content());
        if check_hdr_magic(&bytes) {
            return true;
        }
    }
    false
}

/// Decodes the header file `file`; `path` names it in errors.
pub fn decode_hdr_from_file<F: File>(file: &mut F, path: &str) -> (r: Result<
    HdrFileMetadata,
    Error,
>)
    ensures
        final(file).content() == old(file).content(),
        final(file).pos() == old(file).pos(),
        r matches Ok(m) ==> hdr_decodable(old(file).content()) && hdr_describes(
            m,
            old(file).content(),
        ),
        old(file).content().len() != HDR_LEN ==> (r matches Err(Error::HdrUnexpectedSize(e))
            && e.file@ == path@ && e.size == old(file).content().len()),
{
    let size_check = check_hdr_size(file);
    if !size_check.0 {
        return Err(
            Error::HdrUnexpectedSize(
                HdrUnexpectedSizeError { file: path.to_owned(), size: size_check.1 },
            ),
        );
    }
    let bytes = file.read_bytes(HDR_LEN as usize)?;
    assert(bytes@ =~= old(file).content());
    decode_hdr(&bytes, path)
}

} // verus!
