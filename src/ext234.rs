use vstd::prelude::*;
use vstd::utf8::{decode_utf8, valid_utf8};

use crate::error::Error;
use crate::file::File;
use crate::text::{trim_nul, trimmed_text};

verus! {

/// How many bytes from the start of an ext2/3/4 image hold its superblock.
pub const EXT234_SUPERBLOCK_LEN: usize = 1536;

/// The superblock magic 0xEF53 at bytes 1080..1082.
pub open spec fn has_ext234_magic(b: Seq<u8>) -> bool {
    b.len() >= 1082 && b[1080] == 0x53 && b[1081] == 0xEF
}

pub fn check_ext234_magic(bytes: &[u8]) -> (r: bool)
    ensures
        r == has_ext234_magic(bytes@),
{
    bytes.len() >= 1082 && bytes[1080] == 0x53 && bytes[1081] == 0xEF
}

/// The volume label at bytes 1144..1160, without its NUL padding.
pub fn get_ext234_label(bytes: &[u8]) -> (r: Result<String, Error>)
    ensures
        bytes@.len() < 1160 ==> r == Err::<String, Error>(Error::UnexpectedEof),
        bytes@.len() >= 1160 ==> (r is Ok <==> valid_utf8(trim_nul(bytes@.subrange(1144, 1160)))),
        r matches Ok(s) ==> s@ == decode_utf8(trim_nul(bytes@.subrange(1144, 1160))),
{
    if bytes.len() < 1160 {
        return Err(Error::UnexpectedEof);
    }
    trimmed_text(bytes, 1144, 1160)
}

/// Whether the file starts with an ext2/3/4 superblock.
pub fn is_ext234_image_file<F: File>(file: &mut F) -> (r: bool)
    ensures
        r ==> has_ext234_magic(old(file).content()),
        final(file).content() == old(file).content(),
        final(file).pos() == old(file).pos(),
{
    match file.read_bytes(EXT234_SUPERBLOCK_LEN) {
        Ok(data) => {
            assert(data@.len() >= 1082 ==> data@[1080] == old(file).content()[1080] && data@[1081]
                == old(file).content()[1081]);
            check_ext234_magic(&data)
        },
        Err(_) => false,
    }
}

} // verus!
