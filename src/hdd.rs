use vstd::prelude::*;

use vstd::utf8::decode_utf8;

use crate::cd::text_is;
use crate::ext234::{check_ext234_magic, get_ext234_label, has_ext234_magic, EXT234_SUPERBLOCK_LEN};
use crate::file::File;
use crate::text::trim_nul;

verus! {

/// The length of a master boot record.
pub const MBR_LEN: usize = 512;

/// The boot signature 0x55 0xAA at bytes 510..512.
pub open spec fn has_mbr_magic(b: Seq<u8>) -> bool {
    b.len() >= 512 && b[510] == 0x55 && b[511] == 0xAA
}

fn check_mbr_magic(bytes: &[u8]) -> (r: bool)
    ensures
        r == has_mbr_magic(bytes@),
{
    bytes.len() >= 512 && bytes[510] == 0x55 && bytes[511] == 0xAA
}

/// Whether the file starts with a master boot record.
pub fn is_hdd_img_file<F: File>(file: &mut F) -> (r: bool)
    ensures
        r ==> has_mbr_magic(old(file).content()),
        final(file).content() == old(file).content(),
        final(file).pos() == old(file).pos(),
{
    match file.read_bytes(MBR_LEN) {
        Ok(data) => {
            assert(data@.len() >= 512 ==> data@[510] == old(file).content()[510] && data@[511]
                == old(file).content()[511]);
            check_mbr_magic(&data)
        },
        Err(_) => false,
    }
}

/// The partition at `start` holds an ext2/3/4 superblock labelled
/// `/contents`.
pub open spec fn is_contents_partition(c: Seq<u8>, start: int) -> bool {
    let sb = c.subrange(start, start + EXT234_SUPERBLOCK_LEN);
    &&& start + EXT234_SUPERBLOCK_LEN <= c.len()
    &&& has_ext234_magic(sb)
    &&& decode_utf8(trim_nul(sb.subrange(1144, 1160))) == "/contents"@
}

/// The product of two 32-bit numbers.
fn wide_mul(a: u32, b: u32) -> (r: u64)
    ensures
        r == a * b,
{
    assert(a as u64 * b as u64 <= 0xFFFF_FFFF * 0xFFFF_FFFFu64) by (nonlinear_arith)
        requires
            a <= 0xFFFF_FFFFu32,
            b <= 0xFFFF_FFFFu32,
    ;
    a as u64 * b as u64
}

/// Finds, among partitions given as (first sector, sector count), the first
/// whose ext2/3/4 label is `/contents`, and gives its byte range.
pub fn find_contents_partition<F: File>(file: &mut F, partitions: &Vec<(u32, u32)>, sector_size: u32) -> (r:
    Option<(u64, u64)>)
    ensures
        final(file).content() == old(file).content(),
        final(file).pos() == old(file).pos(),
        r matches Some((start, len)) ==> exists|i: int|
            0 <= i < partitions@.len() && start == partitions@[i].0 * sector_size && len
                == partitions@[i].1 * sector_size && is_contents_partition(
                old(file).content(),
                start as int,
            ),
{
    let mut i: usize = 0;
    while i < partitions.len()
        invariant
            i <= partitions@.len(),
            file.content() == old(file).content(),
            file.pos() == old(file).pos(),
        decreases partitions@.len() - i,
    {
        let (lba, sectors) = partitions[i];
        let start = wide_mul(lba, sector_size);
        match file.read_exact_bytes_at(EXT234_SUPERBLOCK_LEN, start) {
            Ok(bytes) => {
                if check_ext234_magic(&bytes) {
                    match get_ext234_label(&bytes) {
                        Ok(label) => {
                            if text_is(label.as_str(), "/contents") {
                                proof {
                                    assert(bytes@ =~= old(file).content().subrange(start as int, start + EXT234_SUPERBLOCK_LEN));
                                }
                                return Some((start, wide_mul(sectors, sector_size)));
                            }
                        },
                        Err(_) => {},
                    }
                }
            },
            Err(_) => {},
        }
        i += 1;
    }
    None
}

} // verus!
