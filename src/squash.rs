use vstd::prelude::*;

use crate::detect::{get_file_type, FileType};
use crate::error::Error;
use crate::file::{DirEntry, File, FileSystem};
use crate::squashfsfile::SquashFsFileSystem;

verus! {

/// The magic `hsqs` that starts a SquashFS image.
pub open spec fn squashfs_magic() -> Seq<u8> {
    seq![0x68u8, 0x73u8, 0x71u8, 0x73u8]
}

pub open spec fn has_squashfs_magic(b: Seq<u8>) -> bool {
    b.len() >= 4 && b.subrange(0, 4) == squashfs_magic()
}

pub fn check_squashfs_magic(bytes: &[u8]) -> (r: bool)
    ensures
        r == has_squashfs_magic(bytes@),
{
    let r = bytes.len() >= 4 && bytes[0] == 0x68 && bytes[1] == 0x73 && bytes[2] == 0x71
        && bytes[3] == 0x73;
    assert(r ==> bytes@.subrange(0, 4) =~= squashfs_magic());
    assert(has_squashfs_magic(bytes@) ==> bytes@.subrange(0, 4)[1] == 0x73u8);
    r
}

/// Whether the file starts with the SquashFS magic.
pub fn is_squashfs_file<F: File>(file: &mut F) -> (r: bool)
    ensures
        r ==> has_squashfs_magic(old(file).content()),
        final(file).content() == old(file).content(),
        final(file).pos() == old(file).pos(),
{
    match file.read_bytes(4) {
        Ok(buffer) => {
            let r = check_squashfs_magic(&buffer);
            if r {
                assert(buffer@ =~= old(file).content().subrange(0, 4));
                assert(buffer@.subrange(0, 4) =~= buffer@);
            }
            r
        },
        Err(_) => false,
    }
}

/// Opens a SquashFS image and recognises each file of its root directory:
/// their paths and kinds.
pub fn decode_squashfs_from_file<F: File>(file: F) -> (r: Result<Vec<(Vec<String>, FileType)>, Error>)
    ensures
        r matches Ok(v) ==> forall|k: int| 0 <= k < v@.len() ==> (#[trigger] v@[k]).0@.len() == 1,
{
    let mut fs = SquashFsFileSystem::from_file(file)?;
    let root: Vec<String> = Vec::new();
    let entries = fs.read_dir(&root)?;
    let mut out: Vec<(Vec<String>, FileType)> = Vec::new();
    let mut i: usize = 0;
    while i < entries.len()
        invariant
            i <= entries@.len(),
            forall|k: int| 0 <= k < out@.len() ==> (#[trigger] out@[k]).0@.len() == 1,
        decreases entries@.len() - i,
    {
        if entries[i].file_type()? == crate::file::FileType::File {
            let path = entries[i].path()?;
            if path.len() == 1 {
                let mut f = fs.open_file(&path)?;
                let t = get_file_type(&mut f, &path)?;
                let ghost prev = out@;
                out.push((path, t));
                assert forall|k: int| 0 <= k < prev.len() implies #[trigger] out@[k] == prev[k] by {}
            }
        }
        i += 1;
    }
    Ok(out)
}

} // verus!
