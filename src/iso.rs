use vstd::prelude::*;

use crate::cd::{dts_tree, get_if_dts_cd_dir_entry, CdTreeEntries};
use crate::error::{Error, NotDtsDiscIsoError};
use crate::file::{File, FileSystem};
use crate::isofile::{IsoDirEntry, IsoFile, IsoFileSystem};

verus! {

/// Where the volume descriptor's magic lies in an image.
pub const ISO_MAGIC_AT: u64 = 0x8001;

/// The magic `CD001` of an ISO9660 volume descriptor.
pub open spec fn iso_magic() -> Seq<u8> {
    seq![0x43u8, 0x44u8, 0x30u8, 0x30u8, 0x31u8]
}

/// `b` starts with `CD001`.
pub open spec fn starts_with_iso_magic(b: Seq<u8>) -> bool {
    b.len() >= 5 && b.subrange(0, 5) == iso_magic()
}

/// The image holds `CD001` at 0x8001..0x8006.
pub open spec fn has_iso_magic(c: Seq<u8>) -> bool {
    c.len() >= 0x8006 && c.subrange(0x8001, 0x8006) == iso_magic()
}

pub fn check_iso_magic(bytes: &[u8]) -> (r: bool)
    ensures
        r == starts_with_iso_magic(bytes@),
{
    let r = bytes.len() >= 5 && bytes[0] == 0x43 && bytes[1] == 0x44 && bytes[2] == 0x30
        && bytes[3] == 0x30 && bytes[4] == 0x31;
    assert(r ==> bytes@.subrange(0, 5) =~= iso_magic());
    assert(starts_with_iso_magic(bytes@) ==> bytes@.subrange(0, 5)[1] == 0x44u8);
    r
}

/// Whether the file holds the ISO9660 magic at 0x8001.
pub fn is_iso_file<F: File>(file: &mut F) -> (r: bool)
    ensures
        r ==> has_iso_magic(old(file).content()),
        final(file).content() == old(file).content(),
        final(file).pos() == old(file).pos(),
{
    match file.read_exact_bytes_at(5, ISO_MAGIC_AT) {
        Ok(data) => {
            let r = check_iso_magic(&data);
            assert(r ==> data@ =~= data@.subrange(0, 5));
            r
        },
        Err(_) => false,
    }
}

/// Opens an ISO image whose root is a content disc, and its reels and
/// trailers; `path` names the image in errors.
pub fn decode_iso_from_file<F: File>(file: F, path: &str) -> (r: Result<
    CdTreeEntries<IsoFile<F>>,
    Error,
>)
    ensures
        r is Ok ==> has_iso_magic(file.content()),
        r matches Ok(t) ==> exists|d: Seq<IsoDirEntry>| #[trigger] dts_tree(t, d),
{
    let ghost c = file.content();
    let mut fs = IsoFileSystem::from_file(file)?;
    proof {
        let sub = c.subrange(0x8001, 0x8006);
        assert(sub.subrange(0, 5) =~= sub);
    }
    let root: Vec<String> = Vec::new();
    let root_dir_entries = fs.read_dir(&root)?;
    match get_if_dts_cd_dir_entry(&mut fs, &root_dir_entries)? {
        Some(d) => Ok(d),
        None => Err(Error::NotDtsDiscIso(NotDtsDiscIsoError { file: path.to_owned() })),
    }
}

} // verus!
