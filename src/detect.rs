use vstd::prelude::*;
use vstd::string::*;
use vstd::utf8::encode_utf8;

use crate::cd::{get_if_dts_cd_dir_entry, is_disc_listing, entries_listing, CdTreeEntries};
use crate::error::{Error, UnknownFileTypeError};
use crate::ext234::{has_ext234_magic, is_ext234_image_file};
use crate::file::{path_view, File, FileSystem};
use crate::hdd::{has_mbr_magic, is_hdd_img_file};
use crate::hdr::{has_hdr_magic, is_hdr_file, HDR_LEN};
use crate::iso::{has_iso_magic, is_iso_file};
use crate::squash::{has_squashfs_magic, is_squashfs_file};
use crate::text::{extension_of, has_extension, lower_bytes};

verus! {

/// What a directory is: a plain one, or the root of a content disc.
pub enum DirType<F> {
    Regular,
    DiscTree(CdTreeEntries<F>),
}

/// The kinds of file that are recognised.
#[derive(Debug, Clone, Copy, PartialEq, Eq, Structural)]
pub enum FileType {
    Iso,
    Aud,
    Aue,
    Hdr,
    Snd,
    SquashFs,
    HddImg,
    PartitionImg,
}

/// The kinds that a header or sound file can be.
#[derive(Debug, Clone, Copy, PartialEq, Eq, Structural)]
pub enum SimpleFileType {
    Aud,
    Aue,
    Hdr,
    Snd,
}

/// The kind of a sound file, by its extension or by its encryption.
#[derive(Debug, Clone, Copy, PartialEq, Eq, Structural)]
pub enum SndFileType {
    Aud,
    Aue,
    Snd(SndTrackType),
}

#[derive(Debug, Clone, Copy, PartialEq, Eq, Structural)]
pub enum SndTrackType {
    Aud,
    Aue,
}

impl SndTrackType {
    /// The name of the kind.
    pub fn name(&self) -> (r: String)
        ensures
            r@ == (match self {
                SndTrackType::Aud => "AUD"@,
                SndTrackType::Aue => "AUE"@,
            }),
    {
        match self {
            SndTrackType::Aud => String::from_str("AUD"),
            SndTrackType::Aue => String::from_str("AUE"),
        }
    }
}

impl SndFileType {
    /// The name of the kind.
    pub fn name(&self) -> (r: String)
        ensures
            r@ == (match self {
                SndFileType::Aud => "AUD"@,
                SndFileType::Aue => "AUE"@,
                SndFileType::Snd(SndTrackType::Aud) => "SND (AUD)"@,
                SndFileType::Snd(SndTrackType::Aue) => "SND (AUE)"@,
            }),
    {
        match self {
            SndFileType::Aud => String::from_str("AUD"),
            SndFileType::Aue => String::from_str("AUE"),
            SndFileType::Snd(SndTrackType::Aud) => String::from_str("SND (AUD)"),
            SndFileType::Snd(SndTrackType::Aue) => String::from_str("SND (AUE)"),
        }
    }
}

/// The lower-case extension of a path's last component, as bytes.
pub open spec fn path_extension(p: Seq<Seq<char>>) -> Option<Seq<u8>> {
    if p.len() == 0 {
        None
    } else {
        match extension_of(encode_utf8(p.last())) {
            Some(e) => Some(lower_bytes(e)),
            None => None,
        }
    }
}

pub open spec fn extension_is(p: Seq<Seq<char>>, ext: Seq<char>) -> bool {
    path_extension(p) == Some(encode_utf8(ext))
}


/// Whether the path's last component has the extension `ext` (lower case).
pub(crate) fn path_has_extension(path: &Vec<String>, ext: &str) -> (r: bool)
    ensures
        r == extension_is(path_view(path@), ext@),
{
    if path.len() == 0 {
        return false;
    }
    let name = path[path.len() - 1].as_str();
    proof {
        assert(path_view(path@).last() == name@);
    }
    has_extension(name.as_bytes(), ext.as_bytes())
}

/// The simple kind that the extension names, if any.
fn get_simple_file_type_from_extension(path: &Vec<String>) -> (r: Option<SimpleFileType>)
    ensures
        r == simple_type_of_extension(path_view(path@)),
{
    if path_has_extension(path, "aud") {
        Some(SimpleFileType::Aud)
    } else if path_has_extension(path, "aue") {
        Some(SimpleFileType::Aue)
    } else if path_has_extension(path, "hdr") {
        Some(SimpleFileType::Hdr)
    } else if path_has_extension(path, "snd") {
        Some(SimpleFileType::Snd)
    } else {
        None
    }
}

pub open spec fn simple_type_of_extension(p: Seq<Seq<char>>) -> Option<SimpleFileType> {
    if extension_is(p, "aud"@) {
        Some(SimpleFileType::Aud)
    } else if extension_is(p, "aue"@) {
        Some(SimpleFileType::Aue)
    } else if extension_is(p, "hdr"@) {
        Some(SimpleFileType::Hdr)
    } else if extension_is(p, "snd"@) {
        Some(SimpleFileType::Snd)
    } else {
        None
    }
}

/// The other kinds that an extension names: only `iso`.
fn get_remaining_file_type_from_extension(path: &Vec<String>) -> (r: Option<FileType>)
    ensures
        r == (if extension_is(path_view(path@), "iso"@) {
            Some(FileType::Iso)
        } else {
            None
        }),
{
    if path_has_extension(path, "iso") {
        Some(FileType::Iso)
    } else {
        None
    }
}

/// A header file is the one simple kind that content reveals.
fn try_get_simple_file_type_from_content<F: File>(file: &mut F) -> (r: Option<SimpleFileType>)
    ensures
        r is None || r == Some(SimpleFileType::Hdr),
        r is Some ==> old(file).content().len() == HDR_LEN && has_hdr_magic(old(file).content()),
        final(file).content() == old(file).content(),
        final(file).pos() == old(file).pos(),
{
    if is_hdr_file(file) {
        Some(SimpleFileType::Hdr)
    } else {
        None
    }
}

/// Tests the magics of ISO, SquashFS, disk and ext2/3/4 images, in order.
fn try_get_remaining_file_type_from_content<F: File>(file: &mut F) -> (r: Option<FileType>)
    ensures
        r matches Some(t) ==> content_shows(t, old(file).content()),
        r matches Some(t) ==> t == FileType::Iso || t == FileType::SquashFs || t == FileType::HddImg
            || t == FileType::PartitionImg,
        final(file).content() == old(file).content(),
        final(file).pos() == old(file).pos(),
{
    if is_iso_file(file) {
        return Some(FileType::Iso);
    }
    if is_squashfs_file(file) {
        return Some(FileType::SquashFs);
    }
    if is_hdd_img_file(file) {
        return Some(FileType::HddImg);
    }
    if is_ext234_image_file(file) {
        return Some(FileType::PartitionImg);
    }
    None
}

/// What the content must hold for a kind found by its magic.
pub open spec fn content_shows(t: FileType, c: Seq<u8>) -> bool {
    match t {
        FileType::Hdr => c.len() == HDR_LEN && has_hdr_magic(c),
        FileType::Iso => has_iso_magic(c),
        FileType::SquashFs => has_squashfs_magic(c),
        FileType::HddImg => has_mbr_magic(c),
        FileType::PartitionImg => has_ext234_magic(c),
        _ => false,
    }
}

fn simple_file_type_to_file_type(t: SimpleFileType) -> (r: FileType)
    ensures
        r == simple_to_file_type(t),
{
    match t {
        SimpleFileType::Aud => FileType::Aud,
        SimpleFileType::Aue => FileType::Aue,
        SimpleFileType::Hdr => FileType::Hdr,
        SimpleFileType::Snd => FileType::Snd,
    }
}

pub open spec fn simple_to_file_type(t: SimpleFileType) -> FileType {
    match t {
        SimpleFileType::Aud => FileType::Aud,
        SimpleFileType::Aue => FileType::Aue,
        SimpleFileType::Hdr => FileType::Hdr,
        SimpleFileType::Snd => FileType::Snd,
    }
}

/// The path as text: each component after a `/`.
pub open spec fn joined_path(p: Seq<Seq<char>>) -> Seq<char>
    decreases p.len(),
{
    if p.len() == 0 {
        Seq::empty()
    } else {
        joined_path(p.drop_last()) + "/"@ + p.last()
    }
}

/// The path as text, each component after a `/`.
pub fn path_to_string(path: &Vec<String>) -> (r: String)
    ensures
        r@ == joined_path(path_view(path@)),
{
    let mut s = String::new();
    let mut i: usize = 0;
    while i < path.len()
        invariant
            i <= path@.len(),
            s@ == joined_path(path_view(path@.subrange(0, i as int))),
        decreases path@.len() - i,
    {
        s.append("/");
        s.append(path[i].as_str());
        proof {
            let pv = path_view(path@.subrange(0, i + 1));
            assert(pv.drop_last() =~= path_view(path@.subrange(0, i as int)));
            assert(pv.last() == path@[i as int]@);
        }
        i += 1;
    }
    assert(path@.subrange(0, path@.len() as int) =~= path@);
    s
}

/// Recognises a file: first by its extension, then by its content.
pub fn get_file_type<F: File>(file: &mut F, path: &Vec<String>) -> (r: Result<FileType, Error>)
    ensures
        final(file).content() == old(file).content(),
        final(file).pos() == old(file).pos(),
        simple_type_of_extension(path_view(path@)) matches Some(t) ==> r == Ok::<FileType, Error>(
            simple_to_file_type(t),
        ),
        simple_type_of_extension(path_view(path@)) is None && extension_is(
            path_view(path@),
            "iso"@,
        ) ==> r == Ok::<FileType, Error>(FileType::Iso),
        simple_type_of_extension(path_view(path@)) is None && !extension_is(
            path_view(path@),
            "iso"@,
        ) ==> (r matches Ok(t) ==> content_shows(t, old(file).content())),
        r matches Err(e) ==> (e matches Error::UnknownFileType(u) && u.file@ == joined_path(
            path_view(path@),
        )),
{
    if let Some(t) = get_simple_file_type_from_extension(path) {
        return Ok(simple_file_type_to_file_type(t));
    }
    if let Some(t) = get_remaining_file_type_from_extension(path) {
        return Ok(t);
    }
    if let Some(t) = try_get_simple_file_type_from_content(file) {
        return Ok(simple_file_type_to_file_type(t));
    }
    if let Some(t) = try_get_remaining_file_type_from_content(file) {
        return Ok(t);
    }
    Err(Error::UnknownFileType(UnknownFileTypeError { file: path_to_string(path) }))
}

/// Tells a content disc's root from a plain directory, given its listing.
pub fn get_dir_type<FS: FileSystem>(fs: &mut FS, entries: &Vec<FS::DirEntry>) -> (r: Result<
    DirType<FS::File>,
    Error,
>)
    ensures
        r matches Ok(DirType::DiscTree(t)) ==> is_disc_listing(entries_listing(entries@)) && exists|
            d: Seq<FS::DirEntry>,
        | #[trigger] crate::cd::dts_tree(t, d),
        r matches Ok(DirType::Regular) ==> !is_disc_listing(entries_listing(entries@)),
{
    match get_if_dts_cd_dir_entry(fs, entries)? {
        Some(cd) => Ok(DirType::DiscTree(cd)),
        None => Ok(DirType::Regular),
    }
}

} // verus!
