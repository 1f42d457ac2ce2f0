use std::rc::Rc;

use chrono::TimeZone;

use vstd::prelude::*;

use crate::detect::{joined_path, path_to_string};
use crate::error::{Error, NotDirPathError, NotFilePathError, PathError};
use crate::file::{path_view, DirEntry, File, FileSystem, FileType};
use crate::iso::starts_with_iso_magic;
use crate::partitionfile::PartitionFile;
use crate::text::{
    be32_at, le16_at, le32_at, lossy_string, read_be32, read_le16, read_le32, slice_bytes,
    utf8_lossy,
};
use crate::trailers::parse_number;

verus! {

/// The length of a sector.
pub const ISO_SECTOR_LEN: u64 = 2048;

/// Where the primary volume descriptor starts: sector 16.
pub const ISO_HEADER_START: u64 = 0x8000;

/// The fixed part of a directory record; the identifier follows it.
pub const ISO_DIRECTORY_RECORD_LEN: usize = 33;

/// A date and time with its offset from UTC.
#[derive(Debug, Clone, Copy, PartialEq, Eq, Structural)]
pub struct IsoDateTime {
    pub year: i32,
    pub month: u32,
    pub day: u32,
    pub hour: u32,
    pub minute: u32,
    pub second: u32,
    pub milliseconds: i64,
    pub offset_seconds: i32,
}

/// A leap year of the proleptic Gregorian calendar.
pub open spec fn is_leap_year(y: int) -> bool {
    y % 4 == 0 && (y % 100 != 0 || y % 400 == 0)
}

/// The number of days in a month of a year.
pub open spec fn days_in_month(y: int, m: int) -> int {
    if m == 2 {
        if is_leap_year(y) {
            29
        } else {
            28
        }
    } else if m == 4 || m == 6 || m == 9 || m == 11 {
        30
    } else {
        31
    }
}

/// The fields name a time of an existing day, at an offset of less than a
/// day from UTC.
pub open spec fn calendar_datetime(
    offset_seconds: i32,
    year: i32,
    month: u32,
    day: u32,
    hour: u32,
    minute: u32,
    second: u32,
) -> bool {
    &&& -86400 < offset_seconds < 86400
    &&& 1 <= month <= 12
    &&& 1 <= day <= days_in_month(year as int, month as int)
    &&& hour < 24
    &&& minute < 60
    &&& second < 60
}

/// Relies on chrono's FixedOffset::east_opt, which takes offsets strictly
/// within a day, and TimeZone::with_ymd_and_hms, which gives a date and time
/// exactly where NaiveDate::from_ymd_opt takes the day of the proleptic
/// Gregorian calendar and and_hms_opt the time (seconds below 60); for a
/// fixed offset that one is single for years 0 to 9999.
#[verifier::external_body]
fn datetime_exists(
    offset_seconds: i32,
    year: i32,
    month: u32,
    day: u32,
    hour: u32,
    minute: u32,
    second: u32,
) -> (r: bool)
    requires
        0 <= year <= 9999,
    ensures
        r == calendar_datetime(offset_seconds, year, month, day, hour, minute, second),
{
    match chrono::FixedOffset::east_opt(offset_seconds) {
        Some(o) => o.with_ymd_and_hms(year, month, day, hour, minute, second).single().is_some(),
        None => false,
    }
}

/// The offset from UTC that a zone byte gives.
pub open spec fn zone_offset(b: u8) -> int {
    ((if b >= 128 {
        b - 256
    } else {
        b as int
    }) - 48) * 900
}

fn zone_offset_of(b: u8) -> (r: i32)
    ensures
        r == zone_offset(b),
{
    let signed: i32 = if b >= 128 {
        b as i32 - 256
    } else {
        b as i32
    };
    (signed - 48) * 900
}

/// The seven-byte date of a directory record, where chrono takes it.
pub fn iso_directory_datetime_to_datetime(b: &[u8]) -> (r: Option<IsoDateTime>)
    requires
        b@.len() >= 7,
    ensures
        r matches Some(d) ==> d.year == b@[0] + 1900 && d.month == b@[1] && d.day == b@[2]
            && d.hour == b@[3] && d.minute == b@[4] && d.second == b@[5] && d.milliseconds == 0
            && d.offset_seconds == zone_offset(b@[6]),
        r is Some <==> calendar_datetime(
            zone_offset(b@[6]) as i32,
            (b@[0] + 1900) as i32,
            b@[1] as u32,
            b@[2] as u32,
            b@[3] as u32,
            b@[4] as u32,
            b@[5] as u32,
        ),
{
    let year = b[0] as i32 + 1900;
    let offset = zone_offset_of(b[6]);
    if datetime_exists(offset, year, b[1] as u32, b[2] as u32, b[3] as u32, b[4] as u32, b[5] as u32) {
        Some(
            IsoDateTime {
                year,
                month: b[1] as u32,
                day: b[2] as u32,
                hour: b[3] as u32,
                minute: b[4] as u32,
                second: b[5] as u32,
                milliseconds: 0,
                offset_seconds: offset,
            },
        )
    } else {
        None
    }
}

/// The decimal number written in the digits `from..to`, if they are digits.
fn digits_at(b: &[u8], from: usize, to: usize) -> (r: Option<u32>)
    requires
        from <= to <= b@.len(),
{
    match parse_number(&slice_bytes(b, from, to), 0xFFFF_FFFF) {
        Some(v) => Some(v as u32),
        None => None,
    }
}

/// The seventeen-byte date of a volume descriptor, `YYYYMMDDHHMMSScc` and a
/// zone byte, where its digits parse and chrono takes it.
pub fn iso_dec_datetime_to_datetime(b: &[u8]) -> (r: Option<IsoDateTime>)
    requires
        b@.len() >= 17,
    ensures
        r matches Some(d) ==> d.offset_seconds == zone_offset(b@[16]) && 0 <= d.milliseconds
            <= 990 && calendar_datetime(
            d.offset_seconds,
            d.year,
            d.month,
            d.day,
            d.hour,
            d.minute,
            d.second,
        ),
{
    let year = digits_at(b, 0, 4)?;
    let month = digits_at(b, 4, 6)?;
    let day = digits_at(b, 6, 8)?;
    let hour = digits_at(b, 8, 10)?;
    let minute = digits_at(b, 10, 12)?;
    let second = digits_at(b, 12, 14)?;
    let centis = digits_at(b, 14, 16)?;
    if year > 9999 || centis > 99 {
        return None;
    }
    let offset = zone_offset_of(b[16]);
    if datetime_exists(offset, year as i32, month, day, hour, minute, second) {
        Some(
            IsoDateTime {
                year: year as i32,
                month,
                day,
                hour,
                minute,
                second,
                milliseconds: centis as i64 * 10,
                offset_seconds: offset,
            },
        )
    } else {
        None
    }
}

/// The primary volume descriptor.
pub struct IsoHeader {
    pub volume_descriptor_type: u8,
    pub system_name: String,
    pub label: String,
    pub volume_space_size: u32,
    pub volume_set_size: u16,
    pub volume_sequence_number: u16,
    pub logical_block_size: u16,
    pub path_table_size: u32,
    pub loc_of_type_l_path_table: u32,
    pub loc_of_opti_l_path_table: u32,
    pub loc_of_type_m_path_table: u32,
    pub loc_of_opti_m_path_table: u32,
    pub volume_set_id: String,
    pub publisher_id: String,
    pub data_preparer_id: String,
    pub application_id: String,
    pub copyright_file_id: String,
    pub abstract_file_id: String,
    pub bibliographic_file_id: String,
    pub volume_creation_date: Option<IsoDateTime>,
    pub volume_modification_date: Option<IsoDateTime>,
    pub volume_expiration_date: Option<IsoDateTime>,
    pub volume_effective_date: Option<IsoDateTime>,
}

/// The text of bytes `from..to`, decoded leniently.
fn lossy_field(b: &[u8], from: usize, to: usize) -> (r: String)
    requires
        from <= to <= b@.len(),
    ensures
        r@ == utf8_lossy(b@.subrange(from as int, to as int)),
{
    lossy_string(&slice_bytes(b, from, to))
}

impl IsoHeader {
    /// Decodes the fields of a 2048-byte volume descriptor.
    pub fn from_raw(b: &[u8]) -> (r: IsoHeader)
        requires
            b@.len() == ISO_SECTOR_LEN,
        ensures
            r.volume_descriptor_type == b@[0],
            r.system_name@ == utf8_lossy(b@.subrange(8, 40)),
            r.label@ == utf8_lossy(b@.subrange(40, 72)),
            r.volume_space_size == le32_at(b@, 80),
            r.volume_set_size == le16_at(b@, 120),
            r.volume_sequence_number == le16_at(b@, 124),
            r.logical_block_size == le16_at(b@, 128),
            r.path_table_size == le32_at(b@, 132),
            r.loc_of_type_l_path_table == le32_at(b@, 140),
            r.loc_of_opti_l_path_table == le32_at(b@, 144),
            r.loc_of_type_m_path_table == be32_at(b@, 148),
            r.loc_of_opti_m_path_table == be32_at(b@, 152),
            r.volume_set_id@ == utf8_lossy(b@.subrange(190, 318)),
            r.publisher_id@ == utf8_lossy(b@.subrange(318, 446)),
            r.data_preparer_id@ == utf8_lossy(b@.subrange(446, 574)),
            r.application_id@ == utf8_lossy(b@.subrange(574, 702)),
            r.copyright_file_id@ == utf8_lossy(b@.subrange(702, 739)),
            r.abstract_file_id@ == utf8_lossy(b@.subrange(739, 776)),
            r.bibliographic_file_id@ == utf8_lossy(b@.subrange(776, 813)),
    {
        IsoHeader {
            volume_descriptor_type: b[0],
            system_name: lossy_field(b, 8, 40),
            label: lossy_field(b, 40, 72),
            volume_space_size: read_le32(b, 80),
            volume_set_size: read_le16(b, 120),
            volume_sequence_number: read_le16(b, 124),
            logical_block_size: read_le16(b, 128),
            path_table_size: read_le32(b, 132),
            loc_of_type_l_path_table: read_le32(b, 140),
            loc_of_opti_l_path_table: read_le32(b, 144),
            loc_of_type_m_path_table: read_be32(b, 148),
            loc_of_opti_m_path_table: read_be32(b, 152),
            volume_set_id: lossy_field(b, 190, 318),
            publisher_id: lossy_field(b, 318, 446),
            data_preparer_id: lossy_field(b, 446, 574),
            application_id: lossy_field(b, 574, 702),
            copyright_file_id: lossy_field(b, 702, 739),
            abstract_file_id: lossy_field(b, 739, 776),
            bibliographic_file_id: lossy_field(b, 776, 813),
            volume_creation_date: iso_dec_datetime_to_datetime(&slice_bytes(b, 813, 830)),
            volume_modification_date: iso_dec_datetime_to_datetime(&slice_bytes(b, 830, 847)),
            volume_expiration_date: iso_dec_datetime_to_datetime(&slice_bytes(b, 847, 864)),
            volume_effective_date: iso_dec_datetime_to_datetime(&slice_bytes(b, 864, 881)),
        }
    }
}

/// The index of the last `;` in `s`, or `s.len()`.
pub open spec fn version_cut(s: Seq<u8>) -> int
    decreases s.len(),
{
    if s.len() == 0 {
        0
    } else if s.last() == 0x3B {
        s.len() - 1
    } else if version_cut(s.drop_last()) == s.len() - 1 {
        s.len() as int
    } else {
        version_cut(s.drop_last())
    }
}

/// Where `;version` starts in an identifier, or its length.
fn find_version_cut(id: &[u8]) -> (r: usize)
    ensures
        r == version_cut(id@),
        r <= id@.len(),
{
    let mut i = id.len();
    while i > 0 && id[i - 1] != 0x3B
        invariant
            i <= id@.len(),
            forall|j: int| i <= j < id@.len() ==> id@[j] != 0x3B,
        decreases i,
    {
        i -= 1;
    }
    proof {
        lemma_version_cut(id@, i as int);
    }
    if i == 0 {
        id.len()
    } else {
        i - 1
    }
}

pub proof fn lemma_version_cut(s: Seq<u8>, i: int)
    requires
        0 <= i <= s.len(),
        forall|j: int| i <= j < s.len() ==> s[j] != 0x3B,
        i > 0 ==> s[i - 1] == 0x3B,
    ensures
        version_cut(s) == (if i == 0 {
            s.len() as int
        } else {
            i - 1
        }),
    decreases s.len(),
{
    if s.len() > 0 && s.last() != 0x3B {
        assert forall|j: int| i <= j < s.len() - 1 implies s.drop_last()[j] != 0x3B by {
            assert(s.drop_last()[j] == s[j]);
        }
        if i == s.len() {
            assert(false);
        } else {
            lemma_version_cut(s.drop_last(), i);
        }
    }
}

/// A directory record.
#[derive(Clone)]
pub struct IsoDirectory {
    pub length: u8,
    pub xar_length: u8,
    pub lba: u32,
    pub data_length: u32,
    pub datetime: Option<IsoDateTime>,
    pub flags: u8,
    pub unit_size: u8,
    pub interleave_gap_size: u8,
    pub volume_seq_number: u16,
    pub file_identifier: String,
    pub name: String,
    pub path_to_entry: Vec<String>,
}

/// The flag bit of a directory.
pub const ISO_DIRECTORY_FLAG: u8 = 0x02;

pub open spec fn record_is_dir(flags: u8) -> bool {
    flags & ISO_DIRECTORY_FLAG != 0
}

/// A copy of a path.
pub fn clone_path(p: &Vec<String>) -> (r: Vec<String>)
    ensures
        r@ == p@,
{
    let mut out: Vec<String> = Vec::new();
    let mut i: usize = 0;
    while i < p.len()
        invariant
            i <= p@.len(),
            out@ == p@.subrange(0, i as int),
        decreases p@.len() - i,
    {
        out.push(p[i].clone());
        i += 1;
    }
    assert(p@.subrange(0, p@.len() as int) =~= p@);
    out
}

impl IsoDirectory {
    /// Decodes the 33-byte fixed part at `b[at..]` and the identifier
    /// `name`; the record's path is `parent` and its cleaned name.
    pub fn from_raw(b: &[u8], at: usize, file_name: &[u8], parent: &Vec<String>) -> (r: IsoDirectory)
        requires
            at + ISO_DIRECTORY_RECORD_LEN <= b@.len(),
        ensures
            r.length == b@[at as int],
            r.xar_length == b@[at + 1],
            r.lba == le32_at(b@, at + 2),
            r.data_length == le32_at(b@, at + 10),
            r.flags == b@[at + 25],
            r.unit_size == b@[at + 26],
            r.interleave_gap_size == b@[at + 27],
            r.volume_seq_number == le16_at(b@, at + 28),
            r.file_identifier@ == utf8_lossy(file_name@),
            r.name@ == utf8_lossy(file_name@.subrange(0, version_cut(file_name@))),
            r.path_to_entry@ == parent@.push(r.name),
    {
        let cut = find_version_cut(file_name);
        let name = lossy_string(&slice_bytes(file_name, 0, cut));
        let mut path_to_entry = clone_path(parent);
        path_to_entry.push(name.clone());
        IsoDirectory {
            length: b[at],
            xar_length: b[at + 1],
            lba: read_le32(b, at + 2),
            data_length: read_le32(b, at + 10),
            datetime: iso_directory_datetime_to_datetime(&slice_bytes(b, at + 18, at + 25)),
            flags: b[at + 25],
            unit_size: b[at + 26],
            interleave_gap_size: b[at + 27],
            volume_seq_number: read_le16(b, at + 28),
            file_identifier: lossy_string(file_name),
            name,
            path_to_entry,
        }
    }

    pub fn name(&self) -> (r: &str)
        ensures
            r@ == self.name@,
    {
        self.name.as_str()
    }

    pub fn is_dir(&self) -> (r: bool)
        ensures
            r == record_is_dir(self.flags),
    {
        self.flags & ISO_DIRECTORY_FLAG != 0
    }

    pub fn is_file(&self) -> (r: bool)
        ensures
            r == !record_is_dir(self.flags),
    {
        !self.is_dir()
    }
}

/// The identifier of the record at `at`.
pub open spec fn record_identifier(b: Seq<u8>, at: int) -> Seq<u8> {
    b.subrange(at + 33, at + 33 + b[at + 32])
}

/// The record at `at` is whole: its fixed part and identifier lie in `b` and
/// its length is not zero.
pub open spec fn record_fits(b: Seq<u8>, at: int) -> bool {
    0 <= at && b.len() - at > 33 && b[at] != 0 && b[at + 32] <= b.len() - (at + 33)
}

/// The record of the directory itself or of its parent: identifier 0 or 1.
pub open spec fn own_record(b: Seq<u8>, at: int) -> bool {
    b[at + 32] == 1 && (b[at + 33] == 0 || b[at + 33] == 1)
}

/// Where the records from `at` on start, walking by each record's length
/// until one does not fit; the directory's own and parent records left out.
pub open spec fn kept_records(b: Seq<u8>, at: int) -> Seq<int>
    decreases b.len() - at,
{
    if !record_fits(b, at) {
        Seq::empty()
    } else {
        let rest = if b[at] as int > b.len() - at {
            Seq::empty()
        } else {
            kept_records(b, at + b[at])
        };
        if own_record(b, at) {
            rest
        } else {
            seq![at] + rest
        }
    }
}

/// `d` is the record at `at` of the extent `b`, in the directory `parent`;
/// its name is its identifier cut at the last `;`.
pub open spec fn record_at(d: IsoDirectory, b: Seq<u8>, at: int, parent: Seq<String>) -> bool {
    let id = record_identifier(b, at);
    &&& d.length == b[at]
    &&& d.lba == le32_at(b, at + 2)
    &&& d.data_length == le32_at(b, at + 10)
    &&& d.flags == b[at + 25]
    &&& d.file_identifier@ == utf8_lossy(id)
    &&& d.name@ == utf8_lossy(id.subrange(0, version_cut(id)))
    &&& d.path_to_entry@ == parent.push(d.name)
}

/// The children that the extent `b` lists in the directory `parent`.
pub open spec fn children_of(r: Seq<IsoDirectory>, b: Seq<u8>, parent: Seq<String>) -> bool {
    let kept = kept_records(b, 0);
    &&& r.len() == kept.len()
    &&& forall|k: int| 0 <= k < r.len() ==> record_at(#[trigger] r[k], b, kept[k], parent)
}

/// The records of a directory's extent `b`: fixed parts followed by their
/// identifiers, each `length` bytes from the last, until a zero length or
/// the end. The records of the directory itself and its parent are left out.
pub fn parse_children(b: &[u8], parent: &Vec<String>) -> (r: Vec<IsoDirectory>)
    ensures
        children_of(r@, b@, parent@),
        forall|k: int| 0 <= k < r@.len() ==> r@[k].path_to_entry@ == parent@.push(#[trigger] r@[k].name),
{
    let mut children: Vec<IsoDirectory> = Vec::new();
    let ghost mut done: Seq<int> = Seq::empty();
    let len = b.len();
    let mut current: usize = 0;
    let mut stop = false;
    while current < len && !stop
        invariant
            len == b@.len(),
            current <= len,
            children@.len() == done.len(),
            kept_records(b@, 0) == done + (if stop {
                Seq::<int>::empty()
            } else {
                kept_records(b@, current as int)
            }),
            forall|k: int| 0 <= k < children@.len() ==> record_at(#[trigger] children@[k], b@, done[k], parent@),
        decreases len - current, (if stop { 0int } else { 1int }),
    {
        if len - current <= ISO_DIRECTORY_RECORD_LEN {
            stop = true;
            assert(done + Seq::<int>::empty() =~= done);
        } else {
            let length = b[current] as usize;
            let name_len = b[current + 32] as usize;
            let name_at = current + ISO_DIRECTORY_RECORD_LEN;
            if length == 0 || name_len > len - name_at {
                stop = true;
                assert(done + Seq::<int>::empty() =~= done);
            } else {
                let ghost rest = if length as int > len - current {
                    Seq::<int>::empty()
                } else {
                    kept_records(b@, current + length)
                };
                let name = slice_bytes(b, name_at, name_at + name_len);
                let own = name_len == 1 && (name[0] == 0 || name[0] == 1);
                if !own {
                    let record = IsoDirectory::from_raw(b, current, &name, parent);
                    let ghost prev = children@;
                    children.push(record);
                    proof {
                        assert(name@ == record_identifier(b@, current as int));
                        assert forall|k: int| 0 <= k < children@.len() implies record_at(
                            #[trigger] children@[k],
                            b@,
                            done.push(current as int)[k],
                            parent@,
                        ) by {
                            if k < prev.len() {
                                assert(children@[k] == prev[k]);
                            }
                        }
                        assert(done + (seq![current as int] + rest) =~= done.push(current as int) + rest);
                        done = done.push(current as int);
                    }
                }
                if length > len - current {
                    stop = true;
                    assert(done + Seq::<int>::empty() =~= done);
                } else {
                    current = current + length;
                }
            }
        }
    }
    proof {
        if !stop {
            assert(kept_records(b@, current as int) =~= Seq::<int>::empty());
        }
        assert(done + Seq::<int>::empty() =~= done);
    }
    children
}

/// The `len` bytes of the image from sector `lba` on.
pub open spec fn extent(img: Seq<u8>, lba: int, len: int) -> Seq<u8> {
    img.subrange(lba * 2048, lba * 2048 + len)
}

/// A file of an ISO image: a window over the image.
pub struct IsoFile<F: File> {
    window: PartitionFile<F>,
    path: Vec<String>,
}

impl<F: File> File for IsoFile<F> {
    closed spec fn content(&self) -> Seq<u8> {
        self.window.content()
    }

    closed spec fn pos(&self) -> int {
        self.window.pos()
    }

    fn len(&self) -> (r: u64) {
        self.window.len()
    }

    fn position(&self) -> (r: u64) {
        self.window.position()
    }

    fn set_position(&mut self, p: u64) {
        self.window.set_position(p);
    }

    fn read_at(&self, at: u64, n: usize) -> (r: Result<Vec<u8>, Error>) {
        self.window.read_at(at, n)
    }
}

/// An entry of an ISO directory listing.
pub struct IsoDirEntry {
    dir: IsoDirectory,
}

impl DirEntry for IsoDirEntry {
    closed spec fn entry_path(&self) -> Seq<Seq<char>> {
        path_view(self.dir.path_to_entry@)
    }

    closed spec fn entry_kind(&self) -> FileType {
        if record_is_dir(self.dir.flags) {
            FileType::Directory
        } else {
            FileType::File
        }
    }

    fn path(&self) -> (r: Result<Vec<String>, Error>) {
        let p = clone_path(&self.dir.path_to_entry);
        assert(path_view(p@) == self.entry_path());
        Ok(p)
    }

    fn file_type(&self) -> (r: Result<FileType, Error>) {
        if self.dir.is_dir() {
            Ok(FileType::Directory)
        } else {
            Ok(FileType::File)
        }
    }
}

/// An ISO9660 image: its volume descriptor and root record over the shared
/// image file.
pub struct IsoFileSystem<F: File> {
    pub header: IsoHeader,
    root: IsoDirectory,
    file: Rc<F>,
}

impl<F: File> IsoFileSystem<F> {
    /// Reads the primary volume descriptor at sector 16; its type and version
    /// must be 1 and its magic `CD001`.
    pub fn from_file(mut file: F) -> (r: Result<Self, Error>)
        ensures
            r is Ok ==> file.content().len() >= ISO_HEADER_START + ISO_SECTOR_LEN && file.content()[
                ISO_HEADER_START as int] == 1 && starts_with_iso_magic(
                file.content().subrange(0x8001, 0x8006),
            ) && file.content()[0x8006] == 1,
    {
        let bytes = file.read_exact_bytes_at(ISO_SECTOR_LEN as usize, ISO_HEADER_START)?;
        if bytes[0] != 0x01 || bytes[6] != 0x01 || !crate::iso::check_iso_magic(&slice_bytes(&bytes, 1, 6)) {
            return Err(Error::BadMagic);
        }
        proof {
            let c = file.content();
            assert(bytes@.subrange(1, 6) =~= c.subrange(0x8001, 0x8006));
            assert(bytes@.subrange(1, 6).subrange(0, 5) =~= bytes@.subrange(1, 6));
        }
        let header = IsoHeader::from_raw(&bytes);
        let root = IsoDirectory::from_raw(&bytes, 156, &[], &Vec::new());
        let root = IsoDirectory { path_to_entry: Vec::new(), ..root };
        Ok(IsoFileSystem { header, root, file: Rc::new(file) })
    }

    /// The bytes of the image.
    pub closed spec fn image(&self) -> Seq<u8> {
        (*self.file).content()
    }

    /// Opens the file that a path names: the window of the image over its
    /// extent, `data_length` bytes from sector `lba`.
    pub fn open_path(&self, path: &Vec<String>) -> (r: Result<IsoFile<F>, Error>)
        ensures
            r matches Ok(f) ==> f.pos() == 0 && exists|lba: int, len: int|
                0 <= lba && 0 <= len && lba * 2048 + len <= self.image().len() && f.content()
                    == #[trigger] extent(self.image(), lba, len),
            r matches Err(Error::NotFilePath(e)) ==> e.path@ == joined_path(path_view(path@)),
    {
        let record = self.get_dir_entry_from_path(path)?;
        if record.is_dir() {
            return Err(Error::NotFilePath(NotFilePathError { file: String::new(), path: path_to_string(path) }));
        }
        let start = record.lba as u64 * ISO_SECTOR_LEN;
        let window = PartitionFile::new(self.file.clone(), start, record.data_length as u64)?;
        let f = IsoFile { window, path: clone_path(path) };
        assert(f.content() == extent(self.image(), record.lba as int, record.data_length as int));
        Ok(f)
    }

    /// The records of a directory, read from its extent; none where the
    /// extent cannot be read.
    fn get_children(&self, dir: &IsoDirectory) -> (r: Vec<IsoDirectory>)
        ensures
            r@.len() == 0 || children_of(
                r@,
                extent(self.image(), dir.lba as int, dir.data_length as int),
                dir.path_to_entry@,
            ),
            forall|k: int| 0 <= k < r@.len() ==> r@[k].path_to_entry@ == dir.path_to_entry@.push(#[trigger] r@[k].name),
    {
        let start = dir.lba as u64 * ISO_SECTOR_LEN;
        let len = dir.data_length as usize;
        let total = (*self.file).len();
        if start > total || len as u64 > total - start {
            return Vec::new();
        }
        match (*self.file).read_at(start, len) {
            Ok(bytes) => {
                assert(bytes@ =~= extent(self.image(), dir.lba as int, dir.data_length as int));
                parse_children(&bytes, &dir.path_to_entry)
            },
            Err(_) => Vec::new(),
        }
    }

    /// The record that a path names, component by component from the root;
    /// names compare exactly.
    fn get_dir_entry_from_path(&self, path: &Vec<String>) -> (r: Result<IsoDirectory, Error>)
        ensures
            r matches Ok(d) ==> path_view(d.path_to_entry@) == path_view(path@),
            r matches Err(e) ==> (e matches Error::Path(p) && p.path@ == joined_path(
                path_view(path@),
            )),
    {
        let mut current = IsoDirectory { path_to_entry: Vec::new(), ..self.root.clone() };
        let mut i: usize = 0;
        assert(path_view(path@.subrange(0, 0)) =~= path_view(current.path_to_entry@));
        while i < path.len()
            invariant
                i <= path@.len(),
                path_view(current.path_to_entry@) == path_view(path@.subrange(0, i as int)),
            decreases path@.len() - i,
        {
            let mut children = self.get_children(&current);
            let mut k: usize = 0;
            let mut found: Option<usize> = None;
            while k < children.len()
                invariant
                    k <= children@.len(),
                    i < path@.len(),
                    found matches Some(f) ==> f < children@.len() && children@[f as int].name@
                        == path@[i as int]@,
                decreases children@.len() - k,
            {
                if found.is_none() && crate::cd::text_is(children[k].name(), path[i].as_str()) {
                    found = Some(k);
                }
                k += 1;
            }
            match found {
                None => {
                    return Err(Error::Path(PathError { file: String::new(), path: path_to_string(path) }));
                },
                Some(f) => {
                    let child = children.remove(f);
                    proof {
                        assert(path_view(path@.subrange(0, i + 1)) =~= path_view(path@.subrange(0, i as int)).push(path@[i as int]@));
                        assert(path_view(child.path_to_entry@) =~= path_view(current.path_to_entry@).push(child.name@));
                    }
                    if !child.is_dir() && i + 1 < path.len() {
                        return Err(Error::Path(PathError { file: String::new(), path: path_to_string(path) }));
                    }
                    current = child;
                },
            }
            i += 1;
        }
        assert(path@.subrange(0, path@.len() as int) =~= path@);
        Ok(current)
    }
}

impl<F: File> FileSystem for IsoFileSystem<F> {
    type File = IsoFile<F>;

    type DirEntry = IsoDirEntry;

    fn is_file(&mut self, path: &Vec<String>) -> bool {
        match self.get_dir_entry_from_path(path) {
            Ok(d) => d.is_file(),
            Err(_) => false,
        }
    }

    fn is_dir(&mut self, path: &Vec<String>) -> bool {
        match self.get_dir_entry_from_path(path) {
            Ok(d) => d.is_dir(),
            Err(_) => false,
        }
    }

    fn open_file(&mut self, path: &Vec<String>) -> Result<Self::File, Error> {
        self.open_path(path)
    }

    /// Lists a directory record's children.
    fn read_dir(&mut self, path: &Vec<String>) -> Result<Vec<Self::DirEntry>, Error> {
        let dir = self.get_dir_entry_from_path(path)?;
        if !dir.is_dir() {
            return Err(Error::NotDirPath(NotDirPathError { file: String::new(), path: path_to_string(path) }));
        }
        let mut children = self.get_children(&dir);
        let mut entries: Vec<IsoDirEntry> = Vec::new();
        while children.len() > 0
            decreases children@.len(),
        {
            let d = children.remove(0);
            entries.push(IsoDirEntry { dir: d });
        }
        Ok(entries)
    }
}

} // verus!
