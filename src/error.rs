use vstd::prelude::*;

verus! {

/// No detection rule recognised the file.
#[derive(Debug, Clone, PartialEq, Eq)]
pub struct UnknownFileTypeError {
    pub file: String,
}

/// A header file whose length is not 202 bytes.
#[derive(Debug, Clone, PartialEq, Eq)]
pub struct HdrUnexpectedSizeError {
    pub file: String,
    pub size: u64,
}

/// A header file whose leading bytes are not the signature; `data` holds the
/// first ten bytes.
#[derive(Debug, Clone, PartialEq, Eq)]
pub struct HdrUnexpectedHeaderError {
    pub file: String,
    pub data: Vec<u8>,
}

/// A sound file too short to hold its header.
#[derive(Debug, Clone, PartialEq, Eq)]
pub struct SndUnexpectedSizeError {
    pub file: String,
    pub size: u64,
}

/// An ISO image whose root is not a content disc.
#[derive(Debug, Clone, PartialEq, Eq)]
pub struct NotDtsDiscIsoError {
    pub file: String,
}

/// A malformed line of a trailers manifest; `position` is its one-based line
/// number plus one.
#[derive(Debug, Clone, PartialEq, Eq)]
pub struct ParseTrailerMetadataTxtError {
    pub file: String,
    pub line: String,
    pub position: u32,
}

/// A path that a virtual filesystem does not hold.
#[derive(Debug, Clone, PartialEq, Eq)]
pub struct PathError {
    pub file: String,
    pub path: String,
}

/// A path that names a directory where a file was asked for.
#[derive(Debug, Clone, PartialEq, Eq)]
pub struct NotFilePathError {
    pub file: String,
    pub path: String,
}

/// A path that names a file where a directory was asked for.
#[derive(Debug, Clone, PartialEq, Eq)]
pub struct NotDirPathError {
    pub file: String,
    pub path: String,
}

/// An optical backup soundtrack byte outside the known values.
#[derive(Debug, Clone, PartialEq, Eq)]
pub struct UnknownOpticalBackupSoundtrackFormatError {
    pub value: u8,
}

/// Everything that can go wrong in the library.
#[derive(Debug, Clone, PartialEq, Eq)]
pub enum Error {
    UnknownFileType(UnknownFileTypeError),
    HdrUnexpectedSize(HdrUnexpectedSizeError),
    HdrUnexpectedHeader(HdrUnexpectedHeaderError),
    SndUnexpectedSize(SndUnexpectedSizeError),
    NotDtsDiscIso(NotDtsDiscIsoError),
    ParseTrailerMetadataTxt(ParseTrailerMetadataTxtError),
    Path(PathError),
    NotFilePath(NotFilePathError),
    NotDirPath(NotDirPathError),
    UnknownOpticalBackupSoundtrackFormat(UnknownOpticalBackupSoundtrackFormatError),
    /// A nibble of a binary-coded-decimal byte is above nine.
    BcdOutOfRange(u8),
    /// A value above 99 cannot be packed as two decimal digits.
    BcdValueTooLarge(u8),
    /// A structure on disk whose magic or version is not the expected one.
    BadMagic,
    /// A structure on disk whose fields contradict each other.
    Corrupt,
    /// A feature of the on-disk format that is not handled.
    Unsupported,
    /// The underlying storage refused a read.
    Io,
    /// A seek would leave the file.
    InvalidSeek,
    /// The content ends before the bytes asked for.
    UnexpectedEof,
    /// Text that is not valid UTF-8.
    InvalidUtf8,
    /// No sound file has the requested feature title or id.
    FeatureNotFound,
    /// No sound file has the requested trailer title.
    TrailerNotFound(String),
    /// No sound file has the requested trailer id.
    TrailerIdNotFound(u16),
    /// The sound file with the requested title is not an unencrypted reel 14.
    NotATrailer(String),
    /// The sound file with the requested id is not an unencrypted reel 14.
    NotATrailerId(u16),
    /// The combined trailers reel would not fit in memory offsets.
    TooLarge,
}

} // verus!
