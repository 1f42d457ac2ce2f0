use vstd::prelude::*;
use vstd::string::*;

verus! {

/// The legacy soundtrack format that a reel pairs with.
#[derive(Debug, Clone, Copy, PartialEq, Eq, Structural)]
pub enum BackupSoundtrackFormat {
    DolbyA,
    DolbySR,
    Academy,
    NonSync,
    LastReelDolbySR,
}

/// The byte that stands for each format.
pub open spec fn backup_format_byte(f: BackupSoundtrackFormat) -> u8 {
    match f {
        BackupSoundtrackFormat::DolbyA => 0x00,
        BackupSoundtrackFormat::DolbySR => 0x01,
        BackupSoundtrackFormat::Academy => 0x02,
        BackupSoundtrackFormat::NonSync => 0x80,
        BackupSoundtrackFormat::LastReelDolbySR => 0x81,
    }
}

impl BackupSoundtrackFormat {
    /// The name of the format.
    pub fn name(&self) -> (r: String)
        ensures
            r@ == (match self {
                BackupSoundtrackFormat::DolbyA => "Dolby A"@,
                BackupSoundtrackFormat::DolbySR => "Dolby SR"@,
                BackupSoundtrackFormat::Academy => "Academy"@,
                BackupSoundtrackFormat::NonSync => "Non-Sync"@,
                BackupSoundtrackFormat::LastReelDolbySR => "Last reel - Dolby SR"@,
            }),
    {
        match self {
            BackupSoundtrackFormat::DolbyA => String::from_str("Dolby A"),
            BackupSoundtrackFormat::DolbySR => String::from_str("Dolby SR"),
            BackupSoundtrackFormat::Academy => String::from_str("Academy"),
            BackupSoundtrackFormat::NonSync => String::from_str("Non-Sync"),
            BackupSoundtrackFormat::LastReelDolbySR => String::from_str("Last reel - Dolby SR"),
        }
    }

    /// The byte that stands for the format.
    pub fn to_byte(&self) -> (r: u8)
        ensures
            r == backup_format_byte(*self),
    {
        match self {
            BackupSoundtrackFormat::DolbyA => 0x00,
            BackupSoundtrackFormat::DolbySR => 0x01,
            BackupSoundtrackFormat::Academy => 0x02,
            BackupSoundtrackFormat::NonSync => 0x80,
            BackupSoundtrackFormat::LastReelDolbySR => 0x81,
        }
    }
}

/// What a header file describes.
#[derive(Debug, Clone, PartialEq, Eq)]
pub struct HdrFileMetadata {
    pub id: u16,
    pub reel: u8,
    pub title: String,
    pub studio: String,
}

/// Whether a sound file is a feature reel or the trailers reel.
#[derive(Debug, Clone, Copy, PartialEq, Eq, Structural)]
pub enum SndType {
    Feature,
    Trailer,
}

/// The layout revision of a sound file header.
#[derive(Debug, Clone, Copy, PartialEq, Eq, Structural)]
pub enum SndRevision {
    H1,
    XD,
    XDA,
}

/// A time code: frames, seconds, minutes and hours.
#[derive(Debug, Clone, Copy, PartialEq, Eq, Structural)]
pub struct Offset {
    pub frames: u8,
    pub seconds: u8,
    pub minutes: u8,
    pub hours: u8,
}

/// The descriptive fields that the XDA layout adds.
#[derive(Debug, Clone, PartialEq, Eq)]
pub struct XdaFields {
    pub source: String,
    pub mix: String,
    pub lfe_level: String,
    pub surround_delay: String,
    pub filters: String,
}

/// What a sound file header describes.
#[derive(Debug, Clone, PartialEq, Eq)]
pub struct SndFileMetadata {
    pub snd_type: SndType,
    pub revision: SndRevision,
    pub id: u16,
    pub reel: u8,
    pub title: String,
    pub language: String,
    pub studio: Option<String>,
    pub optical_backup: BackupSoundtrackFormat,
    pub tracks: u8,
    pub encrypted: bool,
    pub key: Option<u16>,
    pub start: Option<Offset>,
    pub end: Option<Offset>,
    pub xda: Option<XdaFields>,
}

/// What a content disc describes of itself.
#[derive(Debug, Clone, PartialEq, Eq)]
pub struct DtsCdMetadata {}

/// One line of a trailers manifest.
#[derive(Debug, Clone, PartialEq, Eq)]
pub struct TrailersMetadataTxtEntry {
    pub title: String,
    pub id: u16,
    pub start: u32,
    pub end: usize,
    pub offset: usize,
}

/// A trailers manifest.
#[derive(Debug, Clone, PartialEq, Eq)]
pub struct TrailersMetadata {
    pub entries: Vec<TrailersMetadataTxtEntry>,
}

} // verus!
