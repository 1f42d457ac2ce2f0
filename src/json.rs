use vstd::prelude::*;

verus! {

/// One record of the JSON summary: a feature or a trailer.
pub enum EntryJson {
    Feature(FeatureEntryJson),
    Trailer(TrailerEntryJson),
}

/// A feature and its reels.
pub struct FeatureEntryJson {
    pub id: u16,
    pub title: String,
    pub reels: Vec<ReelEntryJson>,
}

/// A trailer.
pub struct TrailerEntryJson {
    pub id: u16,
    pub title: String,
}

/// A reel of a feature.
pub struct ReelEntryJson {
    pub number: u8,
}

} // verus!
