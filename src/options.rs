use vstd::prelude::*;

use crate::extract::{Feature, FeatureId, FeatureName, TrailerIds, TrailerNames, Trailers};

verus! {

/// How a feature is chosen on the command line: by title or by id, at most
/// one of them.
pub struct FeatureGroup {
    pub feature_name: Option<String>,
    pub feature_id: Option<u16>,
}

/// How trailers are chosen on the command line: by titles or by ids, at most
/// one of them.
pub struct TrailersGroup {
    pub trailer_names: Option<Vec<String>>,
    pub trailer_ids: Option<Vec<u16>>,
}

impl FeatureGroup {
    /// The feature the options name; a title wins over an id.
    pub fn into_feature(self) -> (r: Option<Feature>)
        ensures
            match self.feature_name {
                Some(n) => r matches Some(Feature::Name(f)) && f.name == n,
                None => match self.feature_id {
                    Some(i) => r matches Some(Feature::Id(f)) && f.id == i,
                    None => r is None,
                },
            },
    {
        match self.feature_name {
            Some(name) => Some(Feature::Name(FeatureName { name })),
            None => match self.feature_id {
                Some(id) => Some(Feature::Id(FeatureId { id })),
                None => None,
            },
        }
    }
}

impl TrailersGroup {
    /// The trailers the options name; titles win over ids.
    pub fn into_trailers(self) -> (r: Option<Trailers>)
        ensures
            match self.trailer_names {
                Some(n) => r matches Some(Trailers::Names(t)) && t.names == n,
                None => match self.trailer_ids {
                    Some(i) => r matches Some(Trailers::Ids(t)) && t.ids == i,
                    None => r is None,
                },
            },
    {
        match self.trailer_names {
            Some(names) => Some(Trailers::Names(TrailerNames { names })),
            None => match self.trailer_ids {
                Some(ids) => Some(Trailers::Ids(TrailerIds { ids })),
                None => None,
            },
        }
    }
}

} // verus!
