//! The wire shape of one remote thing and its parts.

use std::collections::HashMap;
use vstd::prelude::*;

verus! {

/// One tag on a thing.
pub struct Tag {
    pub name: String,
    pub tag: String,
}

/// The author of a thing.
pub struct Creator {
    pub id: u64,
    pub name: String,
    pub first_name: String,
    pub last_name: String,
}

/// One structured detail block of a thing.
pub struct Detail {
    pub name: String,
    pub kind: String,
    pub data: Option<Vec<HashMap<String, String>>>,
}

/// One remote thing, as the API returns it.
pub struct Thing {
    pub id: u64,
    pub name: String,
    pub description: String,
    pub instructions: String,
    pub details: String,
    pub details_parts: Vec<Detail>,
    pub tags: Vec<Tag>,
    pub creator: Creator,
    pub license: String,
    pub files_url: String,
    pub images_url: String,
}

} // verus!
