//! The wire shape of a thing's files.

use vstd::prelude::*;

verus! {

/// One rendition of a file preview.
pub struct Size {
    pub kind: String,
    pub size: String,
    pub url: String,
}

/// One downloadable file of a thing.
pub struct File {
    pub id: u64,
    pub name: String,
    pub size: u64,
    pub public_url: String,
    pub direct_url: Option<String>,
}

} // verus!
