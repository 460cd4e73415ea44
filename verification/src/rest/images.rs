//! The wire shape of a thing's images.

use vstd::prelude::*;

verus! {

/// One rendition of an image.
pub struct Size {
    pub kind: String,
    pub size: String,
    pub url: String,
}

/// One image of a thing, with its available renditions.
pub struct Image {
    pub id: u64,
    pub name: String,
    pub sizes: Vec<Size>,
}

} // verus!
