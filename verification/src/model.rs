//! The shape written to disk beside each mirrored thing, and the pure
//! mapping from the wire shape into it.

use crate::rest;
use vstd::prelude::*;

verus! {

/// The author of a thing, as stored.
pub struct Creator {
    pub id: u64,
    pub name: String,
    pub first_name: String,
    pub last_name: String,
}

/// One thing, as stored: the wire shape with the tag records flattened to
/// their names and the URLs dropped.
pub struct Thing {
    pub id: u64,
    pub name: String,
    pub description: String,
    pub instructions: String,
    pub details: String,
    pub tags: Vec<String>,
    pub creator: Creator,
    pub license: String,
}

impl Thing {
    /// Maps the wire shape to the stored shape: every scalar field
    /// carries over unchanged and the tags flatten to their names, in
    /// order.
    pub fn from_rest(t: rest::things::Thing) -> (m: Thing)
        ensures
            m.id == t.id,
            m.name@ == t.name@,
            m.description@ == t.description@,
            m.instructions@ == t.instructions@,
            m.details@ == t.details@,
            m.license@ == t.license@,
            m.creator.id == t.creator.id,
            m.creator.name@ == t.creator.name@,
            m.creator.first_name@ == t.creator.first_name@,
            m.creator.last_name@ == t.creator.last_name@,
            m.tags@.len() == t.tags@.len(),
            forall|k: int| 0 <= k < t.tags@.len() ==> m.tags@[k]@ == t.tags@[k].name@,
    {
        let mut tags: Vec<String> = Vec::new();
        let n = t.tags.len();
        let mut k: usize = 0;
        while k < n
            invariant
                0 <= k <= n,
                n == t.tags@.len(),
                tags@.len() == k,
                forall|j: int| 0 <= j < k ==> tags@[j]@ == t.tags@[j].name@,
            decreases n - k,
        {
            tags.push(t.tags[k].name.clone());
            k = k + 1;
        }
        Thing {
            id: t.id,
            name: t.name,
            description: t.description,
            instructions: t.instructions,
            details: t.details,
            tags,
            creator: Creator {
                id: t.creator.id,
                name: t.creator.name,
                first_name: t.creator.first_name,
                last_name: t.creator.last_name,
            },
            license: t.license,
        }
    }
}

} // verus!
