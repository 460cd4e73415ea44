//! The pure decisions of one unit of work: where a thing's output lives,
//! whether the remote status or an existing destination turns the unit
//! into a no-op, which image rendition is fetched, and which URL a file is
//! fetched from. The I/O layer performs the requests and writes; every
//! choice it acts on is made here.

use crate::naming::string_is;
use crate::rest::files::File;
use crate::rest::images::Size;
use vstd::prelude::*;

verus! {

/// HTTP status codes under which a resource counts as absent rather than
/// failed: not found, and forbidden.
pub fn status_skips(status: u16) -> (r: bool)
    ensures
        r <==> (status == 404 || status == 403),
{
    status == 404 || status == 403
}

/// The directory bucket a work index falls into: indices are grouped by
/// thousands, so index `i` lives under `(i / 1000) * 1000`.
pub fn bucket_base(id: u64) -> (b: u64)
    ensures
        b == (id / 1000) * 1000,
        b <= id,
{
    proof {
        assert((id / 1000) * 1000 <= id) by (nonlinear_arith);
    }
    (id / 1000) * 1000
}

/// What one unit of work does.
#[derive(Clone, Copy, PartialEq, Eq, Structural, Debug)]
pub enum MirrorStep {
    /// The remote thing is absent or forbidden: nothing to do, no error.
    SkipAbsent,
    /// The destination already exists: the unit already ran, nothing to do.
    SkipExisting,
    /// Fetch the thing and write its output.
    Fetch,
}

/// Decides a unit of work from the status of the first request and
/// whether the unit's destination directory already exists. Absence wins
/// over an existing destination; work happens only when the thing is
/// reachable and its output is not yet there — so re-running a unit whose
/// output exists is a no-op.
pub fn mirror_step(status: u16, dest_exists: bool) -> (d: MirrorStep)
    ensures
        (d == MirrorStep::SkipAbsent) <==> (status == 404 || status == 403),
        (d == MirrorStep::SkipExisting) <==> (status != 404 && status != 403 && dest_exists),
        (d == MirrorStep::Fetch) <==> (status != 404 && status != 403 && !dest_exists),
{
    if status_skips(status) {
        MirrorStep::SkipAbsent
    } else if dest_exists {
        MirrorStep::SkipExisting
    } else {
        MirrorStep::Fetch
    }
}

/// True of the one rendition worth mirroring: the large display image.
pub open spec fn is_large_display(s: Size) -> bool {
    s.kind@ == "display"@ && s.size@ == "large"@
}

/// Picks the first large display rendition of an image, if any.
pub fn pick_display_size(sizes: &Vec<Size>) -> (r: Option<usize>)
    ensures
        match r {
            Some(k) => {
                &&& k < sizes@.len()
                &&& is_large_display(sizes@[k as int])
                &&& forall|j: int| 0 <= j < k ==> !is_large_display(sizes@[j])
            },
            None => forall|j: int| 0 <= j < sizes@.len() ==> !is_large_display(sizes@[j]),
        },
{
    let n = sizes.len();
    let mut k: usize = 0;
    while k < n
        invariant
            0 <= k <= n,
            n == sizes@.len(),
            forall|j: int| 0 <= j < k ==> !is_large_display(sizes@[j]),
        decreases n - k,
    {
        if string_is(&sizes[k].kind, "display") && string_is(&sizes[k].size, "large") {
            return Some(k);
        }
        k = k + 1;
    }
    None
}

/// The URL a file is fetched from: its direct URL when the API gave one,
/// otherwise its public URL.
pub fn choose_file_url(f: File) -> (u: String)
    ensures
        f.direct_url is Some ==> u@ == f.direct_url->0@,
        f.direct_url is None ==> u@ == f.public_url@,
{
    match f.direct_url {
        Some(direct) => direct,
        None => f.public_url,
    }
}

} // verus!
