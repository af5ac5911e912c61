//! The spatial index over the positions of the targets.

use vstd::prelude::*;
use vstd::multiset::Multiset;
use rstar::primitives::GeomWithData;
use rstar::RTree;

verus! {

/// An r-tree of `rstar` over points with whole coordinates, each filed under
/// a number. The coordinates are held as `i128`, in which no sum of squared
/// differences of two `i32` overflows.
#[verifier::external_body]
pub struct TargetIndex {
    tree: RTree<GeomWithData<[i128; 2], usize>>,
}

/// What an index holds: one entry per indexed position, made of its
/// longitude, its latitude and the number it was filed under.
pub uninterp spec fn index_entries(index: TargetIndex) -> Multiset<(i32, i32, usize)>;

/// The square of the distance of an entry from the point `(lon, lat)`.
pub open spec fn entry_distance_squared(entry: (i32, i32, usize), lon: i32, lat: i32) -> int {
    (lon - entry.0) * (lon - entry.0) + (lat - entry.1) * (lat - entry.1)
}

/// The test that an entry lies within the squared radius `reach` of the
/// point `(lon, lat)`.
pub open spec fn within_reach_of(lon: i32, lat: i32, reach: int) -> spec_fn((i32, i32, usize)) -> bool {
    |entry: (i32, i32, usize)| entry_distance_squared(entry, lon, lat) <= reach
}

/// Calls `rstar::RTree::bulk_load` on one `GeomWithData` per entry, the point
/// of each being its two coordinates widened to `i128`. The tree holds
/// exactly the entries it was given.
#[verifier::external_body]
pub(crate) fn build_index(entries: &Vec<(i32, i32, usize)>) -> (index: TargetIndex)
    ensures
        index_entries(index) == entries@.to_multiset(),
{
    let points = entries
        .iter()
        .map(|entry| GeomWithData::new([entry.0 as i128, entry.1 as i128], entry.2))
        .collect();
    TargetIndex { tree: RTree::bulk_load(points) }
}

/// Calls `rstar::RTree::locate_within_distance` with the point `(lon, lat)`
/// and the squared radius `reach`. It yields, in no stated order, each entry
/// of the tree whose squared distance from the point is at most `reach`, as
/// often as the tree holds it, and no other.
#[verifier::external_body]
pub(crate) fn entries_within(
    index: &TargetIndex,
    lon: i32,
    lat: i32,
    reach: i128,
) -> (found: Vec<(i32, i32, usize)>)
    ensures
        found@.to_multiset() == index_entries(*index).filter(within_reach_of(lon, lat, reach as int)),
{
    index
        .tree
        .locate_within_distance([lon as i128, lat as i128], reach)
        .map(|hit| (hit.geom()[0] as i32, hit.geom()[1] as i32, hit.data))
        .collect()
}

} // verus!
