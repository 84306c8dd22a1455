//! R-tree partition backed by the `rstar` crate: bulk insertion
//! bulk-loads a fresh tree, single-entry insertion is supported, and a
//! query uses the crate's own radius search, which compares squared
//! distances inclusively — an agent exactly on the boundary is kept.
//!
//! The coordinate and radius limits matter here: rstar computes squared
//! distances and envelope volumes of the stored coordinates in `i64`,
//! and the limits keep all of those computations in range.

use crate::point::Point3;
use crate::point::RADIUS_LIMIT;
use crate::point::bounded_pos;
use crate::spatial::Entry;
use crate::spatial::SpatialPartition;
use crate::spatial::bounded_entries;
use crate::spatial::entry_dist2;
use crate::spatial::entry_of;
use crate::spatial::entry_within;
use crate::spatial::lemma_batch_entries_bounded;
use crate::spatial::nearby_handles;
use crate::spatial::seq_entries;
use vstd::multiset::Multiset;
use vstd::prelude::*;

verus! {

/// R-tree partition over integer positions with handle payloads.
///
/// The tree itself belongs to the outside crate and is opaque here:
/// what it stores is named by [`rtree_contents`], and the trusted
/// wrappers in this file state how each call into the crate relates to
/// that name. Everything else about this scheme is verified against
/// those statements.
#[verifier::external_body]
pub struct RTreeStorage {
    tree: rstar::RTree<rstar::primitives::GeomWithData<[i64; 3], u64>>,
}

/// What the held R-tree stores, as entries.
pub uninterp spec fn rtree_contents(t: RTreeStorage) -> Multiset<Entry>;

impl RTreeStorage {
    /// Relies on rstar::RTree::new: it creates an empty tree.
    #[verifier::external_body]
    fn empty() -> (t: RTreeStorage)
        ensures
            rtree_contents(t) == Multiset::<Entry>::empty(),
    {
        RTreeStorage { tree: rstar::RTree::new() }
    }

    /// Relies on rstar::RTree::bulk_load: the loaded tree holds exactly
    /// the given elements.
    #[verifier::external_body]
    fn bulk_load(items: &Vec<(u64, Point3)>) -> (t: RTreeStorage)
        ensures
            rtree_contents(t) == seq_entries(items@).to_multiset(),
    {
        let elems: Vec<rstar::primitives::GeomWithData<[i64; 3], u64>> = items.iter().map(
            |p: &(u64, Point3)| rstar::primitives::GeomWithData::new([p.1.x, p.1.y, p.1.z], p.0),
        ).collect();
        RTreeStorage { tree: rstar::RTree::bulk_load(elems) }
    }

    /// Relies on rstar::RTree::insert: the element is added, and one
    /// already present is then present twice. The coordinate bounds keep
    /// the envelope-volume and distance arithmetic that insertion
    /// performs inside `i64`.
    #[verifier::external_body]
    fn insert_one(&mut self, ent: u64, position: &Point3)
        requires
            bounded_entries(rtree_contents(*old(self))),
            bounded_pos(*position),
        ensures
            rtree_contents(*final(self)) == rtree_contents(*old(self)).insert(
                entry_of(ent, *position),
            ),
    {
        self.tree.insert(
            rstar::primitives::GeomWithData::new([position.x, position.y, position.z], ent),
        );
    }

    /// Relies on rstar::RTree::locate_within_distance: it yields exactly
    /// the stored elements whose squared distance to the query point is
    /// less than or equal to the given maximum — the boundary included.
    /// The coordinate bounds keep its internal distance arithmetic
    /// inside `i64`.
    #[verifier::external_body]
    fn within_distance2(&self, origin: &Point3, r2: i64) -> (r: Vec<(u64, Point3)>)
        requires
            bounded_entries(rtree_contents(*self)),
            bounded_pos(*origin),
            0 <= r2,
        ensures
            forall|k: int|
                0 <= k < r@.len() ==> rtree_contents(*self).count(
                    entry_of((#[trigger] r@[k]).0, r@[k].1),
                ) > 0 && entry_dist2(entry_of(r@[k].0, r@[k].1), *origin) <= r2 as int,
            forall|e: Entry|
                #[trigger] rtree_contents(*self).count(e) > 0 && entry_dist2(e, *origin)
                    <= r2 as int ==> exists|k: int|
                    0 <= k < r@.len() && entry_of((#[trigger] r@[k]).0, r@[k].1) == e,
    {
        self.tree.locate_within_distance([origin.x, origin.y, origin.z], r2).map(
            |it: &rstar::primitives::GeomWithData<[i64; 3], u64>| (
                it.data,
                Point3 { x: it.geom()[0], y: it.geom()[1], z: it.geom()[2] },
            ),
        ).collect()
    }

    /// Relies on rstar::RTree::nearest_neighbor: it returns `None`
    /// exactly on an empty tree, and otherwise some stored element
    /// no farther from the query point than any other stored element.
    /// The coordinate bounds keep its internal distance arithmetic
    /// inside `i64`.
    #[verifier::external_body]
    fn nearest_raw(&self, origin: &Point3) -> (r: Option<(u64, Point3)>)
        requires
            bounded_entries(rtree_contents(*self)),
            bounded_pos(*origin),
        ensures
            r is None <==> rtree_contents(*self).len() == 0,
            r matches Some(p) ==> rtree_contents(*self).count(entry_of(p.0, p.1)) > 0
                && forall|e: Entry|
                #[trigger] rtree_contents(*self).count(e) > 0 ==> entry_dist2(
                    entry_of(p.0, p.1),
                    *origin,
                ) <= entry_dist2(e, *origin),
    {
        self.tree.nearest_neighbor([origin.x, origin.y, origin.z]).map(
            |it: &rstar::primitives::GeomWithData<[i64; 3], u64>| (
                it.data,
                Point3 { x: it.geom()[0], y: it.geom()[1], z: it.geom()[2] },
            ),
        )
    }

    /// The handle of a stored entry nearest to `origin`: `None` exactly
    /// when nothing is stored, never an error, and on a tie some one of
    /// the nearest entries.
    pub fn nearest_handle(&self, origin: &Point3) -> (r: Option<u64>)
        requires
            self.wf(),
            bounded_pos(*origin),
        ensures
            r is None <==> self.view_entries().len() == 0,
            r matches Some(h) ==> exists|e: Entry|
                #[trigger] self.view_entries().count(e) > 0 && e.0 == h && forall|e2: Entry|
                    #[trigger] self.view_entries().count(e2) > 0 ==> entry_dist2(e, *origin)
                        <= entry_dist2(e2, *origin),
    {
        match self.nearest_raw(origin) {
            Some((h, pos)) => {
                proof {
                    let e = entry_of(h, pos);
                    assert(self.view_entries().count(e) > 0 && e.0 == h && forall|e2: Entry|
                        #[trigger] self.view_entries().count(e2) > 0 ==> entry_dist2(e, *origin)
                            <= entry_dist2(e2, *origin));
                }
                Some(h)
            },
            None => None,
        }
    }

    /// An empty R-tree partition.
    pub fn new() -> (s: RTreeStorage)
        ensures
            s.wf(),
            s.view_entries() == Multiset::<Entry>::empty(),
            s.query_limit() == RADIUS_LIMIT as int,
            s.supports_insert(),
            s.bulk_replaces(),
    {
        RTreeStorage::empty()
    }
}

impl SpatialPartition for RTreeStorage {
    closed spec fn wf(&self) -> bool {
        bounded_entries(rtree_contents(*self))
    }

    closed spec fn view_entries(&self) -> Multiset<Entry> {
        rtree_contents(*self)
    }

    closed spec fn query_limit(&self) -> int {
        RADIUS_LIMIT as int
    }

    closed spec fn supports_insert(&self) -> bool {
        true
    }

    closed spec fn bulk_replaces(&self) -> bool {
        true
    }

    proof fn wf_entries_bounded(&self) {
    }

    fn get_nearby_ent(&self, origin: &Point3, perception: i64) -> (r: Vec<u64>) {
        let m = Ghost(self.view_entries());
        let p = Ghost(perception as int);
        if perception < 0 {
            let out: Vec<u64> = Vec::new();
            proof {
                assert(out@.to_set() =~= nearby_handles(m@, *origin, p@));
            }
            return out;
        }
        proof {
            assert(0 <= p@ * p@ <= 0x4000_0000_0000_0000int) by (nonlinear_arith)
                requires
                    0 <= p@ <= 0x20_0000,
            ;
        }
        let r2: i64 = perception * perception;
        let cands = self.within_distance2(origin, r2);
        let ghost cs = cands@;
        let mut out: Vec<u64> = Vec::new();
        let n: usize = cands.len();
        let mut i: usize = 0;
        while i < n
            invariant
                n == cs.len(),
                i <= n,
                cs == cands@,
                out@.len() == i,
                forall|k: int| 0 <= k < i ==> #[trigger] out@[k] == cs[k].0,
            decreases n - i,
        {
            let (ent, _) = cands[i];
            out.push(ent);
            i += 1;
        }
        proof {
            assert forall|h: u64| out@.to_set().contains(h) implies nearby_handles(
                m@,
                *origin,
                p@,
            ).contains(h) by {
                let k = choose|k: int| 0 <= k < out@.len() && out@[k] == h;
                let e = entry_of(cs[k].0, cs[k].1);
                assert(m@.count(e) > 0 && entry_dist2(e, *origin) <= r2 as int);
                assert(entry_within(e, *origin, p@));
            }
            assert forall|h: u64| nearby_handles(m@, *origin, p@).contains(h) implies out@
                .to_set().contains(h) by {
                let e = choose|e: Entry|
                    #[trigger] m@.count(e) > 0 && e.0 == h && entry_within(e, *origin, p@);
                let k = choose|k: int|
                    0 <= k < cs.len() && entry_of((#[trigger] cs[k]).0, cs[k].1) == e;
                assert(out@[k] == h);
                assert(out@.contains(h));
            }
            assert(out@.to_set() =~= nearby_handles(m@, *origin, p@));
        }
        out
    }

    fn insert(&mut self, ent: u64, position: &Point3) {
        self.insert_one(ent, position);
        proof {
            assert forall|e: Entry| self.view_entries().count(e) > 0 implies crate::spatial::bounded_entry(
                e,
            ) by {
                if e != entry_of(ent, *position) {
                    assert(old(self).view_entries().count(e) > 0);
                }
            }
        }
    }

    fn bulk_insert(&mut self, bulk: Vec<(u64, Point3)>) {
        *self = RTreeStorage::bulk_load(&bulk);
        proof {
            lemma_batch_entries_bounded(bulk@);
        }
    }

    fn clear(&mut self) {
        *self = RTreeStorage::empty();
    }
}

} // verus!
