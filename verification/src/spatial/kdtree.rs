//! k-d tree partition backed by the `kd_tree` crate: the whole tree is
//! rebuilt from the full point set on every bulk insertion, and a query
//! asks the tree for the closed axis-aligned box around the origin
//! (its `within` search walks the kd-sorted slice with comparisons
//! only, both bounds included) before the exact-distance narrow phase
//! runs in verified code. The crate's own radius search is not used:
//! it compares squared distances strictly, which would drop an agent
//! sitting exactly on the query boundary.
//!
//! Single-entry insertion is left unsupported by this scheme, as a
//! rebuilt-per-tick structure has no use for it; `insert` is a no-op.

use crate::point::Point3;
use crate::point::RADIUS_LIMIT;
use crate::point::bounded_pos;
use crate::point::lemma_axis_bound;
use crate::point::lemma_sq_nonneg;
use crate::point::sq;
use crate::spatial::Entry;
use crate::spatial::SpatialPartition;
use crate::spatial::bounded_entries;
use crate::spatial::entry_of;
use crate::spatial::entry_within;
use crate::spatial::lemma_batch_entries_bounded;
use crate::spatial::nearby_handles;
use crate::spatial::narrow_phase;
use crate::spatial::pair_found;
use crate::spatial::pairs_nearby;
use crate::spatial::seq_entries;
use vstd::multiset::Multiset;
use vstd::prelude::*;

verus! {

/// k-d tree partition over integer positions with handle payloads.
///
/// The tree itself belongs to the outside crate and is opaque here:
/// what it stores is named by [`kd_contents`], and the trusted wrappers
/// in this file state how each call into the crate relates to that
/// name. Everything else about this scheme is verified against those
/// statements.
#[verifier::external_body]
pub struct KdTreeSpace {
    tree: kd_tree::KdMap<[i64; 3], u64>,
}

/// What the held k-d tree stores, as entries.
pub uninterp spec fn kd_contents(t: KdTreeSpace) -> Multiset<Entry>;

/// `e` lies in the closed box [lo, hi] componentwise.
pub open spec fn entry_in_box(e: Entry, lo: Point3, hi: Point3) -> bool {
    &&& lo.x <= e.1 <= hi.x
    &&& lo.y <= e.2 <= hi.y
    &&& lo.z <= e.3 <= hi.z
}

/// An entry within distance `r` of `o` lies in the closed box spanned
/// by `o - r` and `o + r`.
proof fn lemma_within_in_box(e: Entry, o: Point3, r: int, lo: Point3, hi: Point3)
    requires
        entry_within(e, o, r),
        lo.x == o.x - r && lo.y == o.y - r && lo.z == o.z - r,
        hi.x == o.x + r && hi.y == o.y + r && hi.z == o.z + r,
    ensures
        entry_in_box(e, lo, hi),
{
    lemma_sq_nonneg(e.1 - o.x);
    lemma_sq_nonneg(e.2 - o.y);
    lemma_sq_nonneg(e.3 - o.z);
    lemma_axis_bound(e.1 - o.x, sq(e.2 - o.y) + sq(e.3 - o.z), r);
    lemma_axis_bound(e.2 - o.y, sq(e.1 - o.x) + sq(e.3 - o.z), r);
    lemma_axis_bound(e.3 - o.z, sq(e.1 - o.x) + sq(e.2 - o.y), r);
}

impl KdTreeSpace {
    /// Relies on kd_tree::KdTreeN::build: the tree is the given vector,
    /// kd-sorted in place, so it holds exactly the given items.
    #[verifier::external_body]
    fn build(items: &Vec<(u64, Point3)>) -> (t: KdTreeSpace)
        ensures
            kd_contents(t) == seq_entries(items@).to_multiset(),
    {
        let pts: Vec<([i64; 3], u64)> = items.iter().map(
            |p: &(u64, Point3)| ([p.1.x, p.1.y, p.1.z], p.0),
        ).collect();
        KdTreeSpace { tree: kd_tree::KdMap::build(pts) }
    }

    /// Relies on kd_tree::KdSliceN::within: on a tree built by `build`
    /// it returns exactly the stored items whose coordinates lie in the
    /// given box, both corners included; it compares coordinates and
    /// performs no arithmetic. A lower corner above an upper corner
    /// panics in the crate, hence the requires.
    #[verifier::external_body]
    fn in_box(&self, lo: &Point3, hi: &Point3) -> (r: Vec<(u64, Point3)>)
        requires
            lo.x <= hi.x,
            lo.y <= hi.y,
            lo.z <= hi.z,
        ensures
            forall|k: int|
                0 <= k < r@.len() ==> kd_contents(*self).count(
                    entry_of((#[trigger] r@[k]).0, r@[k].1),
                ) > 0 && entry_in_box(entry_of(r@[k].0, r@[k].1), *lo, *hi),
            forall|e: Entry|
                #[trigger] kd_contents(*self).count(e) > 0 && entry_in_box(e, *lo, *hi)
                    ==> exists|k: int| 0 <= k < r@.len() && entry_of((#[trigger] r@[k]).0, r@[k].1) == e,
    {
        let found = self.tree.within(&[[lo.x, lo.y, lo.z], [hi.x, hi.y, hi.z]]);
        found.into_iter().map(
            |it: &([i64; 3], u64)| (it.1, Point3 { x: it.0[0], y: it.0[1], z: it.0[2] }),
        ).collect()
    }

    /// An empty k-d tree partition.
    pub fn new() -> (s: KdTreeSpace)
        ensures
            s.wf(),
            s.view_entries() == Multiset::<Entry>::empty(),
            s.query_limit() == RADIUS_LIMIT as int,
            !s.supports_insert(),
            s.bulk_replaces(),
    {
        let items: Vec<(u64, Point3)> = Vec::new();
        let s = KdTreeSpace::build(&items);
        proof {
            broadcast use vstd::seq_lib::group_to_multiset_ensures;

            assert(seq_entries(items@) =~= Seq::<Entry>::empty());
            assert(seq_entries(items@).to_multiset() =~= Multiset::<Entry>::empty());
        }
        s
    }
}

impl SpatialPartition for KdTreeSpace {
    closed spec fn wf(&self) -> bool {
        bounded_entries(kd_contents(*self))
    }

    closed spec fn view_entries(&self) -> Multiset<Entry> {
        kd_contents(*self)
    }

    closed spec fn query_limit(&self) -> int {
        RADIUS_LIMIT as int
    }

    closed spec fn supports_insert(&self) -> bool {
        false
    }

    closed spec fn bulk_replaces(&self) -> bool {
        true
    }

    proof fn wf_entries_bounded(&self) {
    }

    fn get_nearby_ent(&self, origin: &Point3, perception: i64) -> (r: Vec<u64>) {
        let m = Ghost(self.view_entries());
        let p = Ghost(perception as int);
        if perception < 0 {
            let out: Vec<u64> = Vec::new();
            proof {
                assert(out@.to_set() =~= nearby_handles(m@, *origin, p@));
            }
            return out;
        }
        let lo = Point3 {
            x: origin.x - perception,
            y: origin.y - perception,
            z: origin.z - perception,
        };
        let hi = Point3 {
            x: origin.x + perception,
            y: origin.y + perception,
            z: origin.z + perception,
        };
        let cands = self.in_box(&lo, &hi);
        proof {
            assert forall|j: int| 0 <= j < cands@.len() implies bounded_pos(
                (#[trigger] cands@[j]).1,
            ) by {
                assert(m@.count(entry_of(cands@[j].0, cands@[j].1)) > 0);
            }
        }
        let out = narrow_phase(&cands, origin, perception);
        proof {
            let cs = cands@;
            assert forall|h: u64| pairs_nearby(cs, *origin, p@).contains(h)
                implies nearby_handles(m@, *origin, p@).contains(h) by {
                let j = choose|j: int|
                    0 <= j < cs.len() && (#[trigger] cs[j]).0 == h && entry_within(
                        entry_of(cs[j].0, cs[j].1),
                        *origin,
                        p@,
                    );
                assert(m@.count(entry_of(cs[j].0, cs[j].1)) > 0);
            }
            assert forall|h: u64| nearby_handles(m@, *origin, p@).contains(h)
                implies pairs_nearby(cs, *origin, p@).contains(h) by {
                let e = choose|e: Entry|
                    #[trigger] m@.count(e) > 0 && e.0 == h && entry_within(e, *origin, p@);
                lemma_within_in_box(e, *origin, p@, lo, hi);
                let k = choose|k: int|
                    0 <= k < cs.len() && entry_of((#[trigger] cs[k]).0, cs[k].1) == e;
                assert(pair_found(cs, cs.len() as int, *origin, p@, h));
            }
            assert(pairs_nearby(cs, *origin, p@) =~= nearby_handles(m@, *origin, p@));
        }
        out
    }

    fn insert(&mut self, ent: u64, position: &Point3) {
    }

    fn bulk_insert(&mut self, bulk: Vec<(u64, Point3)>) {
        *self = KdTreeSpace::build(&bulk);
        proof {
            lemma_batch_entries_bounded(bulk@);
        }
    }

    fn clear(&mut self) {
        *self = KdTreeSpace::new();
    }
}

} // verus!
