//! The spatial partition capability: a snapshot of (handle, position)
//! pairs, rebuilt in full each tick and then answering radius queries.
//!
//! Every implementation answers the same question, pinned by
//! [`nearby_handles`]: after `clear()` followed by `bulk_insert(list)`,
//! `get_nearby_ent(origin, r)` returns exactly the handles of the listed
//! entries whose position lies within Euclidean distance `r` of
//! `origin`, boundary included, self not excluded. A negative radius
//! selects nothing. The snapshot is a multiset: nothing is deduplicated.

use crate::point::Point3;
use crate::point::bounded_coord;
use crate::point::bounded_pos;
use crate::point::dist2;
use crate::point::sq;
use vstd::multiset::Multiset;
use vstd::prelude::*;

mod index_partition;
mod kdtree;
mod rtree;
mod simple_list;

pub use index_partition::ConfigError;
pub use index_partition::IndexPartition;
pub use kdtree::KdTreeSpace;
pub use rtree::RTreeStorage;
pub use simple_list::BrutePartition;

verus! {

/// One stored snapshot entry: handle and the three position coordinates.
pub type Entry = (u64, i64, i64, i64);

pub open spec fn entry_of(ent: u64, p: Point3) -> Entry {
    (ent, p.x, p.y, p.z)
}

pub open spec fn bounded_entry(e: Entry) -> bool {
    bounded_coord(e.1 as int) && bounded_coord(e.2 as int) && bounded_coord(e.3 as int)
}

pub open spec fn bounded_entries(m: Multiset<Entry>) -> bool {
    forall|e: Entry| #[trigger] m.count(e) > 0 ==> bounded_entry(e)
}

/// Squared distance from the position stored in `e` to `o`.
pub open spec fn entry_dist2(e: Entry, o: Point3) -> int {
    dist2(e.1 as int, e.2 as int, e.3 as int, o.x as int, o.y as int, o.z as int)
}

/// Whether `e` lies within distance `r` of `o`; never for a negative `r`.
pub open spec fn entry_within(e: Entry, o: Point3, r: int) -> bool {
    0 <= r && entry_dist2(e, o) <= sq(r)
}

/// The exact answer of a radius query on snapshot `m`: the set of
/// handles carried by an entry within distance `r` of `origin`.
pub open spec fn nearby_handles(m: Multiset<Entry>, origin: Point3, r: int) -> Set<u64> {
    Set::new(
        |h: u64|
            exists|e: Entry| #[trigger] m.count(e) > 0 && e.0 == h && entry_within(e, origin, r),
    )
}

pub open spec fn seq_entries(s: Seq<(u64, Point3)>) -> Seq<Entry> {
    s.map_values(|p: (u64, Point3)| entry_of(p.0, p.1))
}

pub open spec fn bounded_batch(s: Seq<(u64, Point3)>) -> bool {
    forall|i: int| 0 <= i < s.len() ==> bounded_pos(#[trigger] s[i].1)
}

/// Some pair among the first `upto` of `cs` carries handle `h` and lies
/// within `r` of `o`.
pub open spec fn pair_found(cs: Seq<(u64, Point3)>, upto: int, o: Point3, r: int, h: u64) -> bool {
    exists|j: int|
        0 <= j < upto && (#[trigger] cs[j]).0 == h && entry_within(
            entry_of(cs[j].0, cs[j].1),
            o,
            r,
        )
}

/// The handles among the candidate pairs `cs` within `r` of `o`.
pub open spec fn pairs_nearby(cs: Seq<(u64, Point3)>, o: Point3, r: int) -> Set<u64> {
    Set::new(|h: u64| pair_found(cs, cs.len() as int, o, r, h))
}

/// Entries built from a bounded batch are bounded.
pub proof fn lemma_batch_entries_bounded(s: Seq<(u64, Point3)>)
    requires
        bounded_batch(s),
    ensures
        bounded_entries(seq_entries(s).to_multiset()),
{
    broadcast use vstd::seq_lib::group_to_multiset_ensures;

    assert forall|e: Entry| seq_entries(s).to_multiset().count(e) > 0 implies bounded_entry(e) by {
        assert(seq_entries(s).contains(e));
        let j = choose|j: int| 0 <= j < seq_entries(s).len() && seq_entries(s)[j] == e;
        assert(bounded_pos(s[j].1));
    }
}

/// The exact-distance narrow phase: keep the handle of each candidate
/// pair within `r` of `origin`. Broad-phase stages hand their gathered
/// candidates to this filter.
pub fn narrow_phase(cands: &Vec<(u64, Point3)>, origin: &Point3, r: i64) -> (out: Vec<u64>)
    requires
        bounded_pos(*origin),
        forall|j: int| 0 <= j < cands@.len() ==> bounded_pos((#[trigger] cands@[j]).1),
    ensures
        out@.to_set() == pairs_nearby(cands@, *origin, r as int),
{
    let ghost cs = cands@;
    let mut out: Vec<u64> = Vec::new();
    let n: usize = cands.len();
    let mut i: usize = 0;
    while i < n
        invariant
            n == cs.len(),
            i <= n,
            cs == cands@,
            bounded_pos(*origin),
            forall|j: int| 0 <= j < cs.len() ==> bounded_pos((#[trigger] cs[j]).1),
            forall|k: int|
                0 <= k < out@.len() ==> pair_found(
                    cs,
                    i as int,
                    *origin,
                    r as int,
                    #[trigger] out@[k],
                ),
            forall|j: int|
                0 <= j < i && entry_within(
                    entry_of((#[trigger] cs[j]).0, cs[j].1),
                    *origin,
                    r as int,
                ) ==> out@.contains(cs[j].0),
        decreases n - i,
    {
        let ghost old_out = out@;
        let (ent, pos) = cands[i];
        let hit = pos.within_dist(origin, r);
        if hit {
            out.push(ent);
        }
        proof {
            if hit {
                assert forall|k: int| 0 <= k < out@.len() implies pair_found(
                    cs,
                    i as int + 1,
                    *origin,
                    r as int,
                    #[trigger] out@[k],
                ) by {
                    if k < old_out.len() {
                        assert(out@[k] == old_out[k]);
                        let j = choose|j: int|
                            0 <= j < i && (#[trigger] cs[j]).0 == old_out[k] && entry_within(
                                entry_of(cs[j].0, cs[j].1),
                                *origin,
                                r as int,
                            );
                        assert(0 <= j < i + 1 && (cs[j]).0 == out@[k] && entry_within(
                            entry_of(cs[j].0, cs[j].1),
                            *origin,
                            r as int,
                        ));
                    } else {
                        assert(out@[k] == ent);
                        assert((cs[i as int]).0 == ent && entry_within(
                            entry_of(cs[i as int].0, cs[i as int].1),
                            *origin,
                            r as int,
                        ));
                    }
                }
                assert forall|j: int|
                    0 <= j < i + 1 && entry_within(
                        entry_of((#[trigger] cs[j]).0, cs[j].1),
                        *origin,
                        r as int,
                    ) implies out@.contains(cs[j].0) by {
                    if j < i {
                        assert(old_out.contains(cs[j].0));
                        let k = choose|k: int| 0 <= k < old_out.len() && old_out[k] == cs[j].0;
                        assert(out@[k] == cs[j].0);
                    } else {
                        assert(out@[out@.len() - 1] == ent);
                    }
                }
            } else {
                assert(!entry_within(
                    entry_of(cs[i as int].0, cs[i as int].1),
                    *origin,
                    r as int,
                ));
            }
        }
        i += 1;
    }
    proof {
        assert forall|h: u64| out@.to_set().contains(h) implies pairs_nearby(
            cs,
            *origin,
            r as int,
        ).contains(h) by {
            let k = choose|k: int| 0 <= k < out@.len() && out@[k] == h;
            assert(pair_found(cs, n as int, *origin, r as int, out@[k]));
        }
        assert forall|h: u64|
            pairs_nearby(cs, *origin, r as int).contains(h) implies out@.to_set().contains(h) by {
            let j = choose|j: int|
                0 <= j < cs.len() && (#[trigger] cs[j]).0 == h && entry_within(
                    entry_of(cs[j].0, cs[j].1),
                    *origin,
                    r as int,
                );
            assert(out@.contains(cs[j].0));
        }
        assert(out@.to_set() =~= pairs_nearby(cs, *origin, r as int));
    }
    out
}

/// The neighbour-query capability shared by every partition scheme.
///
/// `view_entries` is the stored snapshot; `wf` the scheme's internal
/// well-formedness, established by its constructor and preserved by
/// every method. The two mode functions record the documented
/// behavioural differences between schemes: `supports_insert` is false
/// where single-entry insertion is left unsupported, and
/// `bulk_replaces` is true where a bulk insertion rebuilds the whole
/// structure instead of adding to it. Either way, `clear()` followed by
/// `bulk_insert(list)` leaves exactly `list` stored.
pub trait SpatialPartition: Sized {
    spec fn wf(&self) -> bool;

    spec fn view_entries(&self) -> Multiset<Entry>;

    /// The largest radius this partition accepts per query.
    spec fn query_limit(&self) -> int;

    spec fn supports_insert(&self) -> bool;

    spec fn bulk_replaces(&self) -> bool;

    proof fn wf_entries_bounded(&self)
        requires
            self.wf(),
        ensures
            bounded_entries(self.view_entries()),
    ;

    /// All handles stored within `perception` of `origin` — exactly.
    fn get_nearby_ent(&self, origin: &Point3, perception: i64) -> (r: Vec<u64>)
        requires
            self.wf(),
            bounded_pos(*origin),
            perception as int <= self.query_limit(),
        ensures
            r@.to_set() == nearby_handles(self.view_entries(), *origin, perception as int),
    ;

    /// Store one entry, where the scheme supports it; a no-op elsewhere.
    fn insert(&mut self, ent: u64, position: &Point3)
        requires
            old(self).wf(),
            bounded_pos(*position),
        ensures
            final(self).wf(),
            final(self).query_limit() == old(self).query_limit(),
            final(self).supports_insert() == old(self).supports_insert(),
            final(self).bulk_replaces() == old(self).bulk_replaces(),
            final(self).view_entries() == if old(self).supports_insert() {
                old(self).view_entries().insert(entry_of(ent, *position))
            } else {
                old(self).view_entries()
            },
    ;

    /// Store a whole snapshot; rebuilding schemes replace their content.
    fn bulk_insert(&mut self, bulk: Vec<(u64, Point3)>)
        requires
            old(self).wf(),
            bounded_batch(bulk@),
        ensures
            final(self).wf(),
            final(self).query_limit() == old(self).query_limit(),
            final(self).supports_insert() == old(self).supports_insert(),
            final(self).bulk_replaces() == old(self).bulk_replaces(),
            final(self).view_entries() == if old(self).bulk_replaces() {
                seq_entries(bulk@).to_multiset()
            } else {
                old(self).view_entries().add(seq_entries(bulk@).to_multiset())
            },
    ;

    /// Discard every stored entry.
    fn clear(&mut self)
        requires
            old(self).wf(),
        ensures
            final(self).wf(),
            final(self).query_limit() == old(self).query_limit(),
            final(self).supports_insert() == old(self).supports_insert(),
            final(self).bulk_replaces() == old(self).bulk_replaces(),
            final(self).view_entries() == Multiset::<Entry>::empty(),
    ;
}

/// The partition schemes a simulation can choose from, as one tagged
/// union: the active scheme is selected at configuration time and every
/// step dispatches on it.
pub enum Space {
    Grid(IndexPartition),
    KdTree(KdTreeSpace),
    RTree(RTreeStorage),
    Brute(BrutePartition),
}

impl SpatialPartition for Space {
    open spec fn wf(&self) -> bool {
        match self {
            Space::Grid(s) => s.wf(),
            Space::KdTree(s) => s.wf(),
            Space::RTree(s) => s.wf(),
            Space::Brute(s) => s.wf(),
        }
    }

    open spec fn view_entries(&self) -> Multiset<Entry> {
        match self {
            Space::Grid(s) => s.view_entries(),
            Space::KdTree(s) => s.view_entries(),
            Space::RTree(s) => s.view_entries(),
            Space::Brute(s) => s.view_entries(),
        }
    }

    open spec fn query_limit(&self) -> int {
        match self {
            Space::Grid(s) => s.query_limit(),
            Space::KdTree(s) => s.query_limit(),
            Space::RTree(s) => s.query_limit(),
            Space::Brute(s) => s.query_limit(),
        }
    }

    open spec fn supports_insert(&self) -> bool {
        match self {
            Space::Grid(s) => s.supports_insert(),
            Space::KdTree(s) => s.supports_insert(),
            Space::RTree(s) => s.supports_insert(),
            Space::Brute(s) => s.supports_insert(),
        }
    }

    open spec fn bulk_replaces(&self) -> bool {
        match self {
            Space::Grid(s) => s.bulk_replaces(),
            Space::KdTree(s) => s.bulk_replaces(),
            Space::RTree(s) => s.bulk_replaces(),
            Space::Brute(s) => s.bulk_replaces(),
        }
    }

    proof fn wf_entries_bounded(&self) {
        match self {
            Space::Grid(s) => s.wf_entries_bounded(),
            Space::KdTree(s) => s.wf_entries_bounded(),
            Space::RTree(s) => s.wf_entries_bounded(),
            Space::Brute(s) => s.wf_entries_bounded(),
        }
    }

    fn get_nearby_ent(&self, origin: &Point3, perception: i64) -> (r: Vec<u64>) {
        match self {
            Space::Grid(s) => s.get_nearby_ent(origin, perception),
            Space::KdTree(s) => s.get_nearby_ent(origin, perception),
            Space::RTree(s) => s.get_nearby_ent(origin, perception),
            Space::Brute(s) => s.get_nearby_ent(origin, perception),
        }
    }

    fn insert(&mut self, ent: u64, position: &Point3) {
        match self {
            Space::Grid(s) => s.insert(ent, position),
            Space::KdTree(s) => s.insert(ent, position),
            Space::RTree(s) => s.insert(ent, position),
            Space::Brute(s) => s.insert(ent, position),
        }
    }

    fn bulk_insert(&mut self, bulk: Vec<(u64, Point3)>) {
        match self {
            Space::Grid(s) => s.bulk_insert(bulk),
            Space::KdTree(s) => s.bulk_insert(bulk),
            Space::RTree(s) => s.bulk_insert(bulk),
            Space::Brute(s) => s.bulk_insert(bulk),
        }
    }

    fn clear(&mut self) {
        match self {
            Space::Grid(s) => s.clear(),
            Space::KdTree(s) => s.clear(),
            Space::RTree(s) => s.clear(),
            Space::Brute(s) => s.clear(),
        }
    }
}

/// The process-wide resource holding the active spatial partition,
/// written once per tick by the refresh step and read by the queries of
/// that same tick.
pub struct SpatialRes {
    pub space: Space,
}

/// A spatial resource backed by the k-d tree scheme.
pub fn kdtree_resource() -> (r: SpatialRes)
    ensures
        r.space.wf(),
        r.space.view_entries() == Multiset::<Entry>::empty(),
        r.space.query_limit() == crate::point::RADIUS_LIMIT as int,
{
    SpatialRes { space: Space::KdTree(KdTreeSpace::new()) }
}

/// The per-tick refresh step: discard the previous snapshot and store
/// the current one. Queries of the same tick run after this and see
/// exactly `boids` — the refresh-then-query order is this two-step call
/// sequence, and the contract of each step pins what the next one sees.
pub fn spatial_hash_system(boids: Vec<(u64, Point3)>, res: &mut SpatialRes)
    requires
        old(res).space.wf(),
        bounded_batch(boids@),
    ensures
        final(res).space.wf(),
        final(res).space.query_limit() == old(res).space.query_limit(),
        final(res).space.view_entries() == seq_entries(boids@).to_multiset(),
{
    res.space.clear();
    proof {
        broadcast use vstd::seq_lib::group_to_multiset_ensures;

        if !res.space.bulk_replaces() {
            assert(Multiset::<Entry>::empty().add(seq_entries(boids@).to_multiset())
                =~= seq_entries(boids@).to_multiset());
        }
    }
    res.space.bulk_insert(boids);
}

/// The per-agent query step: each agent's neighbour list against the
/// snapshot the refresh step stored, under that agent's own perception
/// range. The list is exact, and includes the querying agent itself
/// whenever its own position is stored: excluding "self" is the
/// caller's responsibility, not the partition's.
pub fn perception_system(agents: &Vec<(u64, Point3, i64)>, res: &SpatialRes) -> (out: Vec<
    (u64, Vec<u64>),
>)
    requires
        res.space.wf(),
        forall|i: int|
            0 <= i < agents@.len() ==> bounded_pos((#[trigger] agents@[i]).1) && agents@[i].2
                <= res.space.query_limit(),
    ensures
        out@.len() == agents@.len(),
        forall|i: int|
            0 <= i < agents@.len() ==> (#[trigger] out@[i]).0 == agents@[i].0 && out@[i].1@.to_set()
                == nearby_handles(res.space.view_entries(), agents@[i].1, agents@[i].2 as int),
{
    let mut out: Vec<(u64, Vec<u64>)> = Vec::new();
    let n: usize = agents.len();
    let mut i: usize = 0;
    while i < n
        invariant
            n == agents@.len(),
            i <= n,
            res.space.wf(),
            forall|j: int|
                0 <= j < agents@.len() ==> bounded_pos((#[trigger] agents@[j]).1) && agents@[j].2
                    <= res.space.query_limit(),
            out@.len() == i,
            forall|j: int|
                0 <= j < i ==> (#[trigger] out@[j]).0 == agents@[j].0 && out@[j].1@.to_set()
                    == nearby_handles(res.space.view_entries(), agents@[j].1, agents@[j].2 as int),
        decreases n - i,
    {
        let (ent, pos, range) = agents[i];
        let list = res.space.get_nearby_ent(&pos, range);
        out.push((ent, list));
        i += 1;
    }
    out
}

/// Equivalence of the partition schemes: after identical rebuilds, the
/// exact answer every scheme's query is held to is the same set of
/// handles, for every origin and radius. Together with each scheme's
/// query contract this says the four return equal sets — the grid
/// provided its cell size admits the radius, which is its query cap.
pub proof fn lemma_partitions_agree(
    grid: IndexPartition,
    kd: KdTreeSpace,
    rt: RTreeStorage,
    brute: BrutePartition,
    s: Seq<(u64, Point3)>,
    origin: Point3,
    r: int,
)
    requires
        grid.view_entries() == seq_entries(s).to_multiset(),
        kd.view_entries() == seq_entries(s).to_multiset(),
        rt.view_entries() == seq_entries(s).to_multiset(),
        brute.view_entries() == seq_entries(s).to_multiset(),
    ensures
        nearby_handles(grid.view_entries(), origin, r) == nearby_handles(
            kd.view_entries(),
            origin,
            r,
        ),
        nearby_handles(kd.view_entries(), origin, r) == nearby_handles(
            rt.view_entries(),
            origin,
            r,
        ),
        nearby_handles(rt.view_entries(), origin, r) == nearby_handles(
            brute.view_entries(),
            origin,
            r,
        ),
{
}

/// Rebuilding is idempotent: two partitions of one scheme rebuilt from
/// the same snapshot are held to the same exact answer on every query.
pub proof fn lemma_rebuild_idempotent<I: SpatialPartition>(
    a: I,
    b: I,
    s: Seq<(u64, Point3)>,
    origin: Point3,
    r: int,
)
    requires
        a.view_entries() == seq_entries(s).to_multiset(),
        b.view_entries() == seq_entries(s).to_multiset(),
    ensures
        nearby_handles(a.view_entries(), origin, r) == nearby_handles(b.view_entries(), origin, r),
{
}

/// Empty-partition safety: a query against an empty snapshot returns
/// the empty sequence, whatever the radius — there is nothing a handle
/// in the answer could come from.
pub proof fn lemma_empty_index_query(out: Seq<u64>, origin: Point3, r: int)
    requires
        out.to_set() == nearby_handles(Multiset::<Entry>::empty(), origin, r),
    ensures
        out =~= Seq::<u64>::empty(),
{
    if out.len() > 0 {
        assert(out.to_set().contains(out[0]));
        let e = choose|e: Entry|
            #[trigger] Multiset::<Entry>::empty().count(e) > 0 && e.0 == out[0] && entry_within(
                e,
                origin,
                r,
            );
        assert(false);
    }
}

/// Self-exclusion is the caller's responsibility: a stored entry is in
/// the answer of a query placed exactly at its own position, for every
/// radius of at least zero — the partition never drops "self".
pub proof fn lemma_self_inclusion(m: Multiset<Entry>, h: u64, pos: Point3, r: int)
    requires
        m.count(entry_of(h, pos)) > 0,
        0 <= r,
    ensures
        nearby_handles(m, pos, r).contains(h),
{
    crate::point::lemma_sq_nonneg(r);
    assert(entry_dist2(entry_of(h, pos), pos) == 0);
    assert(entry_within(entry_of(h, pos), pos, r));
}

/// Boundary inclusivity: an entry at exactly distance `r` from the
/// origin is in the answer — the distance comparison is non-strict.
pub proof fn lemma_boundary_inclusive(m: Multiset<Entry>, e: Entry, origin: Point3, r: int)
    requires
        m.count(e) > 0,
        0 <= r,
        entry_dist2(e, origin) == sq(r),
    ensures
        nearby_handles(m, origin, r).contains(e.0),
{
}


} // verus!

