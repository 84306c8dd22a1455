//! Uniform cell-hash partition: entries are bucketed by the cell key
//! `floor(position / cell_size)`, a query gathers the buckets of the
//! twenty-seven cells around the origin's cell and then filters the
//! candidates by exact distance.
//!
//! The gathered neighbourhood covers a ball of radius `cell_size`, so a
//! query is exact only up to that radius: the per-query radius cap of
//! this scheme is its cell size, and a configuration must choose the
//! cell size at least as large as the largest radius it will query.

use crate::point::Point3;
use crate::point::bounded_pos;
use crate::point::div_floor;
use crate::point::lemma_axis_bound;
use crate::point::lemma_sq_nonneg;
use crate::point::sq;
use crate::spatial::Entry;
use crate::spatial::SpatialPartition;
use crate::spatial::bounded_batch;
use crate::spatial::bounded_entry;
use crate::spatial::entry_of;
use crate::spatial::entry_within;
use crate::spatial::nearby_handles;
use crate::spatial::pair_found;
use crate::spatial::pairs_nearby;
use crate::spatial::seq_entries;
use vstd::arithmetic::div_mod::lemma_div_is_ordered;
use vstd::arithmetic::div_mod::lemma_div_minus_one;
use vstd::arithmetic::div_mod::lemma_div_plus_one;
use vstd::multiset::Multiset;
use vstd::prelude::*;
use vstd::seq_lib::group_to_multiset_ensures;

verus! {

/// Rejected grid configuration: the cell size must be positive.
#[derive(Clone, Copy, PartialEq, Eq, Structural, Debug)]
pub enum ConfigError {
    CellSizeNotPositive,
}

/// One bucket: a cell key and the entries stored in that cell.
type Bucket = (Point3, Vec<(u64, Point3)>);

/// The key component of coordinate `c` for cell size `cs`: the
/// mathematical floor of `c / cs` (ghost division by a positive divisor
/// rounds toward negative infinity).
pub open spec fn cell_coord(c: int, cs: int) -> int {
    c / cs
}

/// `k` is the cell key of position `p` under cell size `cs`.
pub open spec fn key_matches(k: Point3, p: Point3, cs: int) -> bool {
    &&& k.x == cell_coord(p.x as int, cs)
    &&& k.y == cell_coord(p.y as int, cs)
    &&& k.z == cell_coord(p.z as int, cs)
}

/// `t == k + o` componentwise.
pub open spec fn shifted_key(t: Point3, k: Point3, o: Point3) -> bool {
    t.x == k.x + o.x && t.y == k.y + o.y && t.z == k.z + o.z
}

/// The offset list holds an offset with components (dx, dy, dz).
spec fn has_offset(offs: Seq<Point3>, dx: int, dy: int, dz: int) -> bool {
    exists|i: int|
        0 <= i < offs.len() && (#[trigger] offs[i]).x == dx && offs[i].y == dy && offs[i].z == dz
}

/// Everything the buckets of `m` hold, as one multiset.
pub open spec fn grid_view(m: Seq<Bucket>) -> Multiset<Entry>
    decreases m.len(),
{
    if m.len() == 0 {
        Multiset::<Entry>::empty()
    } else {
        grid_view(m.drop_last()).add(seq_entries(m.last().1@).to_multiset())
    }
}

/// The pair at bucket coordinates (bi, bj).
spec fn bucket_pair(m: Seq<Bucket>, bi: int, bj: int) -> (u64, Point3) {
    m[bi].1@[bj]
}

/// Valid bucket coordinates.
spec fn in_buckets(m: Seq<Bucket>, bi: int, bj: int) -> bool {
    0 <= bi < m.len() && 0 <= bj < m[bi].1@.len()
}

/// `p` sits in some bucket of `m`.
spec fn in_grid(m: Seq<Bucket>, p: (u64, Point3)) -> bool {
    exists|bi: int, bj: int| in_buckets(m, bi, bj) && #[trigger] bucket_pair(m, bi, bj) == p
}

/// Every entry bucketed at cell `k + off` is among the candidates `c`.
spec fn collected(m: Seq<Bucket>, k: Point3, off: Point3, c: Seq<(u64, Point3)>) -> bool {
    forall|bi: int, bj: int|
        in_buckets(m, bi, bj) && shifted_key(m[bi].0, k, off) ==> c.contains(
            #[trigger] bucket_pair(m, bi, bj),
        )
}

/// Coordinates at most `cs` apart fall in the same or an adjacent cell.
proof fn lemma_cell_adjacent(a: int, b: int, cs: int)
    requires
        1 <= cs,
        -cs <= a - b <= cs,
    ensures
        cell_coord(b, cs) - 1 <= cell_coord(a, cs) <= cell_coord(b, cs) + 1,
{
    lemma_div_is_ordered(a, b + cs, cs);
    lemma_div_plus_one(b, cs);
    lemma_div_is_ordered(b - cs, a, cs);
    lemma_div_minus_one(b, cs);
}

/// Every bucket element is counted by `grid_view`.
proof fn lemma_grid_view_contains(m: Seq<Bucket>, bi: int, bj: int)
    requires
        in_buckets(m, bi, bj),
    ensures
        grid_view(m).count(entry_of(bucket_pair(m, bi, bj).0, bucket_pair(m, bi, bj).1)) > 0,
    decreases m.len(),
{
    broadcast use group_to_multiset_ensures;

    let e = entry_of(bucket_pair(m, bi, bj).0, bucket_pair(m, bi, bj).1);
    if bi == m.len() - 1 {
        let s = seq_entries(m.last().1@);
        assert(s[bj] == e);
        assert(s.contains(e));
        assert(s.to_multiset().count(e) > 0);
    } else {
        lemma_grid_view_contains(m.drop_last(), bi, bj);
    }
}

/// Everything `grid_view` counts sits in some bucket.
proof fn lemma_grid_view_locate(m: Seq<Bucket>, e: Entry)
    requires
        grid_view(m).count(e) > 0,
    ensures
        exists|bi: int, bj: int|
            in_buckets(m, bi, bj) && entry_of(
                #[trigger] bucket_pair(m, bi, bj).0,
                bucket_pair(m, bi, bj).1,
            ) == e,
    decreases m.len(),
{
    broadcast use group_to_multiset_ensures;

    if m.len() == 0 {
    } else {
        let s = seq_entries(m.last().1@);
        if s.to_multiset().count(e) > 0 {
            assert(s.contains(e));
            let bj = choose|bj: int| 0 <= bj < s.len() && s[bj] == e;
            let bi = m.len() - 1;
            assert(in_buckets(m, bi, bj) && entry_of(
                bucket_pair(m, bi, bj).0,
                bucket_pair(m, bi, bj).1,
            ) == e);
        } else {
            lemma_grid_view_locate(m.drop_last(), e);
            let (bi, bj) = choose|bi: int, bj: int|
                in_buckets(m.drop_last(), bi, bj) && entry_of(
                    #[trigger] bucket_pair(m.drop_last(), bi, bj).0,
                    bucket_pair(m.drop_last(), bi, bj).1,
                ) == e;
            assert(in_buckets(m, bi, bj) && entry_of(
                bucket_pair(m, bi, bj).0,
                bucket_pair(m, bi, bj).1,
            ) == e);
        }
    }
}

/// Pushing one pair onto bucket `bi` adds exactly that entry to the view.
proof fn lemma_grid_view_push_bucket(m: Seq<Bucket>, m2: Seq<Bucket>, bi: int, p: (u64, Point3))
    requires
        0 <= bi < m.len(),
        m2.len() == m.len(),
        forall|i: int| 0 <= i < m.len() && i != bi ==> m2[i] == m[i],
        m2[bi].0 == m[bi].0,
        m2[bi].1@ == m[bi].1@.push(p),
    ensures
        grid_view(m2) == grid_view(m).insert(entry_of(p.0, p.1)),
    decreases m.len(),
{
    broadcast use group_to_multiset_ensures;

    let e = entry_of(p.0, p.1);
    if bi == m.len() - 1 {
        assert(m2.drop_last() =~= m.drop_last());
        let s = seq_entries(m.last().1@);
        let s2 = seq_entries(m2.last().1@);
        assert(s2 =~= s.push(e));
        assert(s2.to_multiset() =~= s.to_multiset().insert(e));
        assert(grid_view(m2) =~= grid_view(m).insert(e));
    } else {
        lemma_grid_view_push_bucket(m.drop_last(), m2.drop_last(), bi, p);
        assert(m2.last() == m.last());
        assert(grid_view(m2) =~= grid_view(m).insert(e));
    }
}

/// Uniform cell-hash partition over integer positions.
pub struct IndexPartition {
    map: Vec<Bucket>,
    list_offsets: Vec<Point3>,
    cell_size: i64,
}

impl IndexPartition {
    /// The cell neighbourhood a query walks: all offsets in {-1,0,1}^3.
    spec fn offsets_ok(&self) -> bool {
        &&& forall|i: int|
            0 <= i < self.list_offsets@.len() ==> -1 <= (#[trigger] self.list_offsets@[i]).x <= 1
                && -1 <= self.list_offsets@[i].y <= 1 && -1 <= self.list_offsets@[i].z <= 1
        &&& forall|dx: int, dy: int, dz: int|
            -1 <= dx <= 1 && -1 <= dy <= 1 && -1 <= dz <= 1 ==> #[trigger] has_offset(
                self.list_offsets@,
                dx,
                dy,
                dz,
            )
    }

    spec fn buckets_ok(&self) -> bool {
        &&& forall|bi: int, bj: int|
            in_buckets(self.map@, bi, bj) ==> bounded_pos(#[trigger] bucket_pair(self.map@, bi, bj).1)
                && key_matches(
                self.map@[bi].0,
                bucket_pair(self.map@, bi, bj).1,
                self.cell_size as int,
            )
        &&& forall|i1: int, i2: int|
            0 <= i1 < i2 < self.map@.len() ==> (#[trigger] self.map@[i1]).0 != (
            #[trigger] self.map@[i2]).0
    }

    /// Build a grid with the given cell size, rejecting a size that is
    /// not positive. The per-query radius cap of the result is the cell
    /// size itself: the walked neighbourhood covers no larger ball.
    pub fn new(cell_size: i64) -> (r: Result<IndexPartition, ConfigError>)
        ensures
            cell_size >= 1 <==> r is Ok,
            cell_size < 1 <==> r == Result::<IndexPartition, ConfigError>::Err(
                ConfigError::CellSizeNotPositive,
            ),
            r matches Ok(s) ==> s.wf() && s.view_entries() == Multiset::<Entry>::empty()
                && s.query_limit() == cell_size as int && s.supports_insert()
                && !s.bulk_replaces(),
    {
        if cell_size < 1 {
            return Err(ConfigError::CellSizeNotPositive);
        }
        let mut offs: Vec<Point3> = Vec::new();
        let mut d: usize = 0;
        while d < 27
            invariant
                offs@.len() == d,
                d <= 27,
                forall|i: int|
                    0 <= i < d ==> (#[trigger] offs@[i]).x == i / 9 - 1 && offs@[i].y == (i % 9)
                        / 3 - 1 && offs@[i].z == i % 3 - 1,
            decreases 27 - d,
        {
            let dx: i64 = (d / 9) as i64 - 1;
            let dy: i64 = ((d % 9) / 3) as i64 - 1;
            let dz: i64 = (d % 3) as i64 - 1;
            offs.push(Point3 { x: dx, y: dy, z: dz });
            d += 1;
        }
        let s = IndexPartition { map: Vec::new(), list_offsets: offs, cell_size };
        proof {
            assert forall|dx: int, dy: int, dz: int|
                -1 <= dx <= 1 && -1 <= dy <= 1 && -1 <= dz <= 1 implies #[trigger] has_offset(
                s.list_offsets@,
                dx,
                dy,
                dz,
            ) by {
                let i: int = (dx + 1) * 9 + (dy + 1) * 3 + (dz + 1);
                assert(0 <= i < 27);
                let r9: int = (dy + 1) * 3 + (dz + 1);
                vstd::arithmetic::div_mod::lemma_fundamental_div_mod_converse(i, 9, dx + 1, r9);
                vstd::arithmetic::div_mod::lemma_fundamental_div_mod_converse(r9, 3, dy + 1, dz + 1);
                vstd::arithmetic::div_mod::lemma_fundamental_div_mod_converse(
                    i,
                    3,
                    3 * (dx + 1) + (dy + 1),
                    dz + 1,
                );
                assert(i / 9 - 1 == dx && (i % 9) / 3 - 1 == dy && i % 3 - 1 == dz);
                assert((s.list_offsets@[i]).x == dx && s.list_offsets@[i].y == dy
                    && s.list_offsets@[i].z == dz);
            }
            assert(grid_view(s.map@) =~= Multiset::<Entry>::empty());
        }
        Ok(s)
    }

    /// The cell key of a position: the componentwise floor of the
    /// position divided by the cell size.
    pub fn global_to_map_loc(&self, global: &Point3) -> (k: Point3)
        requires
            self.wf(),
            bounded_pos(*global),
        ensures
            key_matches(k, *global, self.query_limit()),
            bounded_pos(k),
    {
        Point3 {
            x: div_floor(global.x, self.cell_size),
            y: div_floor(global.y, self.cell_size),
            z: div_floor(global.z, self.cell_size),
        }
    }

    /// The index of the bucket keyed `key`, if that bucket exists.
    fn find_bucket(&self, key: &Point3) -> (r: Option<usize>)
        ensures
            match r {
                Some(i) => i < self.map@.len() && self.map@[i as int].0 == *key,
                None => forall|i: int| 0 <= i < self.map@.len() ==> (#[trigger] self.map@[i]).0 != *key,
            },
    {
        let n: usize = self.map.len();
        let mut i: usize = 0;
        while i < n
            invariant
                n == self.map@.len(),
                i <= n,
                forall|j: int| 0 <= j < i ==> (#[trigger] self.map@[j]).0 != *key,
            decreases n - i,
        {
            if self.map[i].0 == *key {
                return Some(i);
            }
            i += 1;
        }
        None
    }
}

impl SpatialPartition for IndexPartition {
    closed spec fn wf(&self) -> bool {
        &&& self.cell_size >= 1
        &&& self.offsets_ok()
        &&& self.buckets_ok()
    }

    closed spec fn view_entries(&self) -> Multiset<Entry> {
        grid_view(self.map@)
    }

    closed spec fn query_limit(&self) -> int {
        self.cell_size as int
    }

    closed spec fn supports_insert(&self) -> bool {
        true
    }

    closed spec fn bulk_replaces(&self) -> bool {
        false
    }

    proof fn wf_entries_bounded(&self) {
        assert forall|e: Entry| self.view_entries().count(e) > 0 implies bounded_entry(e) by {
            lemma_grid_view_locate(self.map@, e);
        }
    }

    fn get_nearby_ent(&self, origin: &Point3, perception: i64) -> (r: Vec<u64>) {
        let key = self.global_to_map_loc(origin);
        let mut cands: Vec<(u64, Point3)> = Vec::new();
        let no: usize = self.list_offsets.len();
        let mut oi: usize = 0;
        while oi < no
            invariant
                self.wf(),
                bounded_pos(*origin),
                no == self.list_offsets@.len(),
                oi <= no,
                key_matches(key, *origin, self.cell_size as int),
                bounded_pos(key),
                forall|k: int| 0 <= k < cands@.len() ==> in_grid(self.map@, #[trigger] cands@[k]),
                forall|t: int|
                    0 <= t < oi ==> collected(
                        self.map@,
                        key,
                        #[trigger] self.list_offsets@[t],
                        cands@,
                    ),
            decreases no - oi,
        {
            let off = self.list_offsets[oi];
            let tk = Point3 { x: key.x + off.x, y: key.y + off.y, z: key.z + off.z };
            let ghost cands0 = cands@;
            let found = self.find_bucket(&tk);
            match found {
                Some(bi) => {
                    let nb: usize = self.map[bi].1.len();
                    let mut bj: usize = 0;
                    while bj < nb
                        invariant
                            bi < self.map@.len(),
                            nb == self.map@[bi as int].1@.len(),
                            bj <= nb,
                            cands@ == cands0 + self.map@[bi as int].1@.take(bj as int),
                        decreases nb - bj,
                    {
                        let p = self.map[bi].1[bj];
                        cands.push(p);
                        proof {
                            assert(cands0 + self.map@[bi as int].1@.take(bj as int) + seq![
                                self.map@[bi as int].1@[bj as int],
                            ] =~= cands0 + self.map@[bi as int].1@.take(bj as int + 1));
                        }
                        bj += 1;
                    }
                    proof {
                        assert(self.map@[bi as int].1@.take(nb as int) =~= self.map@[bi as int].1@);
                    }
                }
                None => {},
            }
            proof {
                let m = self.map@;
                assert forall|k: int| 0 <= k < cands@.len() implies in_grid(
                    m,
                    #[trigger] cands@[k],
                ) by {
                    if k < cands0.len() {
                        assert(cands@[k] == cands0[k]);
                    } else {
                        let bi = found->Some_0 as int;
                        let bj = k - cands0.len();
                        assert(bucket_pair(m, bi, bj) == cands@[k]);
                    }
                }
                assert forall|t: int| 0 <= t < oi + 1 implies collected(
                    m,
                    key,
                    #[trigger] self.list_offsets@[t],
                    cands@,
                ) by {
                    if t < oi {
                        assert(collected(m, key, self.list_offsets@[t], cands0));
                        assert forall|bi: int, bj: int|
                            in_buckets(m, bi, bj) && shifted_key(
                                m[bi].0,
                                key,
                                self.list_offsets@[t],
                            ) implies cands@.contains(#[trigger] bucket_pair(m, bi, bj)) by {
                            assert(cands0.contains(bucket_pair(m, bi, bj)));
                            let k = choose|k: int|
                                0 <= k < cands0.len() && cands0[k] == bucket_pair(m, bi, bj);
                            assert(cands@[k] == bucket_pair(m, bi, bj));
                        }
                    } else {
                        let offt = self.list_offsets@[t];
                        assert forall|bi: int, bj: int|
                            in_buckets(m, bi, bj) && shifted_key(m[bi].0, key, offt)
                            implies cands@.contains(#[trigger] bucket_pair(m, bi, bj)) by {
                            assert(m[bi].0 == tk);
                            let fi = found->Some_0 as int;
                            if found is Some {
                                assert(bi == fi || m[bi].0 != m[fi].0);
                                assert(bi == fi);
                                assert(cands@[cands0.len() + bj] == bucket_pair(m, bi, bj));
                            } else {
                                assert(m[bi].0 != tk);
                            }
                        }
                    }
                }
            }
            oi += 1;
        }
        // Exact-distance narrow phase over the gathered candidates.
        let ghost m = self.map@;
        let ghost cs = cands@;
        proof {
            assert forall|j: int| 0 <= j < cs.len() implies bounded_pos((#[trigger] cs[j]).1) by {
                let (bi, bj) = choose|bi: int, bj: int|
                    in_buckets(m, bi, bj) && #[trigger] bucket_pair(m, bi, bj) == cs[j];
            }
        }
        let list = crate::spatial::narrow_phase(&cands, origin, perception);
        proof {
            let view = self.view_entries();
            let p = perception as int;
            assert forall|h: u64| pairs_nearby(cs, *origin, p).contains(h) implies nearby_handles(
                view,
                *origin,
                p,
            ).contains(h) by {
                let j = choose|j: int|
                    0 <= j < cs.len() && (#[trigger] cs[j]).0 == h && entry_within(
                        entry_of(cs[j].0, cs[j].1),
                        *origin,
                        p,
                    );
                let (bi, bj) = choose|bi: int, bj: int|
                    in_buckets(m, bi, bj) && #[trigger] bucket_pair(m, bi, bj) == cs[j];
                lemma_grid_view_contains(m, bi, bj);
                assert(view.count(entry_of(cs[j].0, cs[j].1)) > 0);
            }
            assert forall|h: u64| nearby_handles(view, *origin, p).contains(h)
                implies pairs_nearby(cs, *origin, p).contains(h) by {
                let e = choose|e: Entry|
                    #[trigger] view.count(e) > 0 && e.0 == h && entry_within(e, *origin, p);
                lemma_grid_view_locate(m, e);
                let (bi, bj) = choose|bi: int, bj: int|
                    in_buckets(m, bi, bj) && entry_of(
                        #[trigger] bucket_pair(m, bi, bj).0,
                        bucket_pair(m, bi, bj).1,
                    ) == e;
                let pair = bucket_pair(m, bi, bj);
                let csz = self.cell_size as int;
                let bk = m[bi].0;
                assert(key_matches(bk, pair.1, csz));
                assert(bounded_pos(pair.1));
                // Componentwise: the entry is at most `perception` away on
                // each axis, hence at most one cell away on each axis.
                lemma_sq_nonneg(pair.1.x - origin.x);
                lemma_sq_nonneg(pair.1.y - origin.y);
                lemma_sq_nonneg(pair.1.z - origin.z);
                lemma_axis_bound(
                    pair.1.x - origin.x,
                    sq(pair.1.y - origin.y) + sq(pair.1.z - origin.z),
                    p,
                );
                lemma_axis_bound(
                    pair.1.y - origin.y,
                    sq(pair.1.x - origin.x) + sq(pair.1.z - origin.z),
                    p,
                );
                lemma_axis_bound(
                    pair.1.z - origin.z,
                    sq(pair.1.x - origin.x) + sq(pair.1.y - origin.y),
                    p,
                );
                lemma_cell_adjacent(pair.1.x as int, origin.x as int, csz);
                lemma_cell_adjacent(pair.1.y as int, origin.y as int, csz);
                lemma_cell_adjacent(pair.1.z as int, origin.z as int, csz);
                let dx: int = bk.x - key.x;
                let dy: int = bk.y - key.y;
                let dz: int = bk.z - key.z;
                assert(-1 <= dx <= 1 && -1 <= dy <= 1 && -1 <= dz <= 1);
                assert(has_offset(self.list_offsets@, dx, dy, dz));
                let t = choose|t: int|
                    0 <= t < self.list_offsets@.len() && (#[trigger] self.list_offsets@[t]).x == dx
                        && self.list_offsets@[t].y == dy && self.list_offsets@[t].z == dz;
                assert(shifted_key(m[bi].0, key, self.list_offsets@[t]));
                assert(collected(m, key, self.list_offsets@[t], cs));
                assert(cs.contains(pair));
                let j = choose|j: int| 0 <= j < cs.len() && cs[j] == pair;
                assert(pair_found(cs, cs.len() as int, *origin, p, h));
            }
            assert(pairs_nearby(cs, *origin, p) =~= nearby_handles(view, *origin, p));
        }
        list
    }

    fn insert(&mut self, ent: u64, position: &Point3) {
        let key = self.global_to_map_loc(position);
        let pair = (ent, *position);
        let ghost m0 = self.map@;
        let found = self.find_bucket(&key);
        match found {
            Some(i) => {
                self.map[i].1.push(pair);
                proof {
                    lemma_grid_view_push_bucket(m0, self.map@, i as int, pair);
                    assert forall|bi: int, bj: int| in_buckets(self.map@, bi, bj) implies bounded_pos(
                        #[trigger] bucket_pair(self.map@, bi, bj).1,
                    ) && key_matches(
                        self.map@[bi].0,
                        bucket_pair(self.map@, bi, bj).1,
                        self.cell_size as int,
                    ) by {
                        if bi == i as int && bj == self.map@[bi].1@.len() - 1 {
                            assert(bucket_pair(self.map@, bi, bj) == pair);
                        } else {
                            assert(in_buckets(m0, bi, bj));
                            assert(bucket_pair(self.map@, bi, bj) == bucket_pair(m0, bi, bj));
                        }
                    }
                }
            },
            None => {
                let mut b: Vec<(u64, Point3)> = Vec::new();
                b.push(pair);
                self.map.push((key, b));
                proof {
                    broadcast use group_to_multiset_ensures;

                    let e = entry_of(ent, *position);
                    assert(self.map@.drop_last() =~= m0);
                    let s = seq_entries(self.map@.last().1@);
                    assert(s =~= Seq::<Entry>::empty().push(e));
                    assert(s.to_multiset() =~= Multiset::<Entry>::empty().insert(e));
                    assert(grid_view(self.map@) =~= grid_view(m0).insert(e));
                    assert forall|bi: int, bj: int| in_buckets(self.map@, bi, bj) implies bounded_pos(
                        #[trigger] bucket_pair(self.map@, bi, bj).1,
                    ) && key_matches(
                        self.map@[bi].0,
                        bucket_pair(self.map@, bi, bj).1,
                        self.cell_size as int,
                    ) by {
                        if bi == self.map@.len() - 1 {
                            assert(bucket_pair(self.map@, bi, bj) == pair);
                        } else {
                            assert(in_buckets(m0, bi, bj));
                            assert(bucket_pair(self.map@, bi, bj) == bucket_pair(m0, bi, bj));
                        }
                    }
                }
            },
        }
    }

    fn bulk_insert(&mut self, bulk: Vec<(u64, Point3)>) {
        let ghost v0 = self.view_entries();
        let ghost cs0 = self.cell_size;
        let n: usize = bulk.len();
        let mut i: usize = 0;
        proof {
            broadcast use group_to_multiset_ensures;

            assert(seq_entries(bulk@.take(0)) =~= Seq::<Entry>::empty());
            assert(self.view_entries() =~= v0.add(seq_entries(bulk@.take(0)).to_multiset()));
        }
        while i < n
            invariant
                self.wf(),
                n == bulk@.len(),
                i <= n,
                bounded_batch(bulk@),
                self.cell_size == cs0,
                self.view_entries() == v0.add(seq_entries(bulk@.take(i as int)).to_multiset()),
            decreases n - i,
        {
            let (ent, pos) = bulk[i];
            self.insert(ent, &pos);
            proof {
                broadcast use group_to_multiset_ensures;

                let before = seq_entries(bulk@.take(i as int));
                let after = seq_entries(bulk@.take(i as int + 1));
                assert(after =~= before.push(entry_of(ent, pos)));
                assert(after.to_multiset() =~= before.to_multiset().insert(entry_of(ent, pos)));
                assert(v0.add(after.to_multiset()) =~= v0.add(before.to_multiset()).insert(
                    entry_of(ent, pos),
                ));
            }
            i += 1;
        }
        proof {
            assert(bulk@.take(n as int) =~= bulk@);
        }
    }

    fn clear(&mut self) {
        self.map.clear();
        proof {
            assert(grid_view(self.map@) =~= Multiset::<Entry>::empty());
        }
    }
}

} // verus!
