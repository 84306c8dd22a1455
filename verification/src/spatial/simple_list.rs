//! Brute-force partition: a flat list scanned linearly per query. The
//! correctness baseline the structured schemes are held to.

use crate::point::Point3;
use crate::point::bounded_pos;
use crate::spatial::Entry;
use crate::spatial::SpatialPartition;
use crate::spatial::bounded_batch;
use crate::spatial::entry_of;
use crate::spatial::entry_within;
use crate::spatial::nearby_handles;
use crate::spatial::pair_found;
use crate::spatial::pairs_nearby;
use crate::spatial::seq_entries;
use vstd::multiset::Multiset;
use vstd::prelude::*;
use vstd::seq_lib::group_to_multiset_ensures;

verus! {

/// A flat snapshot of (handle, position) pairs.
pub struct BrutePartition {
    entities: Vec<(u64, Point3)>,
}

impl BrutePartition {
    pub fn new() -> (s: BrutePartition)
        ensures
            s.wf(),
            s.view_entries() == Multiset::<Entry>::empty(),
            s.query_limit() == i64::MAX as int,
            s.supports_insert(),
            !s.bulk_replaces(),
    {
        let s = BrutePartition { entities: Vec::new() };
        proof {
            broadcast use group_to_multiset_ensures;

            assert(seq_entries(s.entities@) =~= Seq::<Entry>::empty());
            assert(seq_entries(s.entities@).to_multiset() =~= Multiset::<Entry>::empty());
        }
        s
    }
}

impl SpatialPartition for BrutePartition {
    closed spec fn wf(&self) -> bool {
        bounded_batch(self.entities@)
    }

    closed spec fn view_entries(&self) -> Multiset<Entry> {
        seq_entries(self.entities@).to_multiset()
    }

    closed spec fn query_limit(&self) -> int {
        i64::MAX as int
    }

    closed spec fn supports_insert(&self) -> bool {
        true
    }

    closed spec fn bulk_replaces(&self) -> bool {
        false
    }

    proof fn wf_entries_bounded(&self) {
        broadcast use group_to_multiset_ensures;

        assert forall|e: Entry| self.view_entries().count(e) > 0 implies crate::spatial::bounded_entry(e) by {
            let s = seq_entries(self.entities@);
            assert(s.contains(e));
            let j = choose|j: int| 0 <= j < s.len() && s[j] == e;
            assert(bounded_pos(self.entities@[j].1));
        }
    }

    fn get_nearby_ent(&self, origin: &Point3, perception: i64) -> (r: Vec<u64>) {
        let list = crate::spatial::narrow_phase(&self.entities, origin, perception);
        proof {
            broadcast use group_to_multiset_ensures;

            let cs = self.entities@;
            let s = seq_entries(cs);
            let m = self.view_entries();
            let p = perception as int;
            assert forall|h: u64| pairs_nearby(cs, *origin, p).contains(h) implies nearby_handles(
                m,
                *origin,
                p,
            ).contains(h) by {
                let j = choose|j: int|
                    0 <= j < cs.len() && (#[trigger] cs[j]).0 == h && entry_within(
                        entry_of(cs[j].0, cs[j].1),
                        *origin,
                        p,
                    );
                assert(s.contains(s[j]));
                assert(m.count(s[j]) > 0);
            }
            assert forall|h: u64| nearby_handles(m, *origin, p).contains(h) implies pairs_nearby(
                cs,
                *origin,
                p,
            ).contains(h) by {
                let e = choose|e: Entry|
                    #[trigger] m.count(e) > 0 && e.0 == h && entry_within(e, *origin, p);
                assert(s.contains(e));
                let j = choose|j: int| 0 <= j < s.len() && s[j] == e;
                assert(pair_found(cs, cs.len() as int, *origin, p, h));
            }
            assert(pairs_nearby(cs, *origin, p) =~= nearby_handles(m, *origin, p));
        }
        list
    }

    fn insert(&mut self, ent: u64, position: &Point3) {
        self.entities.push((ent, *position));
        proof {
            broadcast use group_to_multiset_ensures;

            let before = seq_entries(old(self).entities@);
            let after = seq_entries(self.entities@);
            assert(after =~= before.push(entry_of(ent, *position)));
        }
    }

    fn bulk_insert(&mut self, bulk: Vec<(u64, Point3)>) {
        let ghost prior = self.entities@;
        let n: usize = bulk.len();
        let mut i: usize = 0;
        while i < n
            invariant
                n == bulk@.len(),
                i <= n,
                bounded_batch(bulk@),
                bounded_batch(prior),
                self.entities@ == prior + bulk@.take(i as int),
            decreases n - i,
        {
            let (ent, pos) = bulk[i];
            self.entities.push((ent, pos));
            proof {
                assert(prior + bulk@.take(i as int) + seq![bulk@[i as int]] =~= prior + bulk@.take(
                    i as int + 1,
                ));
            }
            i += 1;
        }
        proof {
            broadcast use group_to_multiset_ensures;

            assert(bulk@.take(n as int) =~= bulk@);
            assert(seq_entries(prior + bulk@) =~= seq_entries(prior) + seq_entries(bulk@));
            seq_entries(prior).to_multiset_ensures();
            seq_entries(bulk@).to_multiset_ensures();
            vstd::seq_lib::lemma_multiset_commutative(seq_entries(prior), seq_entries(bulk@));
        }
    }

    fn clear(&mut self) {
        self.entities.clear();
        proof {
            broadcast use group_to_multiset_ensures;

            assert(seq_entries(self.entities@) =~= Seq::<Entry>::empty());
            assert(seq_entries(self.entities@).to_multiset() =~= Multiset::<Entry>::empty());
        }
    }
}

} // verus!
