//! The registry: interning of call sites and the counters of each id.
use crate::callable::{Callable, CallableStats, CallableView, SampleType};
use crate::model::{RegistryView, Row};
use std::collections::HashMap;
use vstd::prelude::*;

verus! {

/// Interns call sites and counts their samples.
///
/// `callable_to_id` holds the call sites in the order in which they were
/// first seen: the one at position `i` has id `i + 1`.
pub struct CallableRegistry {
    id_counter: u64,
    callable_to_id: Vec<Callable>,
    callable_stats: HashMap<u64, CallableStats>,
}

impl View for CallableRegistry {
    type V = RegistryView;

    closed spec fn view(&self) -> RegistryView {
        RegistryView {
            ids: Map::new(
                |c: CallableView| self.sites().contains(c),
                |c: CallableView| (self.sites().index_of(c) + 1) as nat,
            ),
            stats: Map::new(
                |id: nat| id <= u64::MAX && self.callable_stats@.contains_key(id as u64),
                |id: nat| self.callable_stats@[id as u64]@,
            ),
            id_counter: self.id_counter as nat,
        }
    }
}

impl CallableRegistry {
    /// The interned call sites, first seen first.
    pub closed spec fn sites(&self) -> Seq<CallableView> {
        self.callable_to_id@.map_values(|c: Callable| c@)
    }

    /// No call site is held twice, and the counter is the number of call
    /// sites held.
    pub closed spec fn sites_wf(&self) -> bool {
        &&& self.sites().no_duplicates()
        &&& self.id_counter == self.callable_to_id@.len()
    }

    /// The invariant of the registry between two operations: the
    /// representation is in order, and what it stands for is a well-formed
    /// registry.
    pub open spec fn wf(&self) -> bool {
        &&& self.sites_wf()
        &&& self@.wf()
    }

    /// What the representation says of the interning table: the call site at
    /// position `i` is interned with id `i + 1`, and no other call site is.
    proof fn lemma_ids(&self)
        requires
            self.sites_wf(),
        ensures
            self@.interning_wf(),
            forall|i: int|
                0 <= i < self.sites().len() ==> self@.ids.contains_key(#[trigger] self.sites()[i])
                    && self@.ids[self.sites()[i]] == i + 1,
            forall|c: CallableView| #[trigger]
                self@.ids.contains_key(c) <==> self.sites().contains(c),
    {
        let s = self.sites();
        let v = self@;
        assert(v.ids.dom() =~= s.to_set());
        s.unique_seq_to_set();
        assert forall|i: int| 0 <= i < s.len() implies v.ids.contains_key(#[trigger] s[i])
            && v.ids[s[i]] == i + 1 by {
            assert(s.contains(s[i]));
        }
        assert forall|id: nat| 1 <= id <= v.id_counter implies v.ids.contains_key(
            #[trigger] v.site_of(id),
        ) && v.ids[v.site_of(id)] == id by {
            let c = s[id - 1];
            assert(v.ids.contains_key(c) && v.ids[c] == id);
        }
    }

    /// A registry that has seen no sample.
    pub fn new() -> (registry: CallableRegistry)
        ensures
            registry.wf(),
            registry@ == RegistryView::empty(),
    {
        let registry = CallableRegistry {
            id_counter: 0,
            callable_to_id: Vec::new(),
            callable_stats: HashMap::new(),
        };
        proof {
            assert(registry@.ids =~= Map::empty());
            assert(registry@.stats =~= Map::empty());
            registry.lemma_ids();
        }
        registry
    }

    /// The id under which `callable` is interned; `None` for a call site
    /// that was never recorded. The registry is not changed.
    pub fn lookup(&self, callable: &Callable) -> (found: Option<u64>)
        requires
            self.wf(),
        ensures
            found is Some <==> self@.ids.contains_key(callable@),
            found is Some ==> found->0 == self@.ids[callable@],
    {
        proof {
            self.lemma_ids();
        }
        let mut i: usize = 0;
        while i < self.callable_to_id.len()
            invariant
                i <= self.callable_to_id@.len(),
                forall|j: int| 0 <= j < i ==> self.sites()[j] != callable@,
                forall|j: int|
                    0 <= j < self.sites().len() ==> self@.ids.contains_key(
                        #[trigger] self.sites()[j],
                    ) && self@.ids[self.sites()[j]] == j + 1,
                forall|c: CallableView| #[trigger]
                    self@.ids.contains_key(c) <==> self.sites().contains(c),
                self.id_counter == self.callable_to_id@.len(),
            decreases self.callable_to_id@.len() - i,
        {
            if self.callable_to_id[i] == *callable {
                assert(self.sites()[i as int] == callable@);
                return Some((i + 1) as u64);
            }
            i = i + 1;
        }
        None
    }

    /// Hands out the next id.
    fn next_cid(&mut self) -> (cid: u64)
        requires
            old(self).id_counter < u64::MAX,
        ensures
            cid == old(self).id_counter + 1,
            final(self).id_counter == cid,
            final(self).callable_to_id == old(self).callable_to_id,
            final(self).callable_stats == old(self).callable_stats,
    {
        self.id_counter = self.id_counter + 1;
        self.id_counter
    }

    /// Interns `callable` and returns its id.
    fn callable_id(&mut self, callable: &Callable) -> (cid: u64)
        requires
            old(self).wf(),
        ensures
            final(self).sites_wf(),
            final(self)@ == old(self)@.intern(callable@),
            final(self)@.ids.contains_key(callable@),
            cid == final(self)@.ids[callable@],
            final(self).callable_stats == old(self).callable_stats,
    {
        match self.lookup(callable) {
            Some(cid) => cid,
            None => {
                proof {
                    self.lemma_ids();
                }
                // The call site goes in before its id is drawn: the vector then
                // holds one more than the counter says, so the counter has room.
                self.callable_to_id.push(callable.clone());
                assert(self.id_counter < self.callable_to_id.len() <= usize::MAX);
                let cid = self.next_cid();
                proof {
                    let s0 = old(self).sites();
                    let s1 = self.sites();
                    assert(s1 =~= s0.push(callable@));
                    assert(!s0.contains(callable@));
                    self.lemma_ids();
                    assert(s1[s0.len() as int] == callable@);
                    assert forall|c: CallableView| #[trigger]
                        old(self)@.ids.contains_key(c) implies self@.ids.contains_key(c)
                        && self@.ids[c] == old(self)@.ids[c] by {
                        let i = s0.index_of(c);
                        assert(s1[i] == c);
                        assert(s0[i] == c);
                    }
                    assert forall|c: CallableView| #[trigger]
                        self@.ids.contains_key(c) implies c == callable@ || old(
                        self,
                    )@.ids.contains_key(c) by {
                        let i = s1.index_of(c);
                        if i < s0.len() {
                            assert(s0[i] == c);
                        }
                    }
                    assert(self@.ids =~= old(self)@.intern(callable@).ids);
                    assert(self@.stats =~= old(self)@.stats);
                }
                cid
            },
        }
    }

    /// The counters of `cid`, created zeroed if the id has none yet.
    fn callable_stats(&mut self, cid: u64) -> (stats: &mut CallableStats)
        ensures
            stats@ == old(self)@.touch(cid as nat).stats[cid as nat],
            final(self).callable_stats@ == old(self).callable_stats@.insert(cid, *final(stats)),
            final(self).callable_to_id == old(self).callable_to_id,
            final(self).id_counter == old(self).id_counter,
    {
        self.callable_stats.entry(cid).or_insert(CallableStats::new(cid))
    }

    /// Records one sample of `callable`: the call site is interned, and the
    /// counter of the sample's kind grows by one.
    pub fn record_sample(&mut self, callable: &Callable, sample_type: SampleType)
        requires
            old(self).wf(),
            old(self)@.count(callable@, sample_type) < u64::MAX,
        ensures
            final(self).wf(),
            final(self)@ == old(self)@.record(callable@, sample_type),
    {
        let cid = self.callable_id(callable);
        let stats = self.callable_stats(cid);
        stats.update(sample_type);
        proof {
            assert(final(self)@.stats =~= old(self)@.record(callable@, sample_type).stats);
            final(self).lemma_ids();
        }
    }

    /// The table of all call sites with their counters, as tuples of path,
    /// name, line, cumulative count and self count: one tuple for each call
    /// site that was recorded. The registry is left as it was.
    pub fn as_tuples_list(&mut self) -> (list: Vec<(String, String, i32, u64, u64)>)
        requires
            old(self).wf(),
        ensures
            *final(self) == *old(self),
            old(self)@.is_export(rows_of(list@)),
    {
        proof {
            self.lemma_ids();
        }
        let mut list: Vec<(String, String, i32, u64, u64)> = Vec::new();
        let mut i: usize = 0;
        while i < self.callable_to_id.len()
            invariant
                *self == *old(self),
                self.wf(),
                i <= self.callable_to_id@.len(),
                list@.len() == i,
                forall|j: int|
                    0 <= j < self.sites().len() ==> self@.ids.contains_key(
                        #[trigger] self.sites()[j],
                    ) && self@.ids[self.sites()[j]] == j + 1,
                forall|j: int|
                    0 <= j < i ==> row_of(#[trigger] list@[j]) == self@.row(self.sites()[j]),
            decreases self.callable_to_id@.len() - i,
        {
            let callable = &self.callable_to_id[i];
            let cid: u64 = (i + 1) as u64;
            assert(self@.stats.contains_key(cid as nat));
            let stats = self.callable_stats.get(&cid).unwrap();
            list.push(
                (
                    callable.path.clone(),
                    callable.name.clone(),
                    callable.line,
                    stats.cumulative_count,
                    stats.self_count,
                ),
            );
            assert(self.sites()[i as int] == callable@);
            i = i + 1;
        }
        proof {
            let rows = rows_of(list@);
            assert forall|j: int, k: int| 0 <= j < k < rows.len() implies (#[trigger] rows[j]).callable
                != (#[trigger] rows[k]).callable by {
                assert(rows[j].callable == self.sites()[j]);
                assert(rows[k].callable == self.sites()[k]);
            }
        }
        list
    }
}

/// The exported line that a tuple stands for.
pub open spec fn row_of(tuple: (String, String, i32, u64, u64)) -> Row {
    Row {
        callable: CallableView { path: tuple.0@, name: tuple.1@, line: tuple.2 },
        cumulative_count: tuple.3 as nat,
        self_count: tuple.4 as nat,
    }
}

/// The exported lines that a list of tuples stands for, in the list's order.
pub open spec fn rows_of(list: Seq<(String, String, i32, u64, u64)>) -> Seq<Row> {
    list.map_values(|tuple: (String, String, i32, u64, u64)| row_of(tuple))
}

} // verus!
