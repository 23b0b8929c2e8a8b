//! The registry as mathematics: two maps and a counter, and what one sample
//! does to them. The executable registry is specified against this model.
use crate::callable::{CallableView, SampleType, StatsView};
use vstd::prelude::*;

verus! {

/// One line of the exported table: a call site with its two counters.
pub struct Row {
    pub callable: CallableView,
    pub cumulative_count: nat,
    pub self_count: nat,
}

/// One observation handed to the registry.
pub struct Sample {
    pub callable: CallableView,
    pub sample_type: SampleType,
}

/// What a registry holds: the interning table from call sites to ids, the
/// counters of each id, and the id that was handed out last.
pub struct RegistryView {
    pub ids: Map<CallableView, nat>,
    pub stats: Map<nat, StatsView>,
    pub id_counter: nat,
}

impl RegistryView {
    /// The registry before any sample.
    pub open spec fn empty() -> RegistryView {
        RegistryView { ids: Map::empty(), stats: Map::empty(), id_counter: 0 }
    }

    /// The interning table is a bijection between the call sites seen and the
    /// ids `1..=id_counter`.
    pub open spec fn interning_wf(self) -> bool {
        &&& self.ids.dom().finite()
        &&& self.ids.dom().len() == self.id_counter
        &&& forall|c: CallableView| #[trigger]
            self.ids.contains_key(c) ==> 1 <= self.ids[c] <= self.id_counter
        &&& forall|c1: CallableView, c2: CallableView|
            #![trigger self.ids[c1], self.ids[c2]]
            self.ids.contains_key(c1) && self.ids.contains_key(c2) && self.ids[c1] == self.ids[c2]
                ==> c1 == c2
        &&& forall|id: nat|
            1 <= id <= self.id_counter ==> self.ids.contains_key(#[trigger] self.site_of(id))
                && self.ids[self.site_of(id)] == id
    }

    /// The ids that have counters are exactly the ids that were handed out,
    /// and each record carries its own id.
    pub open spec fn stats_wf(self) -> bool {
        &&& forall|id: nat| #[trigger] self.stats.contains_key(id) <==> 1 <= id <= self.id_counter
        &&& forall|id: nat| #[trigger] self.stats.contains_key(id) ==> self.stats[id].cid == id
    }

    /// The invariant of a registry between two operations.
    pub open spec fn wf(self) -> bool {
        &&& self.interning_wf()
        &&& self.stats_wf()
    }

    /// The call site that id `id` was handed to.
    pub open spec fn site_of(self, id: nat) -> CallableView {
        choose|c: CallableView| self.ids.contains_key(c) && self.ids[c] == id
    }

    /// The registry after `callable` was interned: a call site that is known
    /// keeps its id and nothing changes; a new one gets the next id.
    pub open spec fn intern(self, callable: CallableView) -> RegistryView {
        if self.ids.contains_key(callable) {
            self
        } else {
            RegistryView {
                ids: self.ids.insert(callable, self.id_counter + 1),
                id_counter: self.id_counter + 1,
                ..self
            }
        }
    }

    /// The registry after the counters of `id` were asked for: an id without
    /// counters gets a zeroed record.
    pub open spec fn touch(self, id: nat) -> RegistryView {
        if self.stats.contains_key(id) {
            self
        } else {
            RegistryView { stats: self.stats.insert(id, StatsView::zeroed(id)), ..self }
        }
    }

    /// The registry after one sample of kind `sample_type` was counted for
    /// `id`.
    pub open spec fn update(self, id: nat, sample_type: SampleType) -> RegistryView {
        RegistryView {
            stats: self.stats.insert(id, self.stats[id].update(sample_type)),
            ..self
        }
    }

    /// The registry after one sample: intern the call site, make sure its id
    /// has counters, count the sample.
    pub open spec fn record(self, callable: CallableView, sample_type: SampleType) -> RegistryView {
        let interned = self.intern(callable);
        let id = interned.ids[callable];
        interned.touch(id).update(id, sample_type)
    }

    /// How many samples of kind `sample_type` were counted for `callable`;
    /// none for a call site that was never seen.
    pub open spec fn count(self, callable: CallableView, sample_type: SampleType) -> nat {
        if self.ids.contains_key(callable) {
            self.stats[self.ids[callable]].count(sample_type)
        } else {
            0
        }
    }

    /// The exported line of an interned call site.
    pub open spec fn row(self, callable: CallableView) -> Row {
        let stats = self.stats[self.ids[callable]];
        Row {
            callable: callable,
            cumulative_count: stats.cumulative_count,
            self_count: stats.self_count,
        }
    }

    /// `rows` is an export of this registry: one line for each interned call
    /// site, in any order, each with the counters of its call site.
    pub open spec fn is_export(self, rows: Seq<Row>) -> bool {
        &&& rows.len() == self.ids.dom().len()
        &&& forall|i: int|
            0 <= i < rows.len() ==> self.ids.contains_key((#[trigger] rows[i]).callable)
                && rows[i] == self.row(rows[i].callable)
        &&& forall|i: int, j: int|
            0 <= i < j < rows.len() ==> (#[trigger] rows[i]).callable != (#[trigger] rows[j]).callable
    }
}

/// The registry that a sequence of samples, recorded in order from the empty
/// registry, leaves behind.
pub open spec fn replay(samples: Seq<Sample>) -> RegistryView
    decreases samples.len(),
{
    if samples.len() == 0 {
        RegistryView::empty()
    } else {
        replay(samples.drop_last()).record(samples.last().callable, samples.last().sample_type)
    }
}

} // verus!
