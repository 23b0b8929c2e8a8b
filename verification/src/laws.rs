//! What holds of every registry, proved over the model.
use crate::callable::{CallableView, SampleType};
use crate::model::{replay, RegistryView, Row, Sample};
use vstd::prelude::*;

verus! {

/// The call sites that occur in a sequence of samples.
pub open spec fn callables_of(samples: Seq<Sample>) -> Set<CallableView> {
    samples.map_values(|s: Sample| s.callable).to_set()
}

/// How often a call site was sampled with a given kind in a sequence of
/// samples.
pub open spec fn occurrences(
    samples: Seq<Sample>,
    callable: CallableView,
    sample_type: SampleType,
) -> nat {
    samples.to_multiset().count(Sample { callable, sample_type })
}

/// One sample adds one to the counter of its call site and kind, and leaves
/// every other counter as it was.
pub proof fn lemma_record_counts(
    v: RegistryView,
    callable: CallableView,
    sample_type: SampleType,
    other: CallableView,
    other_type: SampleType,
)
    requires
        v.wf(),
    ensures
        v.record(callable, sample_type).count(other, other_type) == v.count(other, other_type) + (
        if other == callable && other_type == sample_type {
            1nat
        } else {
            0nat
        }),
{
}

/// A sample keeps the invariant: the interning table stays a bijection onto
/// the ids handed out, and the ids with counters stay exactly those ids.
pub proof fn lemma_record_preserves_wf(
    v: RegistryView,
    callable: CallableView,
    sample_type: SampleType,
)
    requires
        v.wf(),
    ensures
        v.record(callable, sample_type).wf(),
{
    let w = v.record(callable, sample_type);
    if v.ids.contains_key(callable) {
        assert(w.ids == v.ids);
        assert(w.id_counter == v.id_counter);
        assert forall|id: nat| 1 <= id <= w.id_counter implies w.ids.contains_key(
            #[trigger] w.site_of(id),
        ) && w.ids[w.site_of(id)] == id by {
            assert(w.site_of(id) == v.site_of(id));
        }
    } else {
        assert forall|id: nat| 1 <= id <= w.id_counter implies w.ids.contains_key(
            #[trigger] w.site_of(id),
        ) && w.ids[w.site_of(id)] == id by {
            if id <= v.id_counter {
                let c = v.site_of(id);
                assert(w.ids.contains_key(c) && w.ids[c] == id);
            } else {
                assert(w.ids.contains_key(callable) && w.ids[callable] == id);
            }
        }
    }
}

/// The ids that have counters are exactly the ids that the interning table
/// hands out.
pub proof fn lemma_stats_ids_are_interned_ids(v: RegistryView)
    requires
        v.wf(),
    ensures
        v.stats.dom() == v.ids.values(),
{
    assert forall|id: nat| v.stats.dom().contains(id) implies v.ids.values().contains(id) by {
        assert(v.ids.contains_key(v.site_of(id)) && v.ids[v.site_of(id)] == id);
    }
    assert forall|id: nat| v.ids.values().contains(id) implies v.stats.dom().contains(id) by {
        let c = choose|c: CallableView| v.ids.contains_key(c) && v.ids[c] == id;
        assert(v.ids.contains_key(c));
    }
    assert(v.stats.dom() =~= v.ids.values());
}

/// A call site that is interned keeps its id whatever is recorded later.
pub proof fn lemma_ids_are_stable(
    v: RegistryView,
    callable: CallableView,
    sample_type: SampleType,
    other: CallableView,
)
    requires
        v.ids.contains_key(other),
    ensures
        v.record(callable, sample_type).ids.contains_key(other),
        v.record(callable, sample_type).ids[other] == v.ids[other],
{
}

/// Recording a call site that is already interned leaves the interning table
/// and the id counter as they were: no id is handed out.
pub proof fn lemma_known_site_keeps_table(
    v: RegistryView,
    callable: CallableView,
    sample_type: SampleType,
)
    requires
        v.wf(),
        v.ids.contains_key(callable),
    ensures
        v.record(callable, sample_type).ids == v.ids,
        v.record(callable, sample_type).id_counter == v.id_counter,
        v.record(callable, sample_type).stats.dom() == v.stats.dom(),
{
    assert(v.record(callable, sample_type).stats.dom() =~= v.stats.dom());
}

/// A call site that is recorded for the first time gets the next id: one
/// more than the number of call sites interned before it. The interning table
/// grows by that call site alone.
pub proof fn lemma_new_site_gets_next_id(
    v: RegistryView,
    callable: CallableView,
    sample_type: SampleType,
)
    requires
        v.wf(),
        !v.ids.contains_key(callable),
    ensures
        v.record(callable, sample_type).ids == v.ids.insert(callable, v.ids.dom().len() + 1),
        v.record(callable, sample_type).id_counter == v.ids.dom().len() + 1,
{
}

/// Whatever was recorded, the registry is well formed.
pub proof fn lemma_replay_wf(samples: Seq<Sample>)
    ensures
        replay(samples).wf(),
    decreases samples.len(),
{
    if samples.len() > 0 {
        lemma_replay_wf(samples.drop_last());
        lemma_record_preserves_wf(
            replay(samples.drop_last()),
            samples.last().callable,
            samples.last().sample_type,
        );
    }
}

/// The call sites interned are exactly the call sites recorded.
pub proof fn lemma_replay_interns(samples: Seq<Sample>)
    ensures
        replay(samples).ids.dom() == callables_of(samples),
    decreases samples.len(),
{
    if samples.len() == 0 {
        assert(replay(samples).ids.dom() =~= callables_of(samples));
    } else {
        let init = samples.drop_last();
        let last = samples.last();
        lemma_replay_interns(init);
        let sites = samples.map_values(|s: Sample| s.callable);
        let init_sites = init.map_values(|s: Sample| s.callable);
        assert(sites =~= init_sites.push(last.callable));
        assert forall|c: CallableView| callables_of(samples).contains(c) <==> (c == last.callable
            || callables_of(init).contains(c)) by {
            if callables_of(samples).contains(c) {
                let i = sites.index_of(c);
                if i < init_sites.len() {
                    assert(init_sites[i] == c);
                }
            }
            if callables_of(init).contains(c) {
                let i = init_sites.index_of(c);
                assert(sites[i] == c);
            }
            if c == last.callable {
                assert(sites[sites.len() - 1] == c);
            }
        }
        assert(replay(samples).ids.dom() =~= callables_of(samples));
    }
}

/// After any sequence of samples, an export has as many lines as there are
/// distinct call sites among the samples.
pub proof fn lemma_export_len(samples: Seq<Sample>, rows: Seq<Row>)
    requires
        replay(samples).is_export(rows),
    ensures
        rows.len() == callables_of(samples).len(),
{
    lemma_replay_interns(samples);
}

/// What was recorded up to some point stays interned, under the same ids,
/// whatever is recorded after it.
pub proof fn lemma_replay_keeps_ids(samples: Seq<Sample>, n: int, callable: CallableView)
    requires
        0 <= n <= samples.len(),
        replay(samples.take(n)).ids.contains_key(callable),
    ensures
        replay(samples).ids.contains_key(callable),
        replay(samples).ids[callable] == replay(samples.take(n)).ids[callable],
    decreases samples.len(),
{
    if n == samples.len() {
        assert(samples.take(n) =~= samples);
    } else {
        let init = samples.drop_last();
        assert(init.take(n) =~= samples.take(n));
        lemma_replay_keeps_ids(init, n, callable);
        lemma_ids_are_stable(
            replay(init),
            samples.last().callable,
            samples.last().sample_type,
            callable,
        );
    }
}

/// Ids are handed out in the order in which call sites are first seen,
/// starting at one and without gaps: a call site that is first seen after
/// `k - 1` other distinct call sites has id `k`, for good.
pub proof fn lemma_kth_site_gets_id_k(samples: Seq<Sample>, i: int)
    requires
        0 <= i < samples.len(),
        forall|j: int| 0 <= j < i ==> samples[j].callable != samples[i].callable,
    ensures
        replay(samples).ids.contains_key(samples[i].callable),
        replay(samples).ids[samples[i].callable] == callables_of(samples.take(i)).len() + 1,
{
    let before = samples.take(i);
    let upto = samples.take(i + 1);
    let c = samples[i].callable;
    assert(upto.drop_last() =~= before);
    assert(upto.last() == samples[i]);
    lemma_replay_wf(before);
    lemma_replay_interns(before);
    assert(!callables_of(before).contains(c)) by {
        let sites = before.map_values(|s: Sample| s.callable);
        if sites.contains(c) {
            let j = sites.index_of(c);
            assert(samples[j].callable == c);
        }
    }
    lemma_new_site_gets_next_id(replay(before), c, samples[i].sample_type);
    lemma_replay_keeps_ids(samples, i + 1, c);
}

/// After any sequence of samples, each counter of a call site is the number
/// of samples of that call site and kind, in whatever order they came.
pub proof fn lemma_replay_counts(
    samples: Seq<Sample>,
    callable: CallableView,
    sample_type: SampleType,
)
    ensures
        replay(samples).count(callable, sample_type) == occurrences(
            samples,
            callable,
            sample_type,
        ),
    decreases samples.len(),
{
    broadcast use vstd::seq_lib::group_to_multiset_ensures;

    if samples.len() == 0 {
        assert(samples.to_multiset().len() == 0);
    } else {
        let init = samples.drop_last();
        let last = samples.last();
        assert(samples =~= init.push(last));
        lemma_replay_counts(init, callable, sample_type);
        lemma_replay_wf(init);
        lemma_record_counts(replay(init), last.callable, last.sample_type, callable, sample_type);
    }
}

/// Every interned call site has its line in an export.
pub proof fn lemma_export_covers(v: RegistryView, rows: Seq<Row>, callable: CallableView)
    requires
        v.wf(),
        v.is_export(rows),
        v.ids.contains_key(callable),
    ensures
        rows.contains(v.row(callable)),
{
    let sites = rows.map_values(|r: Row| r.callable);
    assert(sites.no_duplicates());
    sites.unique_seq_to_set();
    assert(sites.to_set().subset_of(v.ids.dom())) by {
        assert forall|c: CallableView| sites.to_set().contains(c) implies v.ids.dom().contains(
            c,
        ) by {
            let i = sites.index_of(c);
            assert(rows[i].callable == c);
        }
    }
    vstd::set_lib::lemma_len_subset(sites.to_set(), v.ids.dom());
    vstd::set_lib::lemma_subset_equality(sites.to_set(), v.ids.dom());
    assert(sites.to_set().contains(callable));
    let i = sites.index_of(callable);
    assert(rows[i] == v.row(callable));
}

/// After any sequence of samples, the exported line of a call site shows how
/// often it was sampled as the running frame and how often on the stack.
pub proof fn lemma_exported_counts(samples: Seq<Sample>, rows: Seq<Row>, callable: CallableView)
    requires
        replay(samples).is_export(rows),
        callables_of(samples).contains(callable),
    ensures
        exists|i: int|
            0 <= i < rows.len() && (#[trigger] rows[i]).callable == callable && rows[i].self_count
                == occurrences(samples, callable, SampleType::SelfSample)
                && rows[i].cumulative_count == occurrences(
                samples,
                callable,
                SampleType::CumulativeSample,
            ),
{
    let v = replay(samples);
    lemma_replay_wf(samples);
    lemma_replay_interns(samples);
    lemma_replay_counts(samples, callable, SampleType::SelfSample);
    lemma_replay_counts(samples, callable, SampleType::CumulativeSample);
    lemma_export_covers(v, rows, callable);
    let i = rows.index_of(v.row(callable));
    assert(rows[i] == v.row(callable));
}

/// Call sites that differ in the line alone are two call sites: they never
/// share an id, and a sample of one leaves the counters of the other alone.
pub proof fn lemma_lines_tell_sites_apart(
    v: RegistryView,
    path: Seq<char>,
    name: Seq<char>,
    line: i32,
    other_line: i32,
    sample_type: SampleType,
    other_type: SampleType,
)
    requires
        v.wf(),
        line != other_line,
    ensures
        ({
            let site = CallableView { path, name, line };
            let other = CallableView { path, name, line: other_line };
            &&& site != other
            &&& v.ids.contains_key(site) && v.ids.contains_key(other) ==> v.ids[site]
                != v.ids[other]
            &&& v.record(site, sample_type).count(other, other_type) == v.count(other, other_type)
        }),
{
    let site = CallableView { path, name, line };
    let other = CallableView { path, name, line: other_line };
    lemma_record_counts(v, site, sample_type, other, other_type);
}

/// Two exports of one registry hold the same lines, each as often as the
/// other; only the order may differ.
pub proof fn lemma_exports_agree(v: RegistryView, a: Seq<Row>, b: Seq<Row>)
    requires
        v.wf(),
        v.is_export(a),
        v.is_export(b),
    ensures
        a.to_multiset() == b.to_multiset(),
{
    broadcast use vstd::seq_lib::group_to_multiset_ensures;

    assert(a.no_duplicates());
    assert(b.no_duplicates());
    a.lemma_multiset_has_no_duplicates();
    b.lemma_multiset_has_no_duplicates();
    assert forall|r: Row| a.to_multiset().count(r) == b.to_multiset().count(r) by {
        if a.contains(r) {
            let i = a.index_of(r);
            assert(a[i] == r);
            lemma_export_covers(v, b, r.callable);
        }
        if b.contains(r) {
            let i = b.index_of(r);
            assert(b[i] == r);
            lemma_export_covers(v, a, r.callable);
        }
    }
    assert(a.to_multiset() =~= b.to_multiset());
}

} // verus!
