//! The values that a sampler hands in: call sites, sample kinds, and the pair
//! of counters kept for each call site.
use vstd::prelude::*;

verus! {

/// How a call site was observed in one sample.
#[derive(Clone, Copy, Debug)]
pub enum SampleType {
    /// The call site was the frame that was executing.
    SelfSample,
    /// The call site was somewhere on the active call stack.
    CumulativeSample,
}

/// What identifies a call site: the three fields of a [`Callable`] as
/// mathematical values.
pub struct CallableView {
    pub path: Seq<char>,
    pub name: Seq<char>,
    pub line: i32,
}

/// A call site: source file, symbol name and source line. No field is
/// validated; empty strings and non-positive lines are call sites too.
#[derive(Debug, Hash)]
pub struct Callable {
    pub path: String,
    pub name: String,
    pub line: i32,
}

impl View for Callable {
    type V = CallableView;

    open spec fn view(&self) -> CallableView {
        CallableView { path: self.path@, name: self.name@, line: self.line }
    }
}

impl Callable {
    pub fn new(path: String, name: String, line: i32) -> (c: Callable)
        ensures
            c.path == path,
            c.name == name,
            c.line == line,
    {
        Callable { path: path, name: name, line: line }
    }
}

impl Clone for Callable {
    fn clone(&self) -> (c: Callable)
        ensures
            c == *self,
    {
        Callable { path: self.path.clone(), name: self.name.clone(), line: self.line }
    }
}

impl PartialEq for Callable {
    /// Two call sites are the same exactly when all three fields agree.
    fn eq(&self, other: &Callable) -> (r: bool) {
        self.path == other.path && self.name == other.name && self.line == other.line
    }
}

impl Eq for Callable {

}

impl vstd::std_specs::cmp::PartialEqSpecImpl for Callable {
    open spec fn obeys_eq_spec() -> bool {
        true
    }

    open spec fn eq_spec(&self, other: &Callable) -> bool {
        self@ == other@
    }
}

/// The counters of one call site as mathematical values.
pub struct StatsView {
    pub cid: nat,
    pub cumulative_count: nat,
    pub self_count: nat,
}

impl StatsView {
    /// The record of a call site that has not been sampled yet.
    pub open spec fn zeroed(cid: nat) -> StatsView {
        StatsView { cid: cid, cumulative_count: 0, self_count: 0 }
    }

    /// The counter that a sample of the given kind is added to.
    pub open spec fn count(self, sample_type: SampleType) -> nat {
        match sample_type {
            SampleType::SelfSample => self.self_count,
            SampleType::CumulativeSample => self.cumulative_count,
        }
    }

    /// The record after one more sample of the given kind: that kind's
    /// counter grows by one, the other counter and the id stay.
    pub open spec fn update(self, sample_type: SampleType) -> StatsView {
        match sample_type {
            SampleType::SelfSample => StatsView { self_count: self.self_count + 1, ..self },
            SampleType::CumulativeSample => StatsView {
                cumulative_count: self.cumulative_count + 1,
                ..self
            },
        }
    }
}

/// The counters kept for the call site with id `cid`.
pub struct CallableStats {
    pub cid: u64,
    pub cumulative_count: u64,
    pub self_count: u64,
}

impl View for CallableStats {
    type V = StatsView;

    open spec fn view(&self) -> StatsView {
        StatsView {
            cid: self.cid as nat,
            cumulative_count: self.cumulative_count as nat,
            self_count: self.self_count as nat,
        }
    }
}

impl CallableStats {
    pub fn new(cid: u64) -> (stats: CallableStats)
        ensures
            stats@ == StatsView::zeroed(cid as nat),
    {
        CallableStats { cid: cid, cumulative_count: 0, self_count: 0 }
    }

    /// Counts one sample of the given kind.
    pub fn update(&mut self, sample_type: SampleType)
        requires
            old(self)@.count(sample_type) < u64::MAX,
        ensures
            final(self)@ == old(self)@.update(sample_type),
    {
        match sample_type {
            SampleType::SelfSample => self.self_count = self.self_count + 1,
            SampleType::CumulativeSample => self.cumulative_count = self.cumulative_count + 1,
        }
    }
}

} // verus!
