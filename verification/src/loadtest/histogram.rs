//! The histogram that latencies are kept in.

use vstd::multiset::Multiset;
use vstd::prelude::*;

verus! {

/// A `hdrhistogram::Histogram<u64>` that keeps three significant digits of each value and grows
/// with the values it is given.
#[verifier::external_body]
#[derive(Debug)]
pub struct LatencyHistogram {
    inner: hdrhistogram::Histogram<u64>,
}

/// The values that were recorded in a histogram, by itself and by those added to it.
pub uninterp spec fn recorded(h: LatencyHistogram) -> Multiset<u64>;

/// What `Histogram::value_at_percentile` returns for a histogram of these values.
pub uninterp spec fn percentile_of(values: Multiset<u64>, pct: u8) -> u64;

/// What `Histogram::max` returns for a histogram of these values.
pub uninterp spec fn highest_of(values: Multiset<u64>) -> u64;

impl LatencyHistogram {
    /// `Histogram::new` with three significant digits: nothing is recorded yet.
    #[verifier::external_body]
    pub(crate) fn new() -> (h: Self)
        ensures
            recorded(h) == Multiset::<u64>::empty(),
    {
        LatencyHistogram {
            inner: hdrhistogram::Histogram::new(3).expect("three significant digits are valid"),
        }
    }

    /// `Histogram::record`: one more value is recorded. It fails only on a machine whose `usize`
    /// is too small for the counts.
    #[verifier::external_body]
    pub(crate) fn record(&mut self, value: u64)
        requires
            recorded(*old(self)).len() < u64::MAX,
        ensures
            recorded(*final(self)) == recorded(*old(self)).insert(value),
    {
        self.inner.record(value).expect("the histogram grows to hold any value");
    }

    /// `Histogram::add`: the values recorded in `other` are recorded here too.
    #[verifier::external_body]
    pub(crate) fn merge(&mut self, other: &LatencyHistogram)
        requires
            recorded(*old(self)).len() + recorded(*other).len() <= u64::MAX,
        ensures
            recorded(*final(self)) == recorded(*old(self)).add(recorded(*other)),
    {
        self.inner.add(&other.inner).expect("the histogram grows to hold any value");
    }

    /// `Histogram::len`: how many values are recorded.
    #[verifier::external_body]
    pub(crate) fn count(&self) -> (n: u64)
        requires
            recorded(*self).len() <= u64::MAX,
        ensures
            n == recorded(*self).len(),
    {
        self.inner.len()
    }

    /// `Histogram::value_at_percentile`: the value below which `pct` percent of those recorded
    /// lie, to the histogram's precision.
    #[verifier::external_body]
    pub(crate) fn value_at_percentile(&self, pct: u8) -> (v: u64)
        ensures
            v == percentile_of(recorded(*self), pct),
    {
        self.inner.value_at_percentile(pct.into())
    }

    /// `Histogram::max`: the highest value recorded, to the histogram's precision.
    #[verifier::external_body]
    pub(crate) fn max(&self) -> (v: u64)
        ensures
            v == highest_of(recorded(*self)),
    {
        self.inner.max()
    }

    /// `Clone` of `Histogram`: another histogram with the same values.
    #[verifier::external_body]
    pub(crate) fn copy(&self) -> (h: LatencyHistogram)
        ensures
            recorded(h) == recorded(*self),
    {
        LatencyHistogram { inner: self.inner.clone() }
    }
}

} // verus!
