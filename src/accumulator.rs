//! The rating histogram of one speed category, kept by the `histogram` crate.
//!
//! Every histogram here is built with four significant figures: the crate then keeps each
//! value below 16384 in a bin of its own, so what it reports is the exact frequency table.
use vstd::prelude::*;
use histogram::Histogram;
use vstd::multiset::Multiset;

verus! {

#[verifier::external_type_specification]
#[verifier::external_body]
pub struct ExHistogram(Histogram);

/// The largest maximum for which each value keeps a bin of its own.
pub const EXACT_LIMIT: u64 = 16383;

/// The values recorded in a histogram, each as often as it was recorded.
pub uninterp spec fn recorded(h: Histogram) -> Multiset<u64>;

/// The largest value that a histogram was configured to accept.
pub uninterp spec fn value_limit(h: Histogram) -> u64;

/// The mean that `histogram` reports for the recorded values, rounded up.
pub uninterp spec fn rounded_mean(values: Multiset<u64>) -> u64;

/// The standard deviation that `histogram` reports for the recorded values, rounded up.
pub uninterp spec fn rounded_stddev(values: Multiset<u64>) -> u64;

/// Relies on histogram's `Config::precision`, `Config::max_value` and `Config::build`: a new
/// histogram is empty, and `build` returns `Some` when no memory cap was set.
#[verifier::external_body]
pub(crate) fn empty_histogram(max_value: u64) -> (h: Histogram)
    requires
        max_value <= EXACT_LIMIT,
    ensures
        recorded(h) =~= Multiset::empty(),
        value_limit(h) == max_value,
{
    Histogram::configure().precision(4).max_value(max_value).build().unwrap()
}

/// Relies on histogram's `Histogram::increment`: a value up to the maximum is counted once
/// more in its bin, and the call returns `Ok`.
#[verifier::external_body]
pub(crate) fn record_value(h: &mut Histogram, value: u64) -> (r: Result<(), &'static str>)
    requires
        value <= value_limit(*old(h)),
        value_limit(*old(h)) <= EXACT_LIMIT,
        recorded(*old(h)).len() < u64::MAX,
    ensures
        r is Ok,
        recorded(*final(h)) == recorded(*old(h)).insert(value),
        value_limit(*final(h)) == value_limit(*old(h)),
{
    h.increment(value)
}

/// Relies on histogram's `Histogram::entries`: how many values were recorded.
#[verifier::external_body]
pub(crate) fn entry_count(h: &Histogram) -> (r: u64)
    requires
        value_limit(*h) <= EXACT_LIMIT,
    ensures
        r as nat == recorded(*h).len(),
{
    h.entries()
}

/// Relies on iterating a `&histogram::Histogram`: with each value in a bin of its own, the
/// buckets run from 0 up to the maximum, each with how often its value was recorded.
#[verifier::external_body]
pub(crate) fn all_bins(h: &Histogram) -> (r: Vec<(u64, u64)>)
    requires
        value_limit(*h) <= EXACT_LIMIT,
        recorded(*h).len() <= u64::MAX,
    ensures
        r@.len() == value_limit(*h) + 1,
        forall|i: int|
            0 <= i < r@.len() ==> #[trigger] r@[i] == (i as u64, recorded(*h).count(i as u64) as u64),
{
    h.into_iter().map(|b| (b.value(), b.count())).collect()
}

/// Relies on histogram's `Histogram::mean`: an error when nothing was recorded, else the mean
/// rounded up. It sums each bin's value times its count over the bins in ascending order, so
/// with a bin for each value the result depends on the recorded values alone.
#[verifier::external_body]
pub(crate) fn histogram_mean(h: &Histogram) -> (r: Option<u64>)
    requires
        value_limit(*h) <= EXACT_LIMIT,
    ensures
        r is None <==> recorded(*h).len() == 0,
        r matches Some(m) ==> m == rounded_mean(recorded(*h)),
{
    h.mean().ok()
}

/// Relies on histogram's `Histogram::stddev`: `None` when nothing was recorded, else the
/// standard deviation rounded up, computed over the bins as `mean` is, so that it too depends on
/// the recorded values alone.
#[verifier::external_body]
pub(crate) fn histogram_stddev(h: &Histogram) -> (r: Option<u64>)
    requires
        value_limit(*h) <= EXACT_LIMIT,
    ensures
        r is None <==> recorded(*h).len() == 0,
        r matches Some(d) ==> d == rounded_stddev(recorded(*h)),
{
    h.stddev()
}

} // verus!
