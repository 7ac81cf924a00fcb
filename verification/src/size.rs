//! The measurement triple of a file or a directory, and how triples add up.

use vstd::prelude::*;

verus! {

/// A measurement as a mathematical value: unbounded byte counts, with an
/// estimate absent where it was not measured or could not be combined.
pub struct Totals {
    pub uncompressed: nat,
    pub gzip: Option<nat>,
    pub brotli: Option<nat>,
}

/// The measurement of one file, or the total of one directory.
#[derive(Clone, Copy, Debug, PartialEq, Eq, Structural)]
pub struct FileSizeInfo {
    pub uncompressed: usize,
    pub gzip: Option<usize>,
    pub brotli: Option<usize>,
}

/// An optional byte count as an optional natural number.
pub open spec fn estimate_view(estimate: Option<usize>) -> Option<nat> {
    match estimate {
        Some(n) => Some(n as nat),
        None => None,
    }
}

impl View for FileSizeInfo {
    type V = Totals;

    open spec fn view(&self) -> Totals {
        Totals {
            uncompressed: self.uncompressed as nat,
            gzip: estimate_view(self.gzip),
            brotli: estimate_view(self.brotli),
        }
    }
}

/// The sum of a sequence of byte counts.
pub open spec fn sum_of(values: Seq<nat>) -> nat
    decreases values.len(),
{
    if values.len() == 0 {
        0
    } else {
        sum_of(values.drop_last()) + values.last()
    }
}

/// Whether every estimate of a sequence is present.
pub open spec fn all_present(estimates: Seq<Option<nat>>) -> bool {
    forall|i: int| 0 <= i < estimates.len() ==> (#[trigger] estimates[i]) is Some
}

/// The byte counts that a sequence of estimates holds, an absent one counted as zero.
pub open spec fn present_values(estimates: Seq<Option<nat>>) -> Seq<nat> {
    Seq::new(
        estimates.len(),
        |i: int|
            match estimates[i] {
                Some(n) => n,
                None => 0,
            },
    )
}

/// The combined estimate of a directory's entries: their sum where there is
/// at least one entry and every entry has an estimate, absent otherwise.
pub open spec fn combined_estimate(estimates: Seq<Option<nat>>) -> Option<nat> {
    if estimates.len() > 0 && all_present(estimates) {
        Some(sum_of(present_values(estimates)))
    } else {
        None
    }
}

/// The uncompressed byte counts of a sequence of measurements.
pub open spec fn uncompressed_parts(entries: Seq<Totals>) -> Seq<nat> {
    Seq::new(entries.len(), |i: int| entries[i].uncompressed)
}

/// The gzip estimates of a sequence of measurements.
pub open spec fn gzip_parts(entries: Seq<Totals>) -> Seq<Option<nat>> {
    Seq::new(entries.len(), |i: int| entries[i].gzip)
}

/// The brotli estimates of a sequence of measurements.
pub open spec fn brotli_parts(entries: Seq<Totals>) -> Seq<Option<nat>> {
    Seq::new(entries.len(), |i: int| entries[i].brotli)
}

/// The total of a directory whose entries have the totals `entries`: the sum
/// of their uncompressed sizes, and for each codec their combined estimate.
pub open spec fn reduce(entries: Seq<Totals>) -> Totals {
    Totals {
        uncompressed: sum_of(uncompressed_parts(entries)),
        gzip: combined_estimate(gzip_parts(entries)),
        brotli: combined_estimate(brotli_parts(entries)),
    }
}

/// Whether a mathematical measurement can be held in machine integers.
pub open spec fn representable(t: Totals) -> bool {
    &&& t.uncompressed <= usize::MAX
    &&& t.gzip matches Some(n) ==> n <= usize::MAX
    &&& t.brotli matches Some(n) ==> n <= usize::MAX
}

/// Appending one value adds it to the sum.
pub proof fn lemma_sum_push(values: Seq<nat>, value: nat)
    ensures
        sum_of(values.push(value)) == sum_of(values) + value,
{
    assert(values.push(value).drop_last() =~= values);
}

/// The sum of two sequences, one after the other, is the sum of their sums.
pub proof fn lemma_sum_concat(first: Seq<nat>, second: Seq<nat>)
    ensures
        sum_of(first + second) == sum_of(first) + sum_of(second),
    decreases second.len(),
{
    if second.len() == 0 {
        assert(first + second =~= first);
    } else {
        lemma_sum_concat(first, second.drop_last());
        assert((first + second).drop_last() =~= first + second.drop_last());
    }
}

/// The sum of a prefix is no larger than the sum of the whole.
pub proof fn lemma_sum_prefix(values: Seq<nat>, n: int)
    requires
        0 <= n <= values.len(),
    ensures
        sum_of(values.take(n)) <= sum_of(values),
    decreases values.len(),
{
    if n == values.len() {
        assert(values.take(n) =~= values);
    } else {
        lemma_sum_prefix(values.drop_last(), n);
        assert(values.drop_last().take(n) =~= values.take(n));
    }
}

/// Two measurements taken together: the sizes added, an estimate kept where
/// both have it.
pub open spec fn combine(a: Totals, b: Totals) -> Totals {
    Totals {
        uncompressed: a.uncompressed + b.uncompressed,
        gzip: match (a.gzip, b.gzip) {
            (Some(x), Some(y)) => Some(x + y),
            _ => None,
        },
        brotli: match (a.brotli, b.brotli) {
            (Some(x), Some(y)) => Some(x + y),
            _ => None,
        },
    }
}

/// One more estimate changes a combined estimate as `combine` says.
proof fn lemma_combined_estimate_push(estimates: Seq<Option<nat>>, estimate: Option<nat>)
    requires
        estimates.len() > 0,
    ensures
        combined_estimate(estimates.push(estimate)) == match (
            combined_estimate(estimates),
            estimate,
        ) {
            (Some(x), Some(y)) => Some(x + y),
            _ => None,
        },
{
    let after = estimates.push(estimate);
    let value: nat = match estimate {
        Some(n) => n,
        None => 0,
    };
    assert(present_values(after) =~= present_values(estimates).push(value));
    lemma_sum_push(present_values(estimates), value);
    if all_present(after) {
        assert forall|i: int| 0 <= i < estimates.len() implies estimates[i] is Some by {
            assert(after[i] is Some);
        }
        assert(after[estimates.len() as int] is Some);
    } else if all_present(estimates) {
        if estimate is Some {
            assert forall|i: int| 0 <= i < after.len() implies after[i] is Some by {
                if i < estimates.len() {
                    assert(estimates[i] is Some);
                }
            }
        }
    }
}

/// The total of a directory is what adding up its entries one after the
/// other gives: a single entry's own total, and with one more entry the
/// total so far combined with that entry.
pub proof fn lemma_reduce_step(entries: Seq<Totals>, entry: Totals)
    ensures
        reduce(seq![entry]) == entry,
        entries.len() > 0 ==> reduce(entries.push(entry)) == combine(reduce(entries), entry),
{
    let single = seq![entry];
    assert(uncompressed_parts(single) =~= Seq::<nat>::empty().push(entry.uncompressed));
    lemma_sum_push(Seq::<nat>::empty(), entry.uncompressed);
    assert(gzip_parts(single) =~= seq![entry.gzip]);
    assert(brotli_parts(single) =~= seq![entry.brotli]);
    lemma_single_estimate(entry.gzip);
    lemma_single_estimate(entry.brotli);
    if entries.len() > 0 {
        let after = entries.push(entry);
        assert(uncompressed_parts(after) =~= uncompressed_parts(entries).push(entry.uncompressed));
        lemma_sum_push(uncompressed_parts(entries), entry.uncompressed);
        assert(gzip_parts(after) =~= gzip_parts(entries).push(entry.gzip));
        assert(brotli_parts(after) =~= brotli_parts(entries).push(entry.brotli));
        lemma_combined_estimate_push(gzip_parts(entries), entry.gzip);
        lemma_combined_estimate_push(brotli_parts(entries), entry.brotli);
    }
}

/// The combined estimate of a single entry is its own estimate.
proof fn lemma_single_estimate(estimate: Option<nat>)
    ensures
        combined_estimate(seq![estimate]) == estimate,
{
    let single = seq![estimate];
    let value: nat = match estimate {
        Some(n) => n,
        None => 0,
    };
    assert(present_values(single) =~= Seq::<nat>::empty().push(value));
    lemma_sum_push(Seq::<nat>::empty(), value);
    if estimate is Some {
        assert(all_present(single));
    } else {
        assert(single[0] is None);
    }
}

/// A running combination of estimates: their sum so far, or that the sum no
/// longer fits in `usize`, or that one of them was absent.
pub(crate) enum Running {
    Sum(usize),
    Overflow,
    Absent,
}

impl Running {
    /// Whether this is the state reached after the estimates `seen`.
    pub(crate) open spec fn tracks(self, seen: Seq<Option<nat>>) -> bool {
        match self {
            Running::Sum(sum) => all_present(seen) && sum_of(present_values(seen)) == sum,
            Running::Overflow => all_present(seen) && sum_of(present_values(seen)) > usize::MAX,
            Running::Absent => !all_present(seen),
        }
    }

    /// The state after one more estimate.
    pub(crate) fn absorb(
        self,
        estimate: Option<usize>,
        Ghost(seen): Ghost<Seq<Option<nat>>>,
    ) -> (next: Running)
        requires
            self.tracks(seen),
        ensures
            next.tracks(seen.push(estimate_view(estimate))),
    {
        let ghost after = seen.push(estimate_view(estimate));
        proof {
            assert(present_values(after) =~= present_values(seen).push(
                match estimate {
                    Some(n) => n as nat,
                    None => 0,
                },
            ));
            lemma_sum_push(
                present_values(seen),
                match estimate {
                    Some(n) => n as nat,
                    None => 0,
                },
            );
            if all_present(after) {
                assert forall|i: int| 0 <= i < seen.len() implies seen[i] is Some by {
                    assert(after[i] is Some);
                }
                assert(after[seen.len() as int] is Some);
            }
        }
        match (self, estimate) {
            (Running::Absent, _) => Running::Absent,
            (_, None) => {
                assert(after[seen.len() as int] is None);
                Running::Absent
            },
            (Running::Overflow, Some(_)) => Running::Overflow,
            (Running::Sum(sum), Some(n)) => match sum.checked_add(n) {
                Some(next) => Running::Sum(next),
                None => Running::Overflow,
            },
        }
    }

    /// The combined estimate of a directory with `count` entries, where it fits.
    pub(crate) fn finish(
        self,
        count: usize,
        Ghost(seen): Ghost<Seq<Option<nat>>>,
    ) -> (outcome: Option<Option<usize>>)
        requires
            self.tracks(seen),
            seen.len() == count,
        ensures
            outcome matches Some(estimate) ==> estimate_view(estimate) == combined_estimate(seen),
            outcome is None <==> (combined_estimate(seen) matches Some(n) && n > usize::MAX),
    {
        match self {
            Running::Sum(sum) => if count > 0 {
                Some(Some(sum))
            } else {
                Some(None)
            },
            Running::Overflow => {
                assert(seen.len() > 0) by {
                    if seen.len() == 0 {
                        assert(present_values(seen) =~= Seq::<nat>::empty());
                    }
                }
                None
            },
            Running::Absent => Some(None),
        }
    }
}

} // verus!
