//! What the final report is made of: sizes as text, and the order of the
//! paths from smallest to largest.

use crate::size::FileSizeInfo;
use humansize::{file_size_opts, FileSize};
use vstd::prelude::*;

verus! {

/// A byte count as text in decimal units: `999 B`, `1 KB`, `1.02 KB`.
pub uninterp spec fn decimal_size_text(size: usize) -> Seq<char>;

/// `FileSize::file_size` with the `DECIMAL` options. For an unsigned number
/// it always gives a text, which depends on the number alone.
#[verifier::external_body]
fn decimal_size(size: usize) -> (text: String)
    ensures
        text@ == decimal_size_text(size),
{
    size.file_size(file_size_opts::DECIMAL).unwrap_or_default()
}

/// A measurement as text, one text for each size it holds.
#[derive(Debug, PartialEq, Eq)]
pub struct SizeReport {
    pub uncompressed: String,
    pub gzip: Option<String>,
    pub brotli: Option<String>,
}

/// The text of an estimate, where there is one.
pub open spec fn estimate_text(estimate: Option<usize>) -> Option<Seq<char>> {
    match estimate {
        Some(size) => Some(decimal_size_text(size)),
        None => None,
    }
}

/// The text of an optional text.
pub open spec fn text_view(text: Option<String>) -> Option<Seq<char>> {
    match text {
        Some(text) => Some(text@),
        None => None,
    }
}

/// A byte count as text in decimal units.
pub fn file_size_to_string(size: usize) -> (text: String)
    ensures
        text@ == decimal_size_text(size),
{
    decimal_size(size)
}

impl FileSizeInfo {
    /// The sizes of the measurement as text: the uncompressed size always,
    /// an estimate where the measurement has it.
    pub fn display(&self) -> (report: SizeReport)
        ensures
            report.uncompressed@ == decimal_size_text(self.uncompressed),
            text_view(report.gzip) == estimate_text(self.gzip),
            text_view(report.brotli) == estimate_text(self.brotli),
    {
        SizeReport {
            uncompressed: decimal_size(self.uncompressed),
            gzip: match self.gzip {
                Some(size) => Some(decimal_size(size)),
                None => None,
            },
            brotli: match self.brotli {
                Some(size) => Some(decimal_size(size)),
                None => None,
            },
        }
    }
}

/// Whether the path at position `a` comes before the path at position `b`
/// in the ranking: the smaller size first, and of two equal sizes the path
/// that was given first.
pub open spec fn ranks_before(sizes: Seq<usize>, a: int, b: int) -> bool {
    sizes[a] < sizes[b] || (sizes[a] == sizes[b] && a < b)
}

/// Whether `order` is the ranking of the paths with the given sizes: every
/// position once, each before all that it ranks before.
pub open spec fn is_ranking(sizes: Seq<usize>, order: Seq<usize>) -> bool {
    &&& order.len() == sizes.len()
    &&& forall|k: int| 0 <= k < order.len() ==> (#[trigger] order[k]) < sizes.len()
    &&& forall|a: int, b: int|
        0 <= a < b < order.len() ==> ranks_before(
            sizes,
            #[trigger] order[a] as int,
            #[trigger] order[b] as int,
        )
}

/// The positions of the paths from the smallest size to the largest. Paths
/// of equal size keep the order in which they were given.
pub fn rank_by_size(sizes: &Vec<usize>) -> (order: Vec<usize>)
    ensures
        is_ranking(sizes@, order@),
{
    let mut order: Vec<usize> = Vec::new();
    let mut next: usize = 0;
    while next < sizes.len()
        invariant
            next <= sizes.len(),
            order.len() == next,
            forall|k: int| 0 <= k < order.len() ==> (#[trigger] order[k]) < next,
            forall|a: int, b: int|
                0 <= a < b < order.len() ==> ranks_before(
                    sizes@,
                    #[trigger] order[a] as int,
                    #[trigger] order[b] as int,
                ),
        decreases sizes.len() - next,
    {
        let mut at: usize = 0;
        while at < order.len() && sizes[order[at]] <= sizes[next]
            invariant
                next < sizes.len(),
                order.len() == next,
                at <= order.len(),
                forall|k: int| 0 <= k < order.len() ==> (#[trigger] order[k]) < next,
                forall|k: int|
                    0 <= k < at ==> sizes[(#[trigger] order[k]) as int] <= sizes[next as int],
            decreases order.len() - at,
        {
            at = at + 1;
        }
        let ghost before = order@;
        order.insert(at, next);
        assert forall|a: int, b: int| 0 <= a < b < order.len() implies ranks_before(
            sizes@,
            #[trigger] order[a] as int,
            #[trigger] order[b] as int,
        ) by {
            if a < at && b > at {
                assert(ranks_before(sizes@, before[a] as int, before[b - 1] as int));
            } else if a < at && b == at {
            } else if a == at {
                if at < before.len() && b - 1 > at {
                    assert(ranks_before(sizes@, before[at as int] as int, before[b - 1] as int));
                }
            } else if a > at {
                assert(ranks_before(sizes@, before[a - 1] as int, before[b - 1] as int));
            } else {
                assert(ranks_before(sizes@, before[a] as int, before[b] as int));
            }
        }
        next = next + 1;
    }
    order
}

} // verus!
