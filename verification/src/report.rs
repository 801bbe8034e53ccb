//! The report on one file: how many reads it held and, for every query in
//! supply order, how many of them matched and what share of the file that is.

use crate::fraction::{MismatchFraction, Ratio};
use vstd::arithmetic::div_mod::{lemma_fundamental_div_mod, lemma_mod_bound};
use vstd::prelude::*;

verus! {

/// The share `count / total` as a percentage in hundredths of a percent
/// (`2000` stands for 20.00 %), rounded to the nearest hundredth with an exact
/// half rounded up. A file without reads has no percentage: `None`.
pub open spec fn spec_percentage_hundredths(count: nat, total: nat) -> Option<nat> {
    if total == 0 {
        None
    } else {
        Some(((20000 * count + total) / (2 * total)) as nat)
    }
}

/// The percentage of `count` in `total`, in hundredths of a percent; `None`
/// when `total` is zero.
pub fn percentage_hundredths(count: usize, total: usize) -> (percentage: Option<u32>)
    requires
        count <= total,
    ensures
        percentage_view(percentage) == spec_percentage_hundredths(count as nat, total as nat),
{
    if total == 0 {
        None
    } else {
        let top: u128 = 20000 * (count as u128) + (total as u128);
        let hundredths: u128 = top / (2 * (total as u128));
        proof {
            lemma_percentage_accuracy(count as nat, total as nat);
        }
        Some(hundredths as u32)
    }
}

/// A stored percentage as a plain value.
pub open spec fn percentage_view(percentage: Option<u32>) -> Option<nat> {
    match percentage {
        Some(h) => Some(h as nat),
        None => None,
    }
}

/// For a file with reads, the percentage in hundredths lies within half a
/// hundredth of the exact value `100 * count / total`, and never exceeds
/// 100.00 % when `count` is at most `total`.
pub proof fn lemma_percentage_accuracy(count: nat, total: nat)
    requires
        total > 0,
    ensures
        spec_percentage_hundredths(count, total) matches Some(h) && {
            &&& 2 * (h * total - 10000 * count) <= total
            &&& 2 * (10000 * count - h * total) < total
            &&& count <= total ==> h <= 10000
        },
{
    let top = (20000 * count + total) as int;
    let d = (2 * total) as int;
    let h = top / d;
    lemma_fundamental_div_mod(top, d);
    lemma_mod_bound(top, d);
    assert(d * h == 2 * (h * total)) by (nonlinear_arith)
        requires
            d == 2 * total,
    ;
    if count <= total {
        assert(h <= 10000) by (nonlinear_arith)
            requires
                d * h <= top,
                top == 20000 * count + total,
                d == 2 * total,
                count <= total,
                total > 0,
        ;
    }
}

/// The percentage of a file without reads is the sentinel `None`.
pub proof fn lemma_percentage_of_empty_file(count: nat)
    ensures
        spec_percentage_hundredths(count, 0) is None,
{
}

/// One line of a report, as plain values.
pub struct LineView {
    pub name: Seq<char>,
    pub sequence: Seq<char>,
    pub count: nat,
    pub percentage_hundredths: Option<nat>,
}

/// A report, as plain values.
pub struct ReportView {
    pub source: Seq<char>,
    pub total_reads: nat,
    pub mismatch: Ratio,
    pub lines: Seq<LineView>,
}

/// What a report says of one query.
#[derive(Debug)]
pub struct ReportLine {
    /// The query's name.
    pub name: String,
    /// The query's sequence in canonical case.
    pub sequence: String,
    /// How many reads of the file the query matched.
    pub count: usize,
    /// `count` as a share of the file's reads, in hundredths of a percent;
    /// `None` for a file without reads.
    pub percentage_hundredths: Option<u32>,
}

impl View for ReportLine {
    type V = LineView;

    open spec fn view(&self) -> LineView {
        LineView {
            name: self.name@,
            sequence: self.sequence@,
            count: self.count as nat,
            percentage_hundredths: percentage_view(self.percentage_hundredths),
        }
    }
}

/// The report on one file.
#[derive(Debug)]
pub struct FileReport {
    /// What the caller called the file.
    pub source: String,
    /// How many reads the file held.
    pub total_reads: usize,
    /// The tolerated mismatch fraction the file was judged under.
    pub mismatch: MismatchFraction,
    /// One line per supplied query, in supply order.
    pub lines: Vec<ReportLine>,
}

impl View for FileReport {
    type V = ReportView;

    open spec fn view(&self) -> ReportView {
        ReportView {
            source: self.source@,
            total_reads: self.total_reads as nat,
            mismatch: self.mismatch@,
            lines: Seq::new(self.lines@.len(), |k: int| self.lines@[k]@),
        }
    }
}

} // verus!
