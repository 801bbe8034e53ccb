//! Aggregation over one file: every read is held against every registered
//! query, the counts are reported, and the registry is reset for the next
//! file.

use crate::fraction::{MismatchFraction, Ratio};
use crate::registry::{hit, snapshot_view, QueryRegistry, RegistryView};
use crate::report::{
    percentage_hundredths,
    spec_percentage_hundredths,
    FileReport,
    LineView,
    ReportLine,
    ReportView,
};
use crate::text::{normalize_read, normalized_all, raw_view};
use vstd::prelude::*;

verus! {

/// How many of `reads` the sequence matches under `fraction`.
pub open spec fn hits(reads: Seq<Seq<char>>, sequence: Seq<char>, fraction: Ratio) -> nat
    decreases reads.len(),
{
    if reads.len() == 0 {
        0
    } else {
        hits(reads.drop_last(), sequence, fraction) + hit(reads.last(), sequence, fraction)
    }
}

/// The registry after all of `reads` were tallied, first to last.
pub open spec fn tallied_all(registry: RegistryView, reads: Seq<Seq<char>>, fraction: Ratio)
    -> RegistryView
    decreases reads.len(),
{
    if reads.len() == 0 {
        registry
    } else {
        tallied_all(registry, reads.drop_last(), fraction).tallied(reads.last(), fraction)
    }
}

/// The report on a file of `total_reads` reads, drawn from the counts that
/// `registry` holds: one line per supplied query, in supply order.
pub open spec fn report_from(
    source: Seq<char>,
    total_reads: nat,
    registry: RegistryView,
    fraction: Ratio,
) -> ReportView {
    ReportView {
        source,
        total_reads,
        mismatch: fraction,
        lines: Seq::new(
            registry.order.len(),
            |k: int|
                LineView {
                    name: registry.order[k],
                    sequence: registry.entries[registry.order[k]].sequence,
                    count: registry.entries[registry.order[k]].count,
                    percentage_hundredths: spec_percentage_hundredths(
                        registry.entries[registry.order[k]].count,
                        total_reads,
                    ),
                },
        ),
    }
}

/// The report on a file that holds exactly `reads`, for a registry whose
/// counts were zero before the file: one line per supplied query, in supply
/// order, whose count is the number of reads that the query's sequence
/// matches, with that count as a percentage of all reads.
pub open spec fn report_of(
    source: Seq<char>,
    registry: RegistryView,
    reads: Seq<Seq<char>>,
    fraction: Ratio,
) -> ReportView {
    ReportView {
        source,
        total_reads: reads.len(),
        mismatch: fraction,
        lines: Seq::new(
            registry.order.len(),
            |k: int|
                LineView {
                    name: registry.order[k],
                    sequence: registry.entries[registry.order[k]].sequence,
                    count: hits(reads, registry.entries[registry.order[k]].sequence, fraction),
                    percentage_hundredths: spec_percentage_hundredths(
                        hits(reads, registry.entries[registry.order[k]].sequence, fraction),
                        reads.len(),
                    ),
                },
        ),
    }
}

/// Reads in canonical case, as plain values.
pub open spec fn reads_view(reads: Seq<Vec<char>>) -> Seq<Seq<char>> {
    Seq::new(reads.len(), |i: int| reads[i]@)
}

/// Tallying reads changes neither order nor names nor sequences, and raises
/// each count by the number of reads its sequence matches.
pub proof fn lemma_tallied_all(registry: RegistryView, reads: Seq<Seq<char>>, fraction: Ratio)
    ensures
        tallied_all(registry, reads, fraction).order == registry.order,
        forall|name: Seq<char>|
            tallied_all(registry, reads, fraction).entries.contains_key(name)
                <==> registry.entries.contains_key(name),
        forall|name: Seq<char>| #[trigger]
            registry.entries.contains_key(name) ==> {
                let after = tallied_all(registry, reads, fraction).entries[name];
                &&& after.sequence == registry.entries[name].sequence
                &&& after.count == registry.entries[name].count + hits(
                    reads,
                    registry.entries[name].sequence,
                    fraction,
                )
            },
    decreases reads.len(),
{
    if reads.len() > 0 {
        lemma_tallied_all(registry, reads.drop_last(), fraction);
    }
}

/// A sequence matches at most as many reads as there are.
pub proof fn lemma_hits_bounded(reads: Seq<Seq<char>>, sequence: Seq<char>, fraction: Ratio)
    ensures
        hits(reads, sequence, fraction) <= reads.len(),
    decreases reads.len(),
{
    if reads.len() > 0 {
        lemma_hits_bounded(reads.drop_last(), sequence, fraction);
    }
}

/// After a file was tallied into a reset registry, every count is the number
/// of the file's reads that the entry's sequence matches, and so at most the
/// number of reads.
pub proof fn lemma_counts_after_file(
    registry: RegistryView,
    reads: Seq<Seq<char>>,
    fraction: Ratio,
)
    requires
        registry.is_reset(),
    ensures
        tallied_all(registry, reads, fraction).counts_below(reads.len() + 1),
        forall|name: Seq<char>| #[trigger]
            registry.entries.contains_key(name) ==> tallied_all(
                registry,
                reads,
                fraction,
            ).entries[name].count == hits(reads, registry.entries[name].sequence, fraction),
{
    lemma_tallied_all(registry, reads, fraction);
    let after = tallied_all(registry, reads, fraction);
    assert forall|name: Seq<char>| after.entries.contains_key(name) implies (
    #[trigger] after.entries[name]).count < reads.len() + 1 by {
        assert(registry.entries.contains_key(name));
        lemma_hits_bounded(reads, registry.entries[name].sequence, fraction);
    }
}

/// Resetting after a file brings a registry whose counts were zero before the
/// file back to exactly what it was: nothing of the file's reads is left to
/// influence the next file.
pub proof fn lemma_reset_forgets_file(
    registry: RegistryView,
    reads: Seq<Seq<char>>,
    fraction: Ratio,
)
    requires
        registry.is_reset(),
    ensures
        tallied_all(registry, reads, fraction).reset() == registry,
{
    lemma_tallied_all(registry, reads, fraction);
    let after = tallied_all(registry, reads, fraction).reset();
    assert(after.entries =~= registry.entries);
}

/// The report drawn from the counts after a file was tallied into a reset
/// registry is the report on that file.
pub proof fn lemma_report_after_file(
    source: Seq<char>,
    registry: RegistryView,
    reads: Seq<Seq<char>>,
    fraction: Ratio,
)
    requires
        registry.is_reset(),
        registry.consistent(),
    ensures
        report_from(source, reads.len(), tallied_all(registry, reads, fraction), fraction)
            == report_of(source, registry, reads, fraction),
{
    lemma_tallied_all(registry, reads, fraction);
    let drawn = report_from(source, reads.len(), tallied_all(registry, reads, fraction), fraction);
    let expected = report_of(source, registry, reads, fraction);
    assert forall|k: int| 0 <= k < registry.order.len() implies drawn.lines[k]
        == expected.lines[k] by {
        assert(registry.order.contains(registry.order[k]));
        assert(registry.entries.contains_key(registry.order[k]));
    }
    assert(drawn.lines =~= expected.lines);
}

/// A file's report does not depend on the files before it: once a first file
/// was tallied and the registry reset, the report on a second file is the one
/// it would get from the registry as it was before the first.
pub proof fn lemma_files_are_independent(
    registry: RegistryView,
    first: Seq<Seq<char>>,
    second: Seq<Seq<char>>,
    source: Seq<char>,
    fraction: Ratio,
)
    requires
        registry.is_reset(),
    ensures
        report_of(source, tallied_all(registry, first, fraction).reset(), second, fraction)
            == report_of(source, registry, second, fraction),
{
    lemma_reset_forgets_file(registry, first, fraction);
}

/// Ends a file: draws the report on `total_reads` reads from the counts the
/// registry holds, then resets every count for the next file.
pub fn conclude(
    source: &str,
    total_reads: usize,
    registry: &mut QueryRegistry,
    fraction: &MismatchFraction,
) -> (report: FileReport)
    requires
        old(registry).wf(),
        old(registry)@.counts_below(total_reads as nat + 1),
    ensures
        final(registry).wf(),
        final(registry)@ == old(registry)@.reset(),
        report@ == report_from(source@, total_reads as nat, old(registry)@, fraction@),
{
    let rows = registry.snapshot_in_order();
    let ghost view = registry@;
    let mut lines: Vec<ReportLine> = Vec::new();
    let mut k: usize = 0;
    proof {
        registry.lemma_wf_consistent();
    }
    while k < rows.len()
        invariant
            k <= rows@.len(),
            rows@.len() == view.order.len(),
            snapshot_view(rows@) == view.snapshot(),
            view.consistent(),
            view.counts_below(total_reads as nat + 1),
            lines@.len() == k,
            forall|m: int|
                0 <= m < k ==> (#[trigger] lines@[m])@ == report_from(
                    source@,
                    total_reads as nat,
                    view,
                    fraction@,
                ).lines[m],
        decreases rows@.len() - k,
    {
        proof {
            let row = snapshot_view(rows@)[k as int];
            assert(row == view.snapshot()[k as int]);
            assert(view.order.contains(view.order[k as int]));
            assert(view.entries.contains_key(view.order[k as int]));
        }
        let count = rows[k].count;
        let line = ReportLine {
            name: rows[k].name.clone(),
            sequence: rows[k].sequence.clone(),
            count,
            percentage_hundredths: percentage_hundredths(count, total_reads),
        };
        lines.push(line);
        k = k + 1;
    }
    registry.reset_all();
    let report = FileReport {
        source: source.to_owned(),
        total_reads,
        mismatch: *fraction,
        lines,
    };
    assert(report@.lines =~= report_from(source@, total_reads as nat, view, fraction@).lines);
    report
}

/// Processes one file given as its reads in canonical case: tallies every
/// read against every query, reports, and resets the registry. The registry
/// must come in with every count at zero, as it is after `build` and after
/// every file; it goes out unchanged.
pub fn process_reads(
    source: &str,
    reads: &[Vec<char>],
    registry: &mut QueryRegistry,
    fraction: &MismatchFraction,
) -> (report: FileReport)
    requires
        old(registry).wf(),
        old(registry)@.is_reset(),
    ensures
        final(registry).wf(),
        final(registry)@ == old(registry)@,
        report@ == report_of(source@, old(registry)@, reads_view(reads@), fraction@),
{
    let ghost start = registry@;
    let ghost all = reads_view(reads@);
    proof {
        registry.lemma_wf_consistent();
    }
    let mut total_reads: usize = 0;
    while total_reads < reads.len()
        invariant
            total_reads <= reads@.len(),
            all == reads_view(reads@),
            registry.wf(),
            start.is_reset(),
            registry@ == tallied_all(start, all.take(total_reads as int), fraction@),
        decreases reads@.len() - total_reads,
    {
        proof {
            lemma_counts_after_file(start, all.take(total_reads as int), fraction@);
            assert(all.take(total_reads + 1).drop_last() =~= all.take(total_reads as int));
        }
        registry.tally(reads[total_reads].as_slice(), fraction);
        total_reads = total_reads + 1;
    }
    proof {
        assert(all.take(total_reads as int) =~= all);
        lemma_counts_after_file(start, all, fraction@);
        lemma_reset_forgets_file(start, all, fraction@);
        lemma_report_after_file(source@, start, all, fraction@);
    }
    conclude(source, total_reads, registry, fraction)
}

/// Processes one file given as its raw reads: each read is brought to
/// canonical case, then the file is handled as by [`process_reads`].
pub fn process_sequences(
    source: &str,
    raw_reads: &[Vec<u8>],
    registry: &mut QueryRegistry,
    fraction: &MismatchFraction,
) -> (report: FileReport)
    requires
        old(registry).wf(),
        old(registry)@.is_reset(),
    ensures
        final(registry).wf(),
        final(registry)@ == old(registry)@,
        report@ == report_of(
            source@,
            old(registry)@,
            normalized_all(raw_view(raw_reads@)),
            fraction@,
        ),
{
    let ghost start = registry@;
    let ghost all = normalized_all(raw_view(raw_reads@));
    proof {
        registry.lemma_wf_consistent();
    }
    let mut total_reads: usize = 0;
    while total_reads < raw_reads.len()
        invariant
            total_reads <= raw_reads@.len(),
            all == normalized_all(raw_view(raw_reads@)),
            registry.wf(),
            start.is_reset(),
            registry@ == tallied_all(start, all.take(total_reads as int), fraction@),
        decreases raw_reads@.len() - total_reads,
    {
        proof {
            lemma_counts_after_file(start, all.take(total_reads as int), fraction@);
            assert(all.take(total_reads + 1).drop_last() =~= all.take(total_reads as int));
        }
        let read = normalize_read(raw_reads[total_reads].as_slice());
        registry.tally(read.as_slice(), fraction);
        total_reads = total_reads + 1;
    }
    proof {
        assert(all.take(total_reads as int) =~= all);
        lemma_counts_after_file(start, all, fraction@);
        lemma_reset_forgets_file(start, all, fraction@);
        lemma_report_after_file(source@, start, all, fraction@);
    }
    conclude(source, total_reads, registry, fraction)
}

} // verus!
