//! A small process-monitor core: per-name aggregation of CPU and memory
//! samples, ranking by average CPU usage, and threshold-filtered table rows.
//!
//! CPU percentages are carried as integers in hundredths of a percent
//! (centi-percent), so `5.00%` is the value `500`.

pub mod aggregate;
pub mod config;
pub mod fmt;
pub mod present;
pub mod rank;
pub mod record;

use vstd::prelude::*;

use crate::aggregate::{fold_samples, Aggregator};
use crate::present::{print_process_info, row_views, rows_spec, Row};
use crate::rank::{sort_by_cpu_usage, sorted_desc};
use crate::record::{lemma_record_views_multiset, record_views, sample_views, Process, Sample};

verus! {

/// One refresh cycle: fold the cycle's samples into the aggregate, rank a
/// snapshot of every record by descending average CPU, and compute the table
/// rows for the records whose average clears the threshold. Returns the
/// ranked snapshot and its rows.
pub fn run_cycle(aggregator: &mut Aggregator, samples: &Vec<Sample>, threshold: u32) -> (out: (
    Vec<Process>,
    Vec<Row>,
))
    requires
        old(aggregator).wf(),
    ensures
        final(aggregator).wf(),
        final(aggregator)@ == fold_samples(old(aggregator)@, sample_views(samples@)),
        record_views(out.0@).to_multiset() == final(aggregator)@.to_multiset(),
        sorted_desc(record_views(out.0@)),
        row_views(out.1@) == rows_spec(record_views(out.0@), threshold as int),
{
    aggregator.update_process_info(samples);
    let mut ranked = aggregator.snapshot();
    let ghost snap = ranked@;
    sort_by_cpu_usage(&mut ranked);
    proof {
        lemma_record_views_multiset(ranked@, snap);
    }
    let rows = print_process_info(&ranked, threshold);
    (ranked, rows)
}

} // verus!
