//! The presenter: filters the ranked records by a CPU threshold and computes
//! the numeric fields of each table row. A record appears exactly when its
//! average CPU usage is at least the threshold; the comparison is exact
//! (cross-multiplied), and the boundary case of equality is included.

use vstd::prelude::*;

use crate::rank::{lemma_counts_positive_index, lemma_mul_u64_in_u128};
use crate::record::{counts_positive, record_views, unique_names, Process, RecordModel};

verus! {

/// One table row, with numeric fields; rendering them as text is the
/// caller's concern. The first field is called `pid` after the table's
/// column label, though it carries the process name.
pub struct Row {
    pub pid: String,
    /// Average CPU in centi-percent: `cpu_usage_sum / count`, truncated.
    pub avg_cpu_usage: u64,
    /// Latest CPU in centi-percent.
    pub cpu_usage: u32,
    /// Latest memory divided by 1024, then by the count (both truncating).
    pub avg_memory_usage: u64,
    /// Latest memory divided by 1024 (truncating).
    pub memory_usage: u64,
}

/// Mathematical view of a [`Row`].
pub struct RowModel {
    pub pid: Seq<char>,
    pub avg_cpu_usage: int,
    pub cpu_usage: int,
    pub avg_memory_usage: int,
    pub memory_usage: int,
}

impl View for Row {
    type V = RowModel;

    open spec fn view(&self) -> RowModel {
        RowModel {
            pid: self.pid@,
            avg_cpu_usage: self.avg_cpu_usage as int,
            cpu_usage: self.cpu_usage as int,
            avg_memory_usage: self.avg_memory_usage as int,
            memory_usage: self.memory_usage as int,
        }
    }
}

/// The views of a sequence of rows.
pub open spec fn row_views(s: Seq<Row>) -> Seq<RowModel> {
    s.map_values(|r: Row| r@)
}

/// The record clears the threshold: its exact average CPU
/// (`cpu_usage_sum / count`) is at least `threshold`, stated without
/// division. Equality counts as clearing it.
pub open spec fn emits(r: RecordModel, threshold: int) -> bool {
    r.cpu_usage_sum >= threshold * r.count
}

/// The row computed from a record: both averages are recomputed fresh from
/// the record's sums and count, never cached.
pub open spec fn row_of(r: RecordModel) -> RowModel {
    RowModel {
        pid: r.name,
        avg_cpu_usage: r.cpu_usage_sum / r.count,
        cpu_usage: r.cpu_usage,
        avg_memory_usage: (r.memory_usage / 1024) / r.count,
        memory_usage: r.memory_usage / 1024,
    }
}

/// The rows the presenter emits: one per record that clears the threshold,
/// in input order.
pub open spec fn rows_spec(s: Seq<RecordModel>, threshold: int) -> Seq<RowModel>
    decreases s.len(),
{
    if s.len() == 0 {
        Seq::<RowModel>::empty()
    } else {
        let rest = rows_spec(s.drop_last(), threshold);
        if emits(s.last(), threshold) {
            rest.push(row_of(s.last()))
        } else {
            rest
        }
    }
}

/// Compute the table rows for the ranked records: a row for each record
/// whose average CPU is at least `threshold` centi-percent, in order.
pub fn print_process_info(process_vec: &Vec<Process>, threshold: u32) -> (rows: Vec<Row>)
    requires
        counts_positive(record_views(process_vec@)),
    ensures
        row_views(rows@) == rows_spec(record_views(process_vec@), threshold as int),
{
    let ghost s = record_views(process_vec@);
    let mut rows: Vec<Row> = Vec::new();
    let mut i: usize = 0;
    while i < process_vec.len()
        invariant
            i <= process_vec@.len(),
            s == record_views(process_vec@),
            counts_positive(record_views(process_vec@)),
            row_views(rows@) == rows_spec(s.take(i as int), threshold as int),
        decreases process_vec@.len() - i,
    {
        proof {
            lemma_counts_positive_index(process_vec@, i as int);
            lemma_mul_u64_in_u128(threshold as int, process_vec@[i as int]@.count as int);
            assert(s[i as int] == process_vec@[i as int]@);
        }
        let ghost rows_pre = rows@;
        let info = process_vec[i].info;
        if (info.cpu_usage_sum as u128) >= (threshold as u128) * (info.count as u128) {
            proof {
                assert(emits(s[i as int], threshold as int));
            }
            let row = Row {
                pid: process_vec[i].pid.clone(),
                avg_cpu_usage: info.cpu_usage_sum / info.count,
                cpu_usage: info.cpu_usage,
                avg_memory_usage: (info.memory_usage / 1024) / info.count,
                memory_usage: info.memory_usage / 1024,
            };
            proof {
                assert(row@ == row_of(s[i as int]));
            }
            rows.push(row);
        } else {
            proof {
                assert(!emits(s[i as int], threshold as int));
            }
        }
        proof {
            assert(s.take(i + 1).drop_last() =~= s.take(i as int));
            assert(s.take(i + 1).last() == s[i as int]);
            if emits(s[i as int], threshold as int) {
                assert(row_views(rows@) =~= row_views(rows_pre).push(row_of(s[i as int])));
            } else {
                assert(rows@ == rows_pre);
            }
        }
        i += 1;
    }
    proof {
        assert(s.take(process_vec@.len() as int) =~= s);
    }
    rows
}

/// Every emitted row is computed fresh from some input record that clears
/// the threshold: its averages are that record's sums divided by its count,
/// taken at render time, never cached.
pub proof fn lemma_rows_from_records(s: Seq<RecordModel>, threshold: int, j: int)
    requires
        0 <= j < rows_spec(s, threshold).len(),
    ensures
        exists|k: int|
            0 <= k < s.len() && rows_spec(s, threshold)[j] == row_of(s[k]) && emits(
                s[k],
                threshold,
            ),
    decreases s.len(),
{
    let rows = rows_spec(s, threshold);
    let rest = rows_spec(s.drop_last(), threshold);
    if emits(s.last(), threshold) && j == rest.len() {
        assert(rows[j] == row_of(s[s.len() - 1]));
    } else {
        lemma_rows_from_records(s.drop_last(), threshold, j);
        let k = choose|k: int|
            0 <= k < s.drop_last().len() && rows_spec(s.drop_last(), threshold)[j] == row_of(
                s.drop_last()[k],
            ) && emits(s.drop_last()[k], threshold);
        assert(rows[j] == row_of(s[k]) && emits(s[k], threshold));
    }
}

/// A row is emitted for a record exactly when its average CPU clears the
/// threshold: under pairwise-distinct names, the record's name appears among
/// the emitted rows if and only if `emits` holds of it.
pub proof fn lemma_row_emitted_iff(s: Seq<RecordModel>, threshold: int, i: int)
    requires
        unique_names(s),
        0 <= i < s.len(),
    ensures
        emits(s[i], threshold) <==> exists|j: int|
            0 <= j < rows_spec(s, threshold).len() && rows_spec(s, threshold)[j].pid == s[i].name,
    decreases s.len(),
{
    let rows = rows_spec(s, threshold);
    let rest = rows_spec(s.drop_last(), threshold);
    if i == s.len() - 1 {
        if emits(s[i], threshold) {
            assert(rows[rest.len() as int].pid == s[i].name);
        } else {
            assert(rows == rest);
            if exists|j: int| 0 <= j < rows.len() && rows[j].pid == s[i].name {
                let j = choose|j: int| 0 <= j < rows.len() && rows[j].pid == s[i].name;
                lemma_rows_from_records(s.drop_last(), threshold, j);
                let k = choose|k: int|
                    0 <= k < s.drop_last().len() && rest[j] == row_of(s.drop_last()[k]) && emits(
                        s.drop_last()[k],
                        threshold,
                    );
                assert(s[k].name == s[i].name);
                assert(false);
            }
        }
    } else {
        assert(unique_names(s.drop_last()));
        assert(s.drop_last()[i] == s[i]);
        lemma_row_emitted_iff(s.drop_last(), threshold, i);
        if emits(s[i], threshold) {
            let j = choose|j: int| 0 <= j < rest.len() && rest[j].pid == s[i].name;
            assert(rows[j].pid == s[i].name);
        } else {
            if exists|j: int| 0 <= j < rows.len() && rows[j].pid == s[i].name {
                let j = choose|j: int| 0 <= j < rows.len() && rows[j].pid == s[i].name;
                if emits(s.last(), threshold) && j == rest.len() {
                    assert(rows[j].pid == s[s.len() - 1].name);
                    assert(s[i].name != s[s.len() - 1].name);
                    assert(false);
                } else {
                    assert(rest[j].pid == s[i].name);
                    assert(false);
                }
            }
        }
    }
}

} // verus!
