//! Data model: one OS sample of a single process, and the accumulated
//! per-process-name record built from all samples seen so far.

use vstd::prelude::*;

verus! {

/// One OS-reported snapshot of a single process: its executable name, its
/// instantaneous CPU usage in centi-percent, and its resident memory.
pub struct Sample {
    pub name: String,
    /// CPU usage in hundredths of a percent (centi-percent).
    pub cpu_usage: u32,
    /// Resident memory, in the unit the sampler reports (bytes).
    pub memory_usage: u64,
}

/// Mathematical view of a [`Sample`].
pub struct SampleModel {
    pub name: Seq<char>,
    pub cpu_usage: int,
    pub memory_usage: int,
}

impl View for Sample {
    type V = SampleModel;

    open spec fn view(&self) -> SampleModel {
        SampleModel {
            name: self.name@,
            cpu_usage: self.cpu_usage as int,
            memory_usage: self.memory_usage as int,
        }
    }
}

/// Accumulated statistics for one process name. Sums saturate at `u64::MAX`
/// instead of wrapping.
#[derive(Clone, Copy)]
pub struct ProcessInfo {
    /// Running sum of CPU centi-percent over every sample seen for this name.
    pub cpu_usage_sum: u64,
    /// CPU centi-percent of the most recent sample.
    pub cpu_usage: u32,
    /// Running sum of resident memory over every sample seen for this name.
    pub memory_usage_sum: u64,
    /// Resident memory of the most recent sample.
    pub memory_usage: u64,
    /// Number of samples folded into this record.
    pub count: u64,
}

/// One entry of the aggregate: a process name together with its record.
/// The field is called `pid` after the table's first column, though it holds
/// the process name, not a numeric identifier.
pub struct Process {
    pub pid: String,
    pub info: ProcessInfo,
}

/// Mathematical view of a [`Process`]: the same fields over `int`.
pub struct RecordModel {
    pub name: Seq<char>,
    pub cpu_usage_sum: int,
    pub cpu_usage: int,
    pub memory_usage_sum: int,
    pub memory_usage: int,
    pub count: int,
}

impl View for Process {
    type V = RecordModel;

    open spec fn view(&self) -> RecordModel {
        RecordModel {
            name: self.pid@,
            cpu_usage_sum: self.info.cpu_usage_sum as int,
            cpu_usage: self.info.cpu_usage as int,
            memory_usage_sum: self.info.memory_usage_sum as int,
            memory_usage: self.info.memory_usage as int,
            count: self.info.count as int,
        }
    }
}

/// The views of a sequence of processes.
pub open spec fn record_views(s: Seq<Process>) -> Seq<RecordModel> {
    s.map_values(|p: Process| p@)
}

/// The views of a sequence of samples.
pub open spec fn sample_views(s: Seq<Sample>) -> Seq<SampleModel> {
    s.map_values(|x: Sample| x@)
}

/// No two entries carry the same name.
pub open spec fn unique_names(entries: Seq<RecordModel>) -> bool {
    forall|i: int, j: int|
        0 <= i < j < entries.len() ==> entries[i].name != entries[j].name
}

/// Every record has folded in at least one sample.
pub open spec fn counts_positive(entries: Seq<RecordModel>) -> bool {
    forall|i: int| 0 <= i < entries.len() ==> #[trigger] entries[i].count >= 1
}

/// Two process sequences with the same contents have views with the same
/// contents: taking views respects reordering.
pub proof fn lemma_record_views_multiset(s: Seq<Process>, t: Seq<Process>)
    requires
        s.to_multiset() == t.to_multiset(),
    ensures
        record_views(s).to_multiset() == record_views(t).to_multiset(),
    decreases s.len(),
{
    broadcast use vstd::seq_lib::group_to_multiset_ensures;

    if s.len() == 0 {
        assert(s.to_multiset().len() == s.len());
        assert(t.to_multiset().len() == t.len());
        assert(t.len() == 0);
        assert(record_views(s).to_multiset() =~= record_views(t).to_multiset());
    } else {
        let x = s[0];
        assert(s.contains(x));
        assert(t.to_multiset().count(x) > 0);
        assert(t.contains(x));
        let i = choose|i: int| 0 <= i < t.len() && t[i] == x;
        assert(s.remove(0).to_multiset() == s.to_multiset().remove(x));
        assert(t.remove(i).to_multiset() == t.to_multiset().remove(x));
        lemma_record_views_multiset(s.remove(0), t.remove(i));
        assert(record_views(s) =~= record_views(s.remove(0)).insert(0, x@));
        assert(record_views(t) =~= record_views(t.remove(i)).insert(i, x@));
        assert(record_views(s.remove(0)).insert(0, x@).to_multiset() == record_views(
            s.remove(0),
        ).to_multiset().insert(x@));
        assert(record_views(t.remove(i)).insert(i, x@).to_multiset() == record_views(
            t.remove(i),
        ).to_multiset().insert(x@));
    }
}

} // verus!
