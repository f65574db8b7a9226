//! The aggregator: folds each OS sample into a running per-process-name
//! record. A record is created on first sighting of a name and never removed;
//! the aggregate only grows.

use vstd::prelude::*;

use crate::record::{
    counts_positive, record_views, sample_views, unique_names, Process, ProcessInfo, RecordModel,
    Sample, SampleModel,
};

verus! {

/// Addition that saturates at `u64::MAX`, the arithmetic the running sums use.
pub open spec fn sat_sum(a: int, b: int) -> int {
    if a + b > u64::MAX {
        u64::MAX as int
    } else {
        a + b
    }
}

/// Some entry carries this name.
pub open spec fn has_name(entries: Seq<RecordModel>, name: Seq<char>) -> bool {
    exists|i: int| 0 <= i < entries.len() && entries[i].name == name
}

/// The index of the entry carrying this name (meaningful only under
/// [`has_name`]; unique under [`unique_names`]).
pub open spec fn name_index(entries: Seq<RecordModel>, name: Seq<char>) -> int {
    choose|i: int| 0 <= i < entries.len() && entries[i].name == name
}

/// The record a first sample creates: zero-initialized, then the sample
/// folded in once.
pub open spec fn new_record(s: SampleModel) -> RecordModel {
    RecordModel {
        name: s.name,
        cpu_usage_sum: s.cpu_usage,
        cpu_usage: s.cpu_usage,
        memory_usage_sum: s.memory_usage,
        memory_usage: s.memory_usage,
        count: 1,
    }
}

/// One sample folded into an existing record: sums grow (saturating),
/// latest values are overwritten, the count goes up by one.
pub open spec fn bump(r: RecordModel, s: SampleModel) -> RecordModel {
    RecordModel {
        name: r.name,
        cpu_usage_sum: sat_sum(r.cpu_usage_sum, s.cpu_usage),
        cpu_usage: s.cpu_usage,
        memory_usage_sum: sat_sum(r.memory_usage_sum, s.memory_usage),
        memory_usage: s.memory_usage,
        count: sat_sum(r.count, 1),
    }
}

/// The aggregate after folding in one sample: update the entry with the
/// sample's name, or append a fresh record if the name is new.
pub open spec fn fold_one(entries: Seq<RecordModel>, s: SampleModel) -> Seq<RecordModel> {
    if has_name(entries, s.name) {
        let i = name_index(entries, s.name);
        entries.update(i, bump(entries[i], s))
    } else {
        entries.push(new_record(s))
    }
}

/// The aggregate after folding in a whole cycle of samples, in order.
pub open spec fn fold_samples(entries: Seq<RecordModel>, samples: Seq<SampleModel>) -> Seq<
    RecordModel,
>
    decreases samples.len(),
{
    if samples.len() == 0 {
        entries
    } else {
        fold_samples(fold_one(entries, samples.first()), samples.drop_first())
    }
}

/// The sample count recorded for a name: its record's count, or zero where
/// no record exists.
pub open spec fn count_for(entries: Seq<RecordModel>, name: Seq<char>) -> int {
    if has_name(entries, name) {
        entries[name_index(entries, name)].count
    } else {
        0
    }
}

/// How many samples in the sequence carry this name.
pub open spec fn occurrences(samples: Seq<SampleModel>, name: Seq<char>) -> int
    decreases samples.len(),
{
    if samples.len() == 0 {
        0
    } else {
        (if samples.first().name == name {
            1int
        } else {
            0int
        }) + occurrences(samples.drop_first(), name)
    }
}

/// Under pairwise-distinct names, [`name_index`] picks exactly the index
/// whose entry carries the name.
proof fn lemma_name_index_is(e: Seq<RecordModel>, name: Seq<char>, i: int)
    requires
        unique_names(e),
        0 <= i < e.len(),
        e[i].name == name,
    ensures
        has_name(e, name),
        name_index(e, name) == i,
{
    assert(has_name(e, name));
    let j = name_index(e, name);
    assert(0 <= j < e.len() && e[j].name == name);
    if j < i {
        assert(e[j].name != e[i].name);
    }
    if i < j {
        assert(e[i].name != e[j].name);
    }
}

/// The position of the first entry whose name equals `name`, if any.
fn find_name(entries: &Vec<Process>, name: &String) -> (r: Option<usize>)
    ensures
        match r {
            Some(i) => 0 <= i < entries@.len() && entries@[i as int]@.name == name@ && (forall|
                k: int,
            |
                0 <= k < i ==> #[trigger] entries@[k]@.name != name@),
            None => forall|k: int|
                0 <= k < entries@.len() ==> #[trigger] entries@[k]@.name != name@,
        },
{
    let mut i: usize = 0;
    while i < entries.len()
        invariant
            i <= entries@.len(),
            forall|k: int| 0 <= k < i ==> #[trigger] entries@[k]@.name != name@,
        decreases entries@.len() - i,
    {
        if entries[i].pid == *name {
            return Some(i);
        }
        i += 1;
    }
    None
}

/// The per-name aggregate: a growing map from process name to its record,
/// kept as a vector with pairwise-distinct names.
pub struct Aggregator {
    entries: Vec<Process>,
}

impl Aggregator {
    /// The aggregate as a sequence of record views, in insertion order.
    pub closed spec fn view(&self) -> Seq<RecordModel> {
        record_views(self.entries@)
    }

    /// Well-formedness: names are pairwise distinct and every record has
    /// absorbed at least one sample.
    pub open spec fn wf(&self) -> bool {
        unique_names(self@) && counts_positive(self@)
    }

    /// A fresh, empty aggregate.
    pub fn new() -> (r: Aggregator)
        ensures
            r@ == Seq::<RecordModel>::empty(),
            r.wf(),
    {
        let r = Aggregator { entries: Vec::new() };
        proof {
            assert(r@ =~= Seq::<RecordModel>::empty());
        }
        r
    }

    /// Fold a single sample into the aggregate.
    pub fn fold_sample(&mut self, s: &Sample)
        requires
            old(self).wf(),
        ensures
            final(self).wf(),
            final(self)@ == fold_one(old(self)@, s@),
    {
        let ghost pre = self@;
        match find_name(&self.entries, &s.name) {
            Some(i) => {
                proof {
                    assert(pre[i as int].name == s@.name);
                    lemma_name_index_is(pre, s@.name, i as int);
                }
                let info = self.entries[i].info;
                let updated = ProcessInfo {
                    cpu_usage_sum: info.cpu_usage_sum.saturating_add(s.cpu_usage as u64),
                    cpu_usage: s.cpu_usage,
                    memory_usage_sum: info.memory_usage_sum.saturating_add(s.memory_usage),
                    memory_usage: s.memory_usage,
                    count: info.count.saturating_add(1),
                };
                self.entries[i].info = updated;
                proof {
                    assert(self@ =~= pre.update(i as int, bump(pre[i as int], s@)));
                    assert(forall|a: int, b: int|
                        0 <= a < b < self@.len() ==> self@[a].name == pre[a].name && self@[b].name
                            == pre[b].name);
                }
            },
            None => {
                proof {
                    assert(!has_name(pre, s@.name));
                }
                let fresh = Process {
                    pid: s.name.clone(),
                    info: ProcessInfo {
                        cpu_usage_sum: s.cpu_usage as u64,
                        cpu_usage: s.cpu_usage,
                        memory_usage_sum: s.memory_usage,
                        memory_usage: s.memory_usage,
                        count: 1,
                    },
                };
                self.entries.push(fresh);
                proof {
                    assert(self@ =~= pre.push(new_record(s@)));
                    assert(forall|k: int|
                        0 <= k < pre.len() ==> #[trigger] self@[k].name == pre[k].name);
                }
            },
        }
    }

    /// Fold a whole cycle of samples into the aggregate, in order.
    pub fn update_process_info(&mut self, samples: &Vec<Sample>)
        requires
            old(self).wf(),
        ensures
            final(self).wf(),
            final(self)@ == fold_samples(old(self)@, sample_views(samples@)),
    {
        let ghost pre = self@;
        let ghost svs = sample_views(samples@);
        let mut i: usize = 0;
        while i < samples.len()
            invariant
                self.wf(),
                i <= samples@.len(),
                svs == sample_views(samples@),
                self@ == fold_samples(pre, svs.take(i as int)),
            decreases samples@.len() - i,
        {
            self.fold_sample(&samples[i]);
            proof {
                assert(svs.take(i as int).push(svs[i as int]) =~= svs.take(i + 1));
                lemma_fold_samples_push(pre, svs.take(i as int), svs[i as int]);
                assert(svs[i as int] == samples@[i as int]@);
            }
            i += 1;
        }
        proof {
            assert(svs.take(samples@.len() as int) =~= svs);
        }
    }

    /// A copy of every entry, in insertion order, for ranking and rendering.
    pub fn snapshot(&self) -> (r: Vec<Process>)
        ensures
            record_views(r@) == self@,
    {
        let mut r: Vec<Process> = Vec::new();
        let mut i: usize = 0;
        while i < self.entries.len()
            invariant
                i <= self.entries@.len(),
                r@.len() == i,
                forall|k: int| 0 <= k < i ==> #[trigger] r@[k]@ == self@[k],
            decreases self.entries@.len() - i,
        {
            let p = Process { pid: self.entries[i].pid.clone(), info: self.entries[i].info };
            proof {
                assert(p@ == self@[i as int]);
            }
            r.push(p);
            i += 1;
        }
        proof {
            assert(record_views(r@) =~= self@);
        }
        r
    }
}

/// Folding a sample sequence extended by one more sample is folding the
/// sequence, then the extra sample.
pub proof fn lemma_fold_samples_push(e: Seq<RecordModel>, s: Seq<SampleModel>, x: SampleModel)
    ensures
        fold_samples(e, s.push(x)) == fold_one(fold_samples(e, s), x),
    decreases s.len(),
{
    reveal_with_fuel(fold_samples, 3);
    if s.len() == 0 {
        assert(s.push(x).first() == x);
        assert(s.push(x).drop_first() =~= Seq::<SampleModel>::empty());
    } else {
        assert(s.push(x).first() == s.first());
        assert(s.push(x).drop_first() =~= s.drop_first().push(x));
        lemma_fold_samples_push(fold_one(e, s.first()), s.drop_first(), x);
    }
}

/// Folding one sample keeps names pairwise distinct and counts positive.
pub proof fn lemma_fold_one_preserves_wf(e: Seq<RecordModel>, s: SampleModel)
    requires
        unique_names(e),
        counts_positive(e),
    ensures
        unique_names(fold_one(e, s)),
        counts_positive(fold_one(e, s)),
{
    if has_name(e, s.name) {
        let j = name_index(e, s.name);
        assert(0 <= j < e.len() && e[j].name == s.name);
        let e2 = e.update(j, bump(e[j], s));
        assert(forall|k: int| 0 <= k < e2.len() ==> #[trigger] e2[k].name == e[k].name);
        assert(counts_positive(e2)) by {
            assert(forall|k: int|
                0 <= k < e2.len() && k != j ==> #[trigger] e2[k].count == e[k].count);
        }
    } else {
        let e2 = e.push(new_record(s));
        assert(forall|k: int| 0 <= k < e.len() ==> #[trigger] e2[k].name == e[k].name);
        assert(forall|k: int| 0 <= k < e.len() ==> #[trigger] e[k].name != s.name);
        assert(counts_positive(e2)) by {
            assert(forall|k: int| 0 <= k < e.len() ==> #[trigger] e2[k].count == e[k].count);
        }
    }
}

/// Folding one sample raises the recorded count of the sample's own name by
/// one (saturating) and leaves every other name's count unchanged.
pub proof fn lemma_fold_one_count(e: Seq<RecordModel>, s: SampleModel, name: Seq<char>)
    requires
        unique_names(e),
    ensures
        count_for(fold_one(e, s), name) == (if s.name == name {
            sat_sum(count_for(e, name), 1)
        } else {
            count_for(e, name)
        }),
{
    if has_name(e, s.name) {
        let j = name_index(e, s.name);
        assert(0 <= j < e.len() && e[j].name == s.name);
        lemma_name_index_is(e, s.name, j);
        let e2 = e.update(j, bump(e[j], s));
        assert(fold_one(e, s) == e2);
        assert(forall|k: int| 0 <= k < e2.len() ==> #[trigger] e2[k].name == e[k].name);
        assert(unique_names(e2));
        if s.name == name {
            lemma_name_index_is(e2, name, j);
            assert(count_for(e2, name) == e2[j].count);
        } else {
            if has_name(e, name) {
                let k = name_index(e, name);
                assert(0 <= k < e.len() && e[k].name == name);
                assert(k != j);
                lemma_name_index_is(e2, name, k);
                assert(e2[k] == e[k]);
            } else {
                assert(!has_name(e2, name)) by {
                    if has_name(e2, name) {
                        let k = name_index(e2, name);
                        assert(0 <= k < e2.len() && e2[k].name == name);
                        assert(e[k].name == name);
                    }
                }
            }
        }
    } else {
        let e2 = e.push(new_record(s));
        assert(fold_one(e, s) == e2);
        assert(forall|k: int| 0 <= k < e.len() ==> #[trigger] e2[k].name == e[k].name);
        assert(forall|k: int| 0 <= k < e.len() ==> #[trigger] e[k].name != s.name);
        assert(unique_names(e2));
        if s.name == name {
            assert(!has_name(e, name));
            assert(e2[e.len() as int].name == name);
            lemma_name_index_is(e2, name, e.len() as int);
            assert(count_for(e2, name) == 1);
            assert(count_for(e, name) == 0);
        } else {
            if has_name(e, name) {
                let k = name_index(e, name);
                assert(0 <= k < e.len() && e[k].name == name);
                lemma_name_index_is(e2, name, k);
                assert(e2[k] == e[k]);
            } else {
                assert(!has_name(e2, name)) by {
                    if has_name(e2, name) {
                        let k = name_index(e2, name);
                        assert(0 <= k < e2.len() && e2[k].name == name);
                        assert(k != e.len());
                        assert(e[k].name == name);
                    }
                }
            }
        }
    }
}

/// A name occurs a non-negative number of times in any sample sequence.
pub proof fn lemma_occurrences_nonneg(samples: Seq<SampleModel>, name: Seq<char>)
    ensures
        occurrences(samples, name) >= 0,
    decreases samples.len(),
{
    if samples.len() > 0 {
        lemma_occurrences_nonneg(samples.drop_first(), name);
    }
}

/// For every sequence of samples fed to the aggregate, the recorded sample
/// count of a name grows by exactly the number of samples observed under
/// that name, as long as the count does not saturate at `u64::MAX`.
pub proof fn lemma_sample_count(e: Seq<RecordModel>, samples: Seq<SampleModel>, name: Seq<char>)
    requires
        unique_names(e),
        counts_positive(e),
        count_for(e, name) + occurrences(samples, name) <= u64::MAX,
    ensures
        count_for(fold_samples(e, samples), name) == count_for(e, name) + occurrences(
            samples,
            name,
        ),
    decreases samples.len(),
{
    if samples.len() > 0 {
        let s0 = samples.first();
        let rest = samples.drop_first();
        lemma_fold_one_count(e, s0, name);
        lemma_fold_one_preserves_wf(e, s0);
        lemma_occurrences_nonneg(rest, name);
        if s0.name == name {
            assert(occurrences(samples, name) == 1 + occurrences(rest, name));
            assert(count_for(e, name) + 1 <= u64::MAX);
            assert(count_for(fold_one(e, s0), name) == count_for(e, name) + 1);
        }
        lemma_sample_count(fold_one(e, s0), rest, name);
    }
}

/// Feeding the same single sample to an empty aggregate in two separate
/// cycles yields one record whose count is two and whose sums are twice the
/// sample's values.
pub proof fn lemma_same_sample_twice(s: SampleModel)
    requires
        0 <= s.cpu_usage,
        0 <= s.memory_usage,
        2 * s.cpu_usage <= u64::MAX,
        2 * s.memory_usage <= u64::MAX,
    ensures
        ({
            let once = fold_samples(Seq::<RecordModel>::empty(), seq![s]);
            let twice = fold_samples(once, seq![s]);
            twice.len() == 1 && twice[0].name == s.name && twice[0].count == 2 && twice[0].cpu_usage_sum
                == 2 * s.cpu_usage && twice[0].memory_usage_sum == 2 * s.memory_usage
        }),
{
    reveal_with_fuel(fold_samples, 2);
    let empty = Seq::<RecordModel>::empty();
    assert(seq![s].first() == s);
    assert(seq![s].drop_first() =~= Seq::<SampleModel>::empty());
    assert(!has_name(empty, s.name));
    let once = fold_one(empty, s);
    assert(once == empty.push(new_record(s)));
    assert(once.len() == 1 && once[0] == new_record(s));
    assert(fold_samples(empty, seq![s]) == once);
    assert(unique_names(once));
    lemma_name_index_is(once, s.name, 0);
    let twice = fold_one(once, s);
    assert(twice == once.update(0, bump(once[0], s)));
    assert(fold_samples(once, seq![s]) == twice);
    assert(twice[0].count == sat_sum(1, 1));
    assert(twice[0].cpu_usage_sum == sat_sum(s.cpu_usage, s.cpu_usage));
    assert(twice[0].memory_usage_sum == sat_sum(s.memory_usage, s.memory_usage));
}

} // verus!
