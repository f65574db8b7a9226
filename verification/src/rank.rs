//! The ranker: produces an ordering of the aggregate's records by descending
//! average CPU usage. Averages are compared exactly, by cross-multiplying the
//! two sums against the two counts, so no rounding enters the order.

use vstd::multiset::Multiset;
use vstd::prelude::*;

use crate::record::{counts_positive, record_views, Process, RecordModel};

verus! {

/// `a` ranks at least as high as `b`: `a`'s average CPU
/// (`cpu_usage_sum / count`) is at least `b`'s, stated without division by
/// cross-multiplying.
pub open spec fn cpu_ge(a: RecordModel, b: RecordModel) -> bool {
    a.cpu_usage_sum * b.count >= b.cpu_usage_sum * a.count
}

/// Descending order by average CPU: every earlier record ranks at least as
/// high as every later one.
pub open spec fn sorted_desc(s: Seq<RecordModel>) -> bool {
    forall|i: int, j: int| 0 <= i < j < s.len() ==> #[trigger] cpu_ge(s[i], s[j])
}

/// Ranking at least as high is transitive once every count is positive.
pub proof fn lemma_cpu_ge_trans(a: RecordModel, b: RecordModel, c: RecordModel)
    requires
        a.count >= 1,
        b.count >= 1,
        c.count >= 1,
        cpu_ge(a, b),
        cpu_ge(b, c),
    ensures
        cpu_ge(a, c),
{
    assert(a.cpu_usage_sum * c.count * b.count >= c.cpu_usage_sum * a.count * b.count)
        by (nonlinear_arith)
        requires
            a.count >= 1,
            b.count >= 1,
            c.count >= 1,
            a.cpu_usage_sum * b.count >= b.cpu_usage_sum * a.count,
            b.cpu_usage_sum * c.count >= c.cpu_usage_sum * b.count,
    ;
    assert(a.cpu_usage_sum * c.count >= c.cpu_usage_sum * a.count) by (nonlinear_arith)
        requires
            b.count >= 1,
            a.cpu_usage_sum * c.count * b.count >= c.cpu_usage_sum * a.count * b.count,
    ;
}

/// Each entry of a well-formed snapshot has a positive count.
pub proof fn lemma_counts_positive_index(s: Seq<Process>, i: int)
    requires
        counts_positive(record_views(s)),
        0 <= i < s.len(),
    ensures
        s[i]@.count >= 1,
{
    assert(record_views(s)[i].count >= 1);
}

/// Exact average-CPU comparison in 128 bits; wide enough that the two
/// products of 64-bit values cannot overflow.
fn cpu_ge_exec(a: &Process, b: &Process) -> (r: bool)
    ensures
        r == cpu_ge(a@, b@),
{
    proof {
        lemma_mul_u64_in_u128(
            a.info.cpu_usage_sum as int,
            b.info.count as int,
        );
        lemma_mul_u64_in_u128(
            b.info.cpu_usage_sum as int,
            a.info.count as int,
        );
    }
    (a.info.cpu_usage_sum as u128) * (b.info.count as u128) >= (b.info.cpu_usage_sum as u128) * (
    a.info.count as u128)
}

/// A product of two 64-bit values fits in 128 bits.
pub proof fn lemma_mul_u64_in_u128(x: int, y: int)
    requires
        0 <= x <= u64::MAX,
        0 <= y <= u64::MAX,
    ensures
        0 <= x * y <= u128::MAX,
{
    assert(0 <= x * y && x * y <= u64::MAX * u64::MAX) by (nonlinear_arith)
        requires
            0 <= x <= u64::MAX,
            0 <= y <= u64::MAX,
    ;
}

/// Sort the records by descending average CPU usage. The result is a
/// permutation of the input: nothing is dropped or invented, only reordered.
pub fn sort_by_cpu_usage(process_vec: &mut Vec<Process>)
    requires
        counts_positive(record_views(old(process_vec)@)),
    ensures
        sorted_desc(record_views(final(process_vec)@)),
        final(process_vec)@.to_multiset() == old(process_vec)@.to_multiset(),
        counts_positive(record_views(final(process_vec)@)),
        final(process_vec)@.len() == old(process_vec)@.len(),
{
    broadcast use vstd::seq_lib::group_to_multiset_ensures;

    let ghost orig = process_vec@;
    let mut out: Vec<Process> = Vec::new();
    while process_vec.len() > 0
        invariant
            counts_positive(record_views(process_vec@)),
            counts_positive(record_views(out@)),
            sorted_desc(record_views(out@)),
            out@.to_multiset().add(process_vec@.to_multiset()) == orig.to_multiset(),
            out@.len() + process_vec@.len() == orig.len(),
            forall|i: int, j: int|
                0 <= i < out@.len() && 0 <= j < process_vec@.len() ==> #[trigger] cpu_ge(
                    out@[i]@,
                    process_vec@[j]@,
                ),
        decreases process_vec@.len(),
    {
        let mut m: usize = 0;
        let mut k: usize = 1;
        while k < process_vec.len()
            invariant
                counts_positive(record_views(process_vec@)),
                process_vec@.len() > 0,
                m < k <= process_vec@.len(),
                forall|t: int| 0 <= t < k ==> #[trigger] cpu_ge(process_vec@[m as int]@, process_vec@[t]@),
            decreases process_vec@.len() - k,
        {
            if !cpu_ge_exec(&process_vec[m], &process_vec[k]) {
                proof {
                    assert(cpu_ge(process_vec@[k as int]@, process_vec@[m as int]@));
                    assert forall|t: int| 0 <= t < k implies #[trigger] cpu_ge(
                        process_vec@[k as int]@,
                        process_vec@[t]@,
                    ) by {
                        lemma_counts_positive_index(process_vec@, k as int);
                        lemma_counts_positive_index(process_vec@, m as int);
                        lemma_counts_positive_index(process_vec@, t);
                        lemma_cpu_ge_trans(
                            process_vec@[k as int]@,
                            process_vec@[m as int]@,
                            process_vec@[t]@,
                        );
                    }
                }
                m = k;
            }
            k += 1;
        }
        let ghost before = process_vec@;
        let x = process_vec.remove(m);
        proof {
            broadcast use vstd::seq_lib::group_to_multiset_ensures;

            assert(x == before[m as int]);
            assert(forall|j: int|
                0 <= j < process_vec@.len() ==> process_vec@[j] == (if j < m {
                    before[j]
                } else {
                    before[j + 1]
                }));
            assert(before.to_multiset().count(x) > 0) by {
                assert(before[m as int] == x);
                assert(before.contains(x));
            }
            assert(process_vec@ == before.remove(m as int));
            assert(before.remove(m as int).to_multiset() == before.to_multiset().remove(x));
        }
        let ghost out_before = out@;
        out.push(x);
        proof {
            broadcast use vstd::seq_lib::group_to_multiset_ensures;

            assert(out@ == out_before.push(x));
            assert(out_before.push(x).to_multiset() == out_before.to_multiset().insert(x));
            assert(out@.to_multiset() == out_before.to_multiset().insert(x));
            assert(process_vec@.to_multiset() == before.to_multiset().remove(x));
            assert(out@.to_multiset().add(process_vec@.to_multiset()) =~= orig.to_multiset());
            assert(forall|i: int| 0 <= i < out@.len() ==> out@[i] == (if i < out_before.len() {
                out_before[i]
            } else {
                x
            }));
            assert(forall|t: int|
                0 <= t < out@.len() ==> #[trigger] record_views(out@)[t] == out@[t]@);
            assert(forall|t: int|
                0 <= t < out_before.len() ==> #[trigger] record_views(out_before)[t]
                    == out_before[t]@);
            assert(forall|t: int|
                0 <= t < process_vec@.len() ==> #[trigger] record_views(process_vec@)[t]
                    == process_vec@[t]@);
            assert forall|t: int| 0 <= t < process_vec@.len() implies #[trigger] record_views(
                process_vec@,
            )[t].count >= 1 by {
                if t < m {
                    lemma_counts_positive_index(before, t);
                } else {
                    lemma_counts_positive_index(before, t + 1);
                }
            }
            assert(counts_positive(record_views(process_vec@)));
            assert forall|t: int| 0 <= t < out@.len() implies #[trigger] record_views(
                out@,
            )[t].count >= 1 by {
                if t < out_before.len() {
                    assert(record_views(out_before)[t].count >= 1);
                } else {
                    lemma_counts_positive_index(before, m as int);
                }
            }
            assert(counts_positive(record_views(out@)));
            assert forall|i: int, j: int| 0 <= i < j < out@.len() implies #[trigger] cpu_ge(
                record_views(out@)[i],
                record_views(out@)[j],
            ) by {
                if j < out_before.len() {
                    assert(cpu_ge(record_views(out_before)[i], record_views(out_before)[j]));
                } else {
                    assert(cpu_ge(out_before[i]@, before[m as int]@));
                }
            }
            assert(sorted_desc(record_views(out@)));
            assert forall|i: int, j: int|
                0 <= i < out@.len() && 0 <= j < process_vec@.len() implies #[trigger] cpu_ge(
                out@[i]@,
                process_vec@[j]@,
            ) by {
                let jj: int = if j < m {
                    j
                } else {
                    j + 1
                };
                assert(process_vec@[j] == before[jj]);
                if i < out_before.len() {
                    assert(cpu_ge(out_before[i]@, before[jj]@));
                } else {
                    assert(cpu_ge(before[m as int]@, before[jj]@));
                }
            }
        }
    }
    proof {
        broadcast use vstd::seq_lib::group_to_multiset_ensures;

        assert(process_vec@.to_multiset() =~= Multiset::<Process>::empty());
        assert(out@.to_multiset() =~= orig.to_multiset());
    }
    *process_vec = out;
}

} // verus!
