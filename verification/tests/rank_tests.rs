use procmon::record::{Process, ProcessInfo};
use procmon::rank::sort_by_cpu_usage;

fn proc(pid: &str, cpu_usage_sum: u64, count: u64) -> Process {
    Process {
        pid: pid.to_string(),
        info: ProcessInfo {
            cpu_usage_sum,
            cpu_usage: 0,
            memory_usage_sum: 0,
            memory_usage: 0,
            count,
        },
    }
}

#[test]
fn sorts_descending_by_average_cpu() {
    // Averages: low = 100, mid = 250, high = 900 (centi-percent).
    let mut v = vec![proc("low", 100, 1), proc("high", 900, 1), proc("mid", 250, 1)];
    sort_by_cpu_usage(&mut v);
    let order: Vec<&str> = v.iter().map(|p| p.pid.as_str()).collect();
    assert_eq!(order, vec!["high", "mid", "low"]);
}

#[test]
fn averages_use_the_count_not_just_the_sum() {
    // "small" has the bigger sum but the smaller average: 1000/4 = 250
    // against 300/1 = 300.
    let mut v = vec![proc("small", 1000, 4), proc("large", 300, 1)];
    sort_by_cpu_usage(&mut v);
    assert_eq!(v[0].pid, "large");
    assert_eq!(v[1].pid, "small");
}

#[test]
fn output_is_a_permutation_of_the_input() {
    let mut v = vec![
        proc("a", 10, 2),
        proc("b", 700, 3),
        proc("c", 700, 3),
        proc("d", 1, 1),
        proc("e", 0, 5),
    ];
    sort_by_cpu_usage(&mut v);
    assert_eq!(v.len(), 5);
    let mut names: Vec<&str> = v.iter().map(|p| p.pid.as_str()).collect();
    names.sort();
    assert_eq!(names, vec!["a", "b", "c", "d", "e"]);
    // Pairwise descending averages, cross-multiplied to avoid rounding.
    for w in v.windows(2) {
        let (a, b) = (&w[0].info, &w[1].info);
        assert!(
            (a.cpu_usage_sum as u128) * (b.count as u128)
                >= (b.cpu_usage_sum as u128) * (a.count as u128)
        );
    }
}

#[test]
fn equal_averages_keep_both_entries() {
    // 200/2 and 100/1 are the same average; both records survive the sort.
    let mut v = vec![proc("x", 200, 2), proc("y", 100, 1)];
    sort_by_cpu_usage(&mut v);
    assert_eq!(v.len(), 2);
    let mut names: Vec<&str> = v.iter().map(|p| p.pid.as_str()).collect();
    names.sort();
    assert_eq!(names, vec!["x", "y"]);
}

#[test]
fn empty_and_single_inputs() {
    let mut empty: Vec<Process> = vec![];
    sort_by_cpu_usage(&mut empty);
    assert!(empty.is_empty());

    let mut single = vec![proc("only", 123, 1)];
    sort_by_cpu_usage(&mut single);
    assert_eq!(single.len(), 1);
    assert_eq!(single[0].pid, "only");
}
