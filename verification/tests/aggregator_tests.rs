use procmon::aggregate::Aggregator;
use procmon::record::Sample;

fn sample(name: &str, cpu_usage: u32, memory_usage: u64) -> Sample {
    Sample { name: name.to_string(), cpu_usage, memory_usage }
}

#[test]
fn single_sample_creates_record() {
    let mut agg = Aggregator::new();
    agg.update_process_info(&vec![sample("alpha", 500, 2048)]);
    let snap = agg.snapshot();
    assert_eq!(snap.len(), 1);
    assert_eq!(snap[0].pid, "alpha");
    assert_eq!(snap[0].info.cpu_usage_sum, 500);
    assert_eq!(snap[0].info.cpu_usage, 500);
    assert_eq!(snap[0].info.memory_usage_sum, 2048);
    assert_eq!(snap[0].info.memory_usage, 2048);
    assert_eq!(snap[0].info.count, 1);
}

#[test]
fn same_sample_twice_in_two_cycles() {
    // Feeding the identical sample in two separate cycles doubles the sums
    // and yields a count of two.
    let mut agg = Aggregator::new();
    agg.update_process_info(&vec![sample("alpha", 700, 4096)]);
    agg.update_process_info(&vec![sample("alpha", 700, 4096)]);
    let snap = agg.snapshot();
    assert_eq!(snap.len(), 1);
    assert_eq!(snap[0].info.count, 2);
    assert_eq!(snap[0].info.cpu_usage_sum, 2 * 700);
    assert_eq!(snap[0].info.memory_usage_sum, 2 * 4096);
    assert_eq!(snap[0].info.cpu_usage, 700);
    assert_eq!(snap[0].info.memory_usage, 4096);
}

#[test]
fn count_equals_samples_observed_per_name() {
    let mut agg = Aggregator::new();
    agg.update_process_info(&vec![
        sample("alpha", 100, 10),
        sample("beta", 200, 20),
        sample("alpha", 300, 30),
    ]);
    agg.update_process_info(&vec![sample("beta", 400, 40)]);
    let snap = agg.snapshot();
    assert_eq!(snap.len(), 2);
    let alpha = snap.iter().find(|p| p.pid == "alpha").unwrap();
    let beta = snap.iter().find(|p| p.pid == "beta").unwrap();
    assert_eq!(alpha.info.count, 2);
    assert_eq!(beta.info.count, 2);
    assert_eq!(alpha.info.cpu_usage_sum, 400);
    assert_eq!(beta.info.cpu_usage_sum, 600);
}

#[test]
fn duplicate_names_in_one_cycle_last_write_wins() {
    // Two PIDs sharing a name within one cycle: sums accumulate both, the
    // latest values come from the later sample.
    let mut agg = Aggregator::new();
    agg.update_process_info(&vec![sample("worker", 100, 1000), sample("worker", 300, 3000)]);
    let snap = agg.snapshot();
    assert_eq!(snap.len(), 1);
    assert_eq!(snap[0].info.count, 2);
    assert_eq!(snap[0].info.cpu_usage_sum, 400);
    assert_eq!(snap[0].info.cpu_usage, 300);
    assert_eq!(snap[0].info.memory_usage_sum, 4000);
    assert_eq!(snap[0].info.memory_usage, 3000);
}

#[test]
fn vanished_process_keeps_frozen_record() {
    // A name that stops appearing retains its last-known record.
    let mut agg = Aggregator::new();
    agg.update_process_info(&vec![sample("ghost", 900, 512)]);
    agg.update_process_info(&vec![sample("other", 100, 256)]);
    let snap = agg.snapshot();
    assert_eq!(snap.len(), 2);
    let ghost = snap.iter().find(|p| p.pid == "ghost").unwrap();
    assert_eq!(ghost.info.count, 1);
    assert_eq!(ghost.info.cpu_usage_sum, 900);
    assert_eq!(ghost.info.memory_usage, 512);
}

#[test]
fn empty_cycle_changes_nothing() {
    let mut agg = Aggregator::new();
    agg.update_process_info(&vec![sample("alpha", 500, 2048)]);
    agg.update_process_info(&vec![]);
    let snap = agg.snapshot();
    assert_eq!(snap.len(), 1);
    assert_eq!(snap[0].info.count, 1);
}

#[test]
fn sums_saturate_at_u64_max() {
    let mut agg = Aggregator::new();
    agg.update_process_info(&vec![sample("big", 0, u64::MAX)]);
    agg.update_process_info(&vec![sample("big", 0, u64::MAX)]);
    let snap = agg.snapshot();
    assert_eq!(snap[0].info.memory_usage_sum, u64::MAX);
    assert_eq!(snap[0].info.count, 2);
}
