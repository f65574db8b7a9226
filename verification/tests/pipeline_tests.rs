use procmon::aggregate::Aggregator;
use procmon::config::{check_threshold, DEFAULT_THRESHOLD};
use procmon::run_cycle;
use procmon::fmt::{format_cpu_percent, format_mega};
use procmon::present::print_process_info;
use procmon::rank::sort_by_cpu_usage;
use procmon::record::Sample;

#[test]
fn one_cycle_with_default_threshold() {
    // One process "alpha" sampled once at 5.00% CPU with 2048 bytes resident:
    // with the default 0.10% threshold its row is emitted, showing "5.00%"
    // and "2M" for both memory columns.
    let threshold = check_threshold(DEFAULT_THRESHOLD as i64).unwrap();
    let mut agg = Aggregator::new();
    agg.update_process_info(&vec![Sample {
        name: "alpha".to_string(),
        cpu_usage: 500,
        memory_usage: 2048,
    }]);
    let mut ranked = agg.snapshot();
    sort_by_cpu_usage(&mut ranked);
    let rows = print_process_info(&ranked, threshold);
    assert_eq!(rows.len(), 1);
    assert_eq!(rows[0].pid, "alpha");
    assert_eq!(format_cpu_percent(rows[0].avg_cpu_usage), "5.00%");
    assert_eq!(format_mega(rows[0].avg_memory_usage), "2M");
    assert_eq!(format_mega(rows[0].memory_usage), "2M");
}

#[test]
fn average_below_fifty_percent_never_appears() {
    // A process averaging 49.99% across every cycle stays out of a 50% table.
    let mut agg = Aggregator::new();
    for _ in 0..4 {
        agg.update_process_info(&vec![Sample {
            name: "busy".to_string(),
            cpu_usage: 4999,
            memory_usage: 1024,
        }]);
    }
    let mut ranked = agg.snapshot();
    sort_by_cpu_usage(&mut ranked);
    let rows = print_process_info(&ranked, 5000);
    assert!(rows.is_empty());
}

#[test]
fn run_cycle_folds_ranks_and_filters() {
    let mut agg = Aggregator::new();
    let samples = vec![
        Sample { name: "hot".to_string(), cpu_usage: 8000, memory_usage: 2048 },
        Sample { name: "cold".to_string(), cpu_usage: 5, memory_usage: 1024 },
    ];
    let (ranked, rows) = run_cycle(&mut agg, &samples, 100);
    assert_eq!(ranked.len(), 2);
    assert_eq!(ranked[0].pid, "hot");
    assert_eq!(ranked[1].pid, "cold");
    assert_eq!(rows.len(), 1);
    assert_eq!(rows[0].pid, "hot");
    assert_eq!(rows[0].avg_cpu_usage, 8000);

    // A second cycle with the same samples doubles the sums, not the rows.
    let (ranked2, rows2) = run_cycle(&mut agg, &samples, 100);
    assert_eq!(ranked2[0].info.count, 2);
    assert_eq!(ranked2[0].info.cpu_usage_sum, 16000);
    assert_eq!(rows2.len(), 1);
    assert_eq!(rows2[0].avg_cpu_usage, 8000);
}

#[test]
fn cycles_aggregate_then_rank_then_filter() {
    let mut agg = Aggregator::new();
    agg.update_process_info(&vec![
        Sample { name: "idle".to_string(), cpu_usage: 1, memory_usage: 0 },
        Sample { name: "web".to_string(), cpu_usage: 2000, memory_usage: 1 << 20 },
    ]);
    agg.update_process_info(&vec![
        Sample { name: "idle".to_string(), cpu_usage: 1, memory_usage: 0 },
        Sample { name: "web".to_string(), cpu_usage: 4000, memory_usage: 1 << 21 },
        Sample { name: "db".to_string(), cpu_usage: 1000, memory_usage: 1 << 22 },
    ]);
    let mut ranked = agg.snapshot();
    sort_by_cpu_usage(&mut ranked);
    // Averages: web 3000, db 1000, idle 1.
    let order: Vec<&str> = ranked.iter().map(|p| p.pid.as_str()).collect();
    assert_eq!(order, vec!["web", "db", "idle"]);
    let rows = print_process_info(&ranked, 500);
    let names: Vec<&str> = rows.iter().map(|r| r.pid.as_str()).collect();
    assert_eq!(names, vec!["web", "db"]);
}
