use proc_mem_to_prom::aggregate::{aggregate_resolved, fits, Aggregates, ProcessRecord, UNKNOWN_OWNER};
use proc_mem_to_prom::cycle::{pause_after, run_cycle, CycleOutcome, CYCLE_PERIOD_NANOS};
use proc_mem_to_prom::gauges::GaugeFamily;
use proc_mem_to_prom::publish::OwnerMetrics;

const MIB: u64 = 1024;

fn rec(uid: u32, rss: Option<u64>, swap: Option<u64>) -> ProcessRecord {
    ProcessRecord { uid, resident_kib: rss, swap_kib: swap }
}

fn name(s: &str) -> Option<String> {
    Some(s.to_string())
}

fn totals_of(a: &Aggregates, owner: &str) -> Option<(i64, i64, i64)> {
    a.entries
        .iter()
        .find(|e| e.owner == owner)
        .map(|e| (e.totals.count, e.totals.resident_memory, e.totals.swap))
}

fn metrics_with_registry() -> (OwnerMetrics, prometheus::Registry) {
    let m = OwnerMetrics::new("grp".to_string(), "inst".to_string()).unwrap();
    let reg = prometheus::Registry::new();
    assert!(m.register(&reg));
    (m, reg)
}

/// (metric name, username, value) for every exported gauge, sorted.
fn exported(reg: &prometheus::Registry) -> Vec<(String, String, i64)> {
    let mut out = Vec::new();
    for mf in reg.gather() {
        for m in mf.get_metric() {
            let labels = m.get_label();
            let user = labels.iter().find(|p| p.get_name() == "username").unwrap().get_value();
            for p in labels {
                match p.get_name() {
                    "job" => assert_eq!(p.get_value(), "proc-mem-to-prom"),
                    "hostgroup" => assert_eq!(p.get_value(), "grp"),
                    "instance" => assert_eq!(p.get_value(), "inst"),
                    _ => {}
                }
            }
            out.push((mf.get_name().to_string(), user.to_string(), m.get_gauge().get_value() as i64));
        }
    }
    out.sort();
    out
}

fn owners_exported(reg: &prometheus::Registry) -> Vec<String> {
    let mut v: Vec<String> = exported(reg).into_iter().map(|(_, u, _)| u).collect();
    v.sort();
    v.dedup();
    v
}

fn agg(owners: &[(&str, u64, u64)]) -> Aggregates {
    let recs: Vec<ProcessRecord> = owners.iter().map(|(_, r, s)| rec(1, Some(*r), Some(*s))).collect();
    let names: Vec<Option<String>> = owners.iter().map(|(n, _, _)| name(n)).collect();
    aggregate_resolved(&recs, &names)
}

#[test]
fn aggregate_counts_every_record() {
    let recs = vec![
        rec(1, Some(10), Some(1)),
        rec(2, Some(20), None),
        rec(1, None, Some(3)),
        rec(3, Some(5), Some(0)),
        rec(2, Some(1), Some(1)),
    ];
    let names = vec![name("a"), name("b"), name("a"), None, name("b")];
    let a = aggregate_resolved(&recs, &names);
    assert_eq!(a.entries.len(), 3);
    let total: i64 = a.entries.iter().map(|e| e.totals.count).sum();
    assert_eq!(total, 5);
    assert_eq!(totals_of(&a, "a"), Some((2, 10 * 1024, 4 * 1024)));
    assert_eq!(totals_of(&a, "b"), Some((2, 21 * 1024, 1024)));
    assert_eq!(totals_of(&a, "unknown"), Some((1, 5 * 1024, 0)));
}

#[test]
fn aggregate_of_empty_snapshot_is_empty() {
    let a = aggregate_resolved(&Vec::new(), &Vec::new());
    assert!(a.entries.is_empty());
}

#[test]
fn absent_figures_count_as_zero() {
    let recs = vec![rec(7, None, None), rec(7, Some(3), None), rec(8, None, None)];
    let names = vec![name("x"), name("x"), name("y")];
    let a = aggregate_resolved(&recs, &names);
    assert_eq!(totals_of(&a, "x"), Some((2, 3 * 1024, 0)));
    assert_eq!(totals_of(&a, "y"), Some((1, 0, 0)));
}

#[test]
fn unresolved_owners_share_one_entry() {
    let recs = vec![rec(900, Some(1), Some(2)), rec(901, Some(4), None), rec(0, Some(8), Some(8))];
    let names = vec![None, None, name("root")];
    let a = aggregate_resolved(&recs, &names);
    assert_eq!(a.entries.len(), 2);
    assert_eq!(a.entries.iter().filter(|e| e.owner == UNKNOWN_OWNER).count(), 1);
    assert_eq!(totals_of(&a, "unknown"), Some((2, 5 * 1024, 2 * 1024)));
    assert_eq!(totals_of(&a, "root"), Some((1, 8 * 1024, 8 * 1024)));
}

#[test]
fn fits_rejects_totals_beyond_the_gauges() {
    let limit = (i64::MAX / 1024) as u64;
    assert!(fits(&vec![rec(1, Some(limit), Some(limit))]));
    assert!(!fits(&vec![rec(1, Some(limit), Some(0)), rec(1, Some(1), None)]));
    assert!(!fits(&vec![rec(1, None, Some(u64::MAX))]));
    assert!(fits(&Vec::new()));
}

#[test]
fn gauge_family_rejects_invalid_name() {
    let names = vec!["username".to_string()];
    assert!(GaugeFamily::new("not a metric name", "help", &names).is_none());
    assert!(GaugeFamily::new("good_name", "", &names).is_none());
    assert!(GaugeFamily::new("good_name", "help", &names).is_some());
}

#[test]
fn registering_twice_is_refused() {
    let (m, reg) = metrics_with_registry();
    assert!(!m.register(&reg));
    let other = prometheus::Registry::new();
    assert!(m.register(&other));
}

#[test]
fn new_metrics_publish_nothing() {
    let (_m, reg) = metrics_with_registry();
    assert!(exported(&reg).is_empty());
}

#[test]
fn reconcile_publishes_exact_values() {
    let (mut m, reg) = metrics_with_registry();
    m.reconcile(&agg(&[("alice", 100, 7)]));
    assert_eq!(
        exported(&reg),
        vec![
            ("node_user_processes".to_string(), "alice".to_string(), 1),
            ("node_user_processes_rss".to_string(), "alice".to_string(), 100 * 1024),
            ("node_user_processes_swap".to_string(), "alice".to_string(), 7 * 1024),
        ]
    );
}

#[test]
fn stale_owners_are_evicted() {
    let (mut m, reg) = metrics_with_registry();
    m.reconcile(&agg(&[("A", 1, 1), ("B", 2, 2), ("C", 3, 3)]));
    assert_eq!(owners_exported(&reg), vec!["A", "B", "C"]);
    m.reconcile(&agg(&[("A", 5, 0), ("D", 6, 0)]));
    assert_eq!(owners_exported(&reg), vec!["A", "D"]);
    let e = exported(&reg);
    assert_eq!(e.len(), 6);
    assert!(e.contains(&("node_user_processes_rss".to_string(), "A".to_string(), 5 * 1024)));
    assert!(e.contains(&("node_user_processes_rss".to_string(), "D".to_string(), 6 * 1024)));
}

#[test]
fn reconcile_twice_is_reconcile_once() {
    let (mut m, reg) = metrics_with_registry();
    m.reconcile(&agg(&[("old", 9, 9)]));
    let current = agg(&[("p", 1, 2), ("q", 3, 4)]);
    m.reconcile(&current);
    let once = exported(&reg);
    m.reconcile(&current);
    assert_eq!(exported(&reg), once);
    assert_eq!(owners_exported(&reg), vec!["p", "q"]);
}

#[test]
fn reconcile_with_nothing_clears_all() {
    let (mut m, reg) = metrics_with_registry();
    m.reconcile(&agg(&[("a", 1, 1), ("b", 1, 1)]));
    m.reconcile(&agg(&[]));
    assert!(exported(&reg).is_empty());
}

#[test]
fn failed_snapshot_keeps_gauges() {
    let (mut m, reg) = metrics_with_registry();
    m.reconcile(&agg(&[("alice", 10, 0)]));
    let before = exported(&reg);
    let users = users::UsersCache::new();
    assert_eq!(run_cycle(&mut m, &users, None), CycleOutcome::SnapshotUnavailable);
    assert_eq!(exported(&reg), before);
}

#[test]
fn oversized_snapshot_keeps_gauges() {
    let (mut m, reg) = metrics_with_registry();
    m.reconcile(&agg(&[("alice", 10, 0)]));
    let before = exported(&reg);
    let users = users::UsersCache::new();
    let huge = vec![rec(0, Some(u64::MAX), None)];
    assert_eq!(run_cycle(&mut m, &users, Some(huge)), CycleOutcome::OutOfRange);
    assert_eq!(exported(&reg), before);
}

#[test]
fn run_cycle_publishes_every_process() {
    let (mut m, reg) = metrics_with_registry();
    m.reconcile(&agg(&[("no-such-owner-here", 10, 0)]));
    let users = users::UsersCache::new();
    let snap = vec![rec(0, Some(4), Some(1)), rec(4_000_000_000, Some(2), None), rec(0, None, None)];
    assert_eq!(run_cycle(&mut m, &users, Some(snap)), CycleOutcome::Published);
    let e = exported(&reg);
    let count: i64 = e.iter().filter(|(n, _, _)| n == "node_user_processes").map(|(_, _, v)| *v).sum();
    let rss: i64 = e.iter().filter(|(n, _, _)| n == "node_user_processes_rss").map(|(_, _, v)| *v).sum();
    assert_eq!(count, 3);
    assert_eq!(rss, 6 * 1024);
    assert!(!owners_exported(&reg).contains(&"no-such-owner-here".to_string()));
    assert!(owners_exported(&reg).contains(&"unknown".to_string()));
}

#[test]
fn two_cycles_of_two_owners() {
    let (mut m, reg) = metrics_with_registry();
    let recs = vec![
        rec(1000, Some(40 * MIB), None),
        rec(1000, Some(30 * MIB), Some(0)),
        rec(1000, Some(30 * MIB), None),
        rec(1001, Some(50 * MIB), Some(10 * MIB)),
    ];
    let names = vec![name("alice"), name("alice"), name("alice"), name("bob")];
    m.reconcile(&aggregate_resolved(&recs, &names));
    let mib = 1024 * 1024;
    assert_eq!(
        exported(&reg),
        vec![
            ("node_user_processes".to_string(), "alice".to_string(), 3),
            ("node_user_processes".to_string(), "bob".to_string(), 1),
            ("node_user_processes_rss".to_string(), "alice".to_string(), 100 * mib),
            ("node_user_processes_rss".to_string(), "bob".to_string(), 50 * mib),
            ("node_user_processes_swap".to_string(), "alice".to_string(), 0),
            ("node_user_processes_swap".to_string(), "bob".to_string(), 10 * mib),
        ]
    );
    let recs2 = vec![rec(1001, Some(25 * MIB), None), rec(1001, Some(35 * MIB), Some(0))];
    let names2 = vec![name("bob"), name("bob")];
    m.reconcile(&aggregate_resolved(&recs2, &names2));
    assert_eq!(
        exported(&reg),
        vec![
            ("node_user_processes".to_string(), "bob".to_string(), 2),
            ("node_user_processes_rss".to_string(), "bob".to_string(), 60 * mib),
            ("node_user_processes_swap".to_string(), "bob".to_string(), 0),
        ]
    );
}

#[test]
fn pause_fills_the_rest_of_the_period() {
    assert_eq!(pause_after(0), CYCLE_PERIOD_NANOS);
    assert_eq!(pause_after(5_000_000_000), 10_000_000_000);
    assert_eq!(pause_after(14_999_999_999), 1);
    assert_eq!(pause_after(15_000_000_000), 0);
    assert_eq!(pause_after(u128::MAX), 0);
}

#[test]
fn added_record_without_figures_counts_once() {
    let mut recs = vec![rec(1, Some(10), Some(2)), rec(2, Some(5), None)];
    let mut names = vec![name("a"), name("b")];
    let first = aggregate_resolved(&recs, &names);
    recs.push(rec(1, None, None));
    names.push(name("a"));
    let second = aggregate_resolved(&recs, &names);
    assert_eq!(totals_of(&first, "a"), Some((1, 10 * 1024, 2 * 1024)));
    assert_eq!(totals_of(&second, "a"), Some((2, 10 * 1024, 2 * 1024)));
    assert_eq!(totals_of(&second, "b"), totals_of(&first, "b"));
}

#[test]
fn owner_metrics_are_always_created() {
    assert!(OwnerMetrics::new(String::new(), "any value at all".to_string()).is_some());
}
