use gtest_runner::aggregate::{
    effective_jobs, plan_after_attempt, reconcile, retry_filter, NextStep, Reconciliation,
    ShardStats,
};
use gtest_runner::discover::{parse_test_list, DiscoveryError};
use gtest_runner::parse::parse_lines;
use gtest_runner::sample::{sample_listing_lines, sample_run_lines};
use gtest_runner::{Event, Status, Test};

fn lines(raw: &[&str]) -> Vec<String> {
    raw.iter().map(|s| s.to_string()).collect()
}

fn terminal(testcase: &str, status: Status) -> Test {
    Test {
        testcase: testcase.to_string(),
        shard: None,
        event: Event::Terminal { status, log: vec![] },
    }
}

#[test]
fn discovery_parses_a_listing() {
    let listing = lines(&["Suite.", "  A", "  B", "Other.", "  C"]);
    let ids = parse_test_list(&listing, false).unwrap();
    assert_eq!(vec!["Suite.A", "Suite.B", "Other.C"], ids);
}

#[test]
fn discovery_dedups_and_keeps_first_seen_order() {
    let listing = lines(&["Suite.", "  B", "  A", "  B"]);
    let ids = parse_test_list(&listing, false).unwrap();
    assert_eq!(vec!["Suite.B", "Suite.A"], ids);
}

#[test]
fn discovery_excludes_disabled_cases_unless_requested() {
    let listing = lines(&["Suite.", "  DISABLED_Flaky", "  Solid"]);
    let ids = parse_test_list(&listing, false).unwrap();
    assert_eq!(vec!["Suite.Solid"], ids);
    let all = parse_test_list(&listing, true).unwrap();
    assert_eq!(vec!["Suite.DISABLED_Flaky", "Suite.Solid"], all);
}

#[test]
fn discovery_fails_on_indented_line_before_any_suite() {
    let listing = lines(&["  Orphan"]);
    assert_eq!(
        DiscoveryError::CaseBeforeSuite,
        parse_test_list(&listing, false).unwrap_err()
    );
    // a suite line with no token clears the current suite just the same
    let listing = lines(&["Suite.", "", "  Orphan"]);
    assert_eq!(
        DiscoveryError::CaseBeforeSuite,
        parse_test_list(&listing, false).unwrap_err()
    );
}

#[test]
fn discovery_fails_on_whitespace_only_case_line() {
    let listing = lines(&["Suite.", "   "]);
    assert_eq!(
        DiscoveryError::MissingCaseName,
        parse_test_list(&listing, false).unwrap_err()
    );
}

#[test]
fn aggregation_counts_passed_and_collects_failed() {
    let mut stats = ShardStats::new();
    stats.record(terminal("S.A", Status::Passed));
    stats.record(Test {
        testcase: "S.B".to_string(),
        shard: None,
        event: Event::Starting,
    });
    stats.record(Test {
        testcase: "S.B".to_string(),
        shard: None,
        event: Event::Running,
    });
    stats.record(terminal("S.B", Status::Failed));
    stats.record(terminal("S.C", Status::Aborted));
    assert_eq!(1, stats.num_passed);
    assert_eq!(2, stats.num_failed());
    assert_eq!("S.B", stats.failed_tests[0].testcase);
    assert_eq!("S.C", stats.failed_tests[1].testcase);
}

#[test]
fn reconcile_accepts_a_complete_run() {
    let stats = ShardStats::aggregate(vec![
        terminal("S.A", Status::Passed),
        terminal("S.B", Status::Failed),
    ]);
    assert_eq!(
        Reconciliation::Consistent { num_failed: 1 },
        reconcile(2, &stats)
    );
}

#[test]
fn reconcile_reports_lost_results() {
    let stats = ShardStats::aggregate(vec![terminal("S.A", Status::Passed)]);
    assert_eq!(
        Reconciliation::MissingResults { expected: 3, reported: 1 },
        reconcile(3, &stats)
    );
    // results must never be silently treated as a success, in either direction
    assert_eq!(
        Reconciliation::MissingResults { expected: 0, reported: 1 },
        reconcile(0, &stats)
    );
}

#[test]
fn job_count_is_capped_to_test_count() {
    assert_eq!(4, effective_jobs(4, 9));
    assert_eq!(9, effective_jobs(12, 9));
    assert_eq!(0, effective_jobs(8, 0));
}

#[test]
fn zero_tests_make_an_immediate_successful_run() {
    let jobs = effective_jobs(8, 0);
    assert_eq!(0, jobs);
    // no shards, no events: the empty run reconciles as a success
    let stats = ShardStats::aggregate(vec![]);
    assert_eq!(0, stats.num_passed);
    assert_eq!(0, stats.num_failed());
    assert_eq!(
        Reconciliation::Consistent { num_failed: 0 },
        reconcile(0, &stats)
    );
}

#[test]
fn retry_filter_joins_failed_tests_with_colons() {
    let failed = vec![
        terminal("Suite.A", Status::Failed),
        terminal("Suite.B", Status::Aborted),
    ];
    assert_eq!(":Suite.A:Suite.B", retry_filter(&failed));
}

#[test]
fn repeat_reruns_only_failed_tests_and_returns_the_last_attempt() {
    // the sample situation: Suite.A passes, Suite.B fails deterministically
    let attempt = |_filter: Option<&str>| {
        ShardStats::aggregate(vec![
            terminal("Suite.A", Status::Passed),
            terminal("Suite.B", Status::Failed),
        ])
    };
    let failing_attempt = || ShardStats::aggregate(vec![terminal("Suite.B", Status::Failed)]);

    let mut repeat_remaining: u64 = 2;
    let mut attempts = 1;
    let mut stats = attempt(None);
    loop {
        match plan_after_attempt(&stats, repeat_remaining) {
            NextStep::Finish => break,
            NextStep::Retry { filter } => {
                // every retry is narrowed to exactly the failing test
                assert_eq!(":Suite.B", filter);
                repeat_remaining -= 1;
                attempts += 1;
                stats = failing_attempt();
            }
        }
    }
    // repeat = 2 gives at most 3 attempts in all
    assert_eq!(3, attempts);
    // only the final attempt's outcome is returned: one failure
    assert_eq!(1, stats.num_failed());
    assert_eq!(
        Reconciliation::Consistent { num_failed: 1 },
        reconcile(1, &stats)
    );
}

#[test]
fn repeat_stops_as_soon_as_everything_passes() {
    let stats = ShardStats::aggregate(vec![terminal("Suite.A", Status::Passed)]);
    assert!(matches!(
        plan_after_attempt(&stats, 5),
        NextStep::Finish
    ));
    let failed = ShardStats::aggregate(vec![terminal("Suite.A", Status::Failed)]);
    assert!(matches!(
        plan_after_attempt(&failed, 0),
        NextStep::Finish
    ));
}

#[test]
fn sample_run_single_shard_end_to_end() {
    // discovery on the sample listing
    let ids = parse_test_list(&sample_listing_lines(), false).unwrap();
    assert_eq!(vec!["NOPE.NOPE0", "NOPE.NOPE1"], ids);
    let num_tests = ids.len();
    assert_eq!(1, effective_jobs(1, num_tests));

    // one shard reports both tests, in order
    let events = parse_lines(&sample_run_lines(0, 1)).unwrap();
    let summary: Vec<(String, &str)> = events
        .iter()
        .map(|t| {
            (
                t.testcase.clone(),
                match &t.event {
                    Event::Starting => "starting",
                    Event::Running => "running",
                    Event::Terminal { status: Status::Passed, .. } => "passed",
                    Event::Terminal { .. } => "failed",
                },
            )
        })
        .collect();
    assert_eq!(
        vec![
            ("NOPE.NOPE0".to_string(), "starting"),
            ("NOPE.NOPE0".to_string(), "passed"),
            ("NOPE.NOPE1".to_string(), "starting"),
            ("NOPE.NOPE1".to_string(), "passed"),
        ],
        summary
    );

    let stats = ShardStats::aggregate(events);
    assert_eq!(2, stats.num_passed);
    assert_eq!(0, stats.num_failed());
    assert_eq!(
        Reconciliation::Consistent { num_failed: 0 },
        reconcile(num_tests, &stats)
    );
}

#[test]
fn sample_run_two_shards_aggregates_identically() {
    let num_tests = parse_test_list(&sample_listing_lines(), false).unwrap().len();
    assert_eq!(2, effective_jobs(2, num_tests));

    // each shard reports the one test of its partition
    let mut shard0 = parse_lines(&sample_run_lines(0, 2)).unwrap();
    let mut shard1 = parse_lines(&sample_run_lines(1, 2)).unwrap();
    for t in &mut shard0 {
        t.shard = Some(0);
    }
    for t in &mut shard1 {
        t.shard = Some(1);
    }
    assert_eq!("NOPE.NOPE0", shard0[0].testcase);
    assert_eq!("NOPE.NOPE1", shard1[0].testcase);

    // deliver the merged stream out of cross-shard order
    let mut merged: Vec<Test> = Vec::new();
    merged.push(shard1.remove(0));
    merged.push(shard0.remove(0));
    merged.push(shard0.remove(0));
    merged.push(shard1.remove(0));
    let stats = ShardStats::aggregate(merged);
    assert_eq!(2, stats.num_passed);
    assert_eq!(0, stats.num_failed());
    assert_eq!(
        Reconciliation::Consistent { num_failed: 0 },
        reconcile(num_tests, &stats)
    );

    // the totals equal those of the single-shard run of the same test set
    let single = ShardStats::aggregate(parse_lines(&sample_run_lines(0, 1)).unwrap());
    assert_eq!(single.num_passed, stats.num_passed);
    assert_eq!(single.num_failed(), stats.num_failed());
}

#[test]
fn status_is_failed_only_for_failures_and_aborts() {
    assert!(!Status::Passed.is_failed());
    assert!(Status::Failed.is_failed());
    assert!(Status::Aborted.is_failed());
}
