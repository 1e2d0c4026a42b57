//! The aggregation engine: it classifies the terminal events collected from
//! all shards into passed and failed tests, checks the result count against
//! the discovered test count, caps the shard job count, and decides whether
//! failed tests are to be retried.
use vstd::prelude::*;

use crate::{Event, EventV, Test, TestV};

verus! {

broadcast use vstd::seq_lib::group_to_multiset_ensures;

/// Per-run tallies: how many tests passed, and the failed tests in the order
/// their terminal events arrived. The number of failures is the length of
/// `failed_tests`.
pub struct ShardStats {
    pub num_passed: usize,
    pub failed_tests: Vec<Test>,
}

/// Mathematical model of [`ShardStats`].
pub struct StatsV {
    pub num_passed: int,
    pub failed_tests: Seq<TestV>,
}

impl View for ShardStats {
    type V = StatsV;

    open spec fn view(&self) -> StatsV {
        StatsV {
            num_passed: self.num_passed as int,
            failed_tests: self.failed_tests.deep_view(),
        }
    }
}

pub open spec fn empty_stats() -> StatsV {
    StatsV { num_passed: 0, failed_tests: Seq::empty() }
}

/// How one event changes the tallies: a terminal event counts its test as
/// passed or collects it as failed; Starting and Running events change
/// nothing.
pub open spec fn spec_record(s: StatsV, t: TestV) -> StatsV {
    match t.event {
        EventV::Terminal { status, log } => {
            if status.spec_is_failed() {
                StatsV { num_passed: s.num_passed, failed_tests: s.failed_tests.push(t) }
            } else {
                StatsV { num_passed: s.num_passed + 1, failed_tests: s.failed_tests }
            }
        },
        _ => s,
    }
}

/// The tallies after a whole event sequence, in arrival order.
pub open spec fn spec_aggregate(ts: Seq<TestV>) -> StatsV
    decreases ts.len(),
{
    if ts.len() == 0 {
        empty_stats()
    } else {
        spec_record(spec_aggregate(ts.drop_last()), ts.last())
    }
}

/// The contribution of one event to the passed count.
pub open spec fn pass_delta(t: TestV) -> int {
    match t.event {
        EventV::Terminal { status, log } => {
            if status.spec_is_failed() {
                0
            } else {
                1
            }
        },
        _ => 0,
    }
}

/// The contribution of one event to the failed count.
pub open spec fn fail_delta(t: TestV) -> int {
    match t.event {
        EventV::Terminal { status, log } => {
            if status.spec_is_failed() {
                1
            } else {
                0
            }
        },
        _ => 0,
    }
}

/// The number of passing terminal events in a sequence.
pub open spec fn spec_num_passed(ts: Seq<TestV>) -> int
    decreases ts.len(),
{
    if ts.len() == 0 {
        0
    } else {
        spec_num_passed(ts.drop_last()) + pass_delta(ts.last())
    }
}

/// The number of failing terminal events in a sequence.
pub open spec fn spec_num_failed(ts: Seq<TestV>) -> int
    decreases ts.len(),
{
    if ts.len() == 0 {
        0
    } else {
        spec_num_failed(ts.drop_last()) + fail_delta(ts.last())
    }
}

/// The tallies count exactly the passing and failing terminal events.
pub proof fn lemma_aggregate_counts(ts: Seq<TestV>)
    ensures
        spec_aggregate(ts).num_passed == spec_num_passed(ts),
        spec_aggregate(ts).failed_tests.len() == spec_num_failed(ts),
        0 <= spec_num_passed(ts),
        0 <= spec_num_failed(ts),
        spec_num_passed(ts) + spec_num_failed(ts) <= ts.len(),
    decreases ts.len(),
{
    if ts.len() > 0 {
        lemma_aggregate_counts(ts.drop_last());
    }
}

impl ShardStats {
    /// Fresh tallies: nothing passed, nothing failed.
    pub fn new() -> (s: ShardStats)
        ensures
            s@ == empty_stats(),
    {
        let s = ShardStats { num_passed: 0, failed_tests: Vec::new() };
        proof {
            assert(s@.failed_tests =~= Seq::<TestV>::empty());
        }
        s
    }

    /// The number of failed tests collected so far.
    pub fn num_failed(&self) -> (n: usize)
        ensures
            n == self@.failed_tests.len(),
    {
        self.failed_tests.len()
    }

    /// Record one event: exactly the change [`spec_record`] describes.
    pub fn record(&mut self, t: Test)
        requires
            old(self)@.num_passed < usize::MAX,
        ensures
            final(self)@ == spec_record(old(self)@, t@),
    {
        let failed: Option<bool> = match &t.event {
            Event::Terminal { status, .. } => Some(status.is_failed()),
            _ => None,
        };
        match failed {
            Some(true) => {
                self.failed_tests.push(t);
                proof {
                    assert(self@.failed_tests =~= old(self)@.failed_tests.push(t@));
                }
            },
            Some(false) => {
                self.num_passed = self.num_passed + 1;
            },
            None => {},
        }
    }

    /// Fold a whole event sequence, in order, into fresh tallies.
    pub fn aggregate(tests: Vec<Test>) -> (s: ShardStats)
        ensures
            s@ == spec_aggregate(tests.deep_view()),
    {
        let ghost orig = tests.deep_view();
        let mut rest = tests;
        let n = rest.len();
        let mut s = ShardStats::new();
        proof {
            assert(orig.take(0) =~= Seq::<TestV>::empty());
        }
        while rest.len() > 0
            invariant
                orig.len() == n,
                rest@.len() <= orig.len(),
                rest.deep_view() =~= orig.skip(orig.len() - rest@.len()),
                s@ == spec_aggregate(orig.take(orig.len() - rest@.len())),
                s@.num_passed <= orig.len() - rest@.len(),
            decreases rest@.len(),
        {
            let ghost i = orig.len() - rest@.len();
            let ghost before = rest.deep_view();
            let ghost before_sh = rest@;
            let t = rest.remove(0);
            proof {
                assert(before[0] == orig[i]);
                assert(t@ == before[0]);
                assert(rest.deep_view() =~= orig.skip(i + 1)) by {
                    assert forall|k: int| 0 <= k < rest@.len() implies rest.deep_view()[k]
                        == orig.skip(i + 1)[k] by {
                        assert(rest@[k] == before_sh.remove(0)[k]);
                        assert(rest@[k] == before_sh[k + 1]);
                        assert(rest.deep_view()[k] == rest@[k]@);
                        assert(before[k + 1] == before_sh[k + 1]@);
                        assert(before[k + 1] == orig.skip(i)[k + 1]);
                        assert(before[k + 1] == orig[i + 1 + k]);
                    }
                }
                lemma_aggregate_counts(orig.take(i));
            }
            s.record(t);
            proof {
                assert(orig.take(i + 1).drop_last() =~= orig.take(i));
                assert(orig.take(i + 1).last() == orig[i]);
            }
        }
        proof {
            assert(orig.take(orig.len() as int) =~= orig);
        }
        s
    }
}

/// Outcome of the result-count consistency check after a run.
#[derive(Debug, Clone, Copy, PartialEq, Eq, Structural)]
pub enum Reconciliation {
    /// Every discovered test reported a result; `num_failed` of them failed.
    Consistent { num_failed: usize },
    /// Results were lost (or duplicated): the run must not be treated as a
    /// success, however many tests appeared to pass.
    MissingResults { expected: usize, reported: usize },
}

/// Check the tallies against the discovered test count: consistent exactly
/// when passed plus failed equals the count, otherwise a distinct
/// missing-results outcome. The precondition only keeps the reported total
/// within the machine's integer range.
pub fn reconcile(num_tests: usize, stats: &ShardStats) -> (r: Reconciliation)
    requires
        stats@.num_passed + stats@.failed_tests.len() <= usize::MAX,
    ensures
        ({
            let reported = stats@.num_passed + stats@.failed_tests.len();
            if reported == num_tests {
                r == Reconciliation::Consistent {
                    num_failed: stats@.failed_tests.len() as usize,
                }
            } else {
                r == Reconciliation::MissingResults {
                    expected: num_tests,
                    reported: reported as usize,
                }
            }
        }),
{
    let reported = stats.num_passed + stats.failed_tests.len();
    if reported == num_tests {
        Reconciliation::Consistent { num_failed: stats.failed_tests.len() }
    } else {
        Reconciliation::MissingResults { expected: num_tests, reported }
    }
}

/// Cap the shard count at the number of discovered tests: a shard beyond
/// that would run zero tests. Zero tests yield zero jobs.
pub fn effective_jobs(requested: usize, num_tests: usize) -> (jobs: usize)
    ensures
        jobs == if requested <= num_tests {
            requested
        } else {
            num_tests
        },
{
    if requested <= num_tests {
        requested
    } else {
        num_tests
    }
}

/// The filter string that selects exactly the given failed tests on the next
/// attempt: each test name prefixed with a colon, concatenated in order.
pub open spec fn spec_retry_filter(ts: Seq<TestV>) -> Seq<char>
    decreases ts.len(),
{
    if ts.len() == 0 {
        Seq::empty()
    } else {
        spec_retry_filter(ts.drop_last()) + seq![':'] + ts.last().testcase
    }
}

/// Build the retry filter string from the failed tests.
pub fn retry_filter(failed: &Vec<Test>) -> (s: String)
    ensures
        s@ == spec_retry_filter(failed.deep_view()),
{
    let mut s = String::new();
    let mut i: usize = 0;
    proof {
        reveal_strlit(":");
        assert(failed.deep_view().take(0) =~= Seq::<TestV>::empty());
        assert(s@ =~= spec_retry_filter(failed.deep_view().take(0)));
    }
    while i < failed.len()
        invariant
            0 <= i <= failed@.len(),
            s@ == spec_retry_filter(failed.deep_view().take(i as int)),
        decreases failed@.len() - i,
    {
        s.append(":");
        s.append(failed[i].testcase.as_str());
        proof {
            reveal_strlit(":");
            let dv = failed.deep_view();
            assert(":"@ =~= seq![':']);
            assert(dv.take(i + 1).drop_last() =~= dv.take(i as int));
            assert(dv.take(i + 1).last() == dv[i as int]);
            assert(dv[i as int].testcase == failed@[i as int]@.testcase);
        }
        i = i + 1;
    }
    proof {
        assert(failed.deep_view().take(failed@.len() as int) =~= failed.deep_view());
    }
    s
}

/// What to do once an attempt's results are in.
#[derive(Debug)]
pub enum NextStep {
    /// No retry: report and reconcile this attempt's results.
    Finish,
    /// Run another attempt, narrowed to the given filter, with one fewer
    /// repeat remaining.
    Retry { filter: String },
}

/// Retry policy: a further attempt happens exactly when repeats remain and
/// some test failed; the next attempt's filter selects exactly the failed
/// tests. The results of a retried attempt replace the earlier ones; only
/// the final attempt's outcome counts.
pub fn plan_after_attempt(stats: &ShardStats, repeat_remaining: u64) -> (r: NextStep)
    ensures
        if repeat_remaining > 0 && stats@.failed_tests.len() > 0 {
            r matches NextStep::Retry { filter } && filter@ == spec_retry_filter(
                stats@.failed_tests,
            )
        } else {
            r is Finish
        },
{
    if repeat_remaining > 0 && stats.failed_tests.len() > 0 {
        NextStep::Retry { filter: retry_filter(&stats.failed_tests) }
    } else {
        NextStep::Finish
    }
}

/// Removing one event removes exactly its contribution to the counts.
proof fn lemma_counts_remove(ts: Seq<TestV>, i: int)
    requires
        0 <= i < ts.len(),
    ensures
        spec_num_passed(ts.remove(i)) == spec_num_passed(ts) - pass_delta(ts[i]),
        spec_num_failed(ts.remove(i)) == spec_num_failed(ts) - fail_delta(ts[i]),
    decreases ts.len(),
{
    if i == ts.len() - 1 {
        assert(ts.remove(i) =~= ts.drop_last());
    } else {
        assert(ts.remove(i).drop_last() =~= ts.drop_last().remove(i));
        assert(ts.remove(i).last() == ts.last());
        lemma_counts_remove(ts.drop_last(), i);
    }
}

/// Law: the totals depend only on which events arrived, not on the order in
/// which the shards delivered them — event sequences that are equal as
/// multisets yield the same passed and failed counts.
pub proof fn lemma_totals_order_independent(ts1: Seq<TestV>, ts2: Seq<TestV>)
    requires
        ts1.to_multiset() == ts2.to_multiset(),
    ensures
        spec_num_passed(ts1) == spec_num_passed(ts2),
        spec_num_failed(ts1) == spec_num_failed(ts2),
    decreases ts1.len(),
{
    if ts1.len() == 0 {
        assert(ts2.len() == ts2.to_multiset().len());
        assert(ts1.len() == ts1.to_multiset().len());
    } else {
        let t = ts1.last();
        assert(ts1.contains(t));
        assert(ts1.to_multiset().count(t) > 0);
        assert(ts2.contains(t));
        let i = choose|i: int| 0 <= i < ts2.len() && ts2[i] == t;
        let ts2r = ts2.remove(i);
        assert(ts2r.to_multiset() =~= ts2.to_multiset().remove(t));
        assert(ts1 =~= ts1.drop_last().push(t));
        assert(ts1.to_multiset() == ts1.drop_last().push(t).to_multiset());
        assert(ts1.drop_last().push(t).to_multiset() =~= ts1.drop_last().to_multiset().insert(t));
        assert(ts1.drop_last().to_multiset() =~= ts1.to_multiset().remove(t));
        lemma_totals_order_independent(ts1.drop_last(), ts2r);
        lemma_counts_remove(ts2, i);
    }
}

/// Law: passed plus failed is exactly the number of terminal events; the
/// parser's Starting and Running events never change the totals.
pub proof fn lemma_totals_count_terminals(ts: Seq<TestV>)
    ensures
        spec_num_passed(ts) + spec_num_failed(ts) == crate::parse::count_terminal(ts),
    decreases ts.len(),
{
    if ts.len() > 0 {
        lemma_totals_count_terminals(ts.drop_last());
        assert(ts =~= ts.drop_last() + seq![ts.last()]);
        crate::parse::lemma_counts_append(ts.drop_last(), seq![ts.last()]);
        assert(seq![ts.last()].drop_first().len() == 0);
        assert(crate::parse::count_terminal(seq![ts.last()].drop_first()) == 0);
    }
}

/// Law: a complete log of `K` test blocks yields totals that sum to `K` —
/// one accounted outcome per started test, so the reconciliation check
/// passes exactly when discovery also counted `K` tests.
pub proof fn lemma_complete_log_totals(bs: Seq<crate::parse::BlockV>)
    ensures
        spec_num_passed(crate::parse::blocks_events(bs)) + spec_num_failed(
            crate::parse::blocks_events(bs),
        ) == bs.len(),
{
    lemma_totals_count_terminals(crate::parse::blocks_events(bs));
    crate::parse::lemma_complete_log_counts(bs);
}

} // verus!
