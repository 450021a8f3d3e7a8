//! The suite: every fixture's outcome, summed up.
//!
//! A suite never stops at a fixture that fails. Each fixture is checked to
//! its end, and the outcomes together decide how the run exits.

use vstd::prelude::*;
use crate::pipeline::{Failure, FailureView, Outcome, OutcomeView};

verus! {

/// Exit code of a run in which every fixture passed.
pub const EXIT_PASSED: i32 = 0;

/// Exit code of a run in which a fixture failed.
pub const EXIT_FAILED: i32 = 1;

/// Exit code of a run that the harness could not carry out, as when the
/// tool cannot be started.
pub const EXIT_HARNESS_ERROR: i32 = 2;

/// The test for fixtures that passed.
pub open spec fn is_pass() -> spec_fn(OutcomeView) -> bool {
    |o: OutcomeView| o is Pass
}

/// The test for fixtures on which the tool could not be started.
pub open spec fn is_unstarted() -> spec_fn(OutcomeView) -> bool {
    |o: OutcomeView| o matches OutcomeView::Fail(FailureView::Invocation(_))
}

/// The test for fixtures that passed with tags observed beyond the expected.
pub open spec fn is_warned() -> spec_fn(OutcomeView) -> bool {
    |o: OutcomeView| o matches OutcomeView::Pass { warnings } && warnings.len() > 0
}

/// The outcomes of a suite, in the model.
pub open spec fn outcome_views(outcomes: Seq<Outcome>) -> Seq<OutcomeView> {
    outcomes.map_values(|o: Outcome| o@)
}

/// The counts of a suite.
#[derive(Clone, Copy, Debug, PartialEq, Eq, Structural)]
pub struct Summary {
    /// Fixtures in the suite.
    pub total: usize,
    /// Fixtures that passed.
    pub passed: usize,
    /// Fixtures that failed, for whatever reason.
    pub failed: usize,
    /// Fixtures that passed with warnings.
    pub warned: usize,
    /// Fixtures on which the tool could not be started.
    pub unstarted: usize,
}

/// Whether `summary` counts `outcomes`.
pub open spec fn sums_up(summary: Summary, outcomes: Seq<OutcomeView>) -> bool {
    &&& summary.total == outcomes.len()
    &&& summary.passed == outcomes.filter(is_pass()).len()
    &&& summary.failed == outcomes.len() - outcomes.filter(is_pass()).len()
    &&& summary.warned == outcomes.filter(is_warned()).len()
    &&& summary.unstarted == outcomes.filter(is_unstarted()).len()
}

/// The exit code of a run with the given counts: a harness error if the
/// tool could not be started on some fixture, else a failure if some
/// fixture failed, else success.
pub open spec fn exit_code_of(summary: Summary) -> i32 {
    if summary.unstarted > 0 {
        EXIT_HARNESS_ERROR
    } else if summary.failed > 0 {
        EXIT_FAILED
    } else {
        EXIT_PASSED
    }
}

/// The number of fixtures to check at a time: as many as the machine runs
/// in parallel, no more than there are fixtures, and at least one.
pub open spec fn pool_size(fixtures: usize, parallelism: usize) -> usize {
    if fixtures == 0 || parallelism == 0 {
        1
    } else if fixtures < parallelism {
        fixtures
    } else {
        parallelism
    }
}

/// The number of fixtures to check at a time.
pub fn worker_count(fixtures: usize, parallelism: usize) -> (workers: usize)
    ensures
        workers == pool_size(fixtures, parallelism),
        1 <= workers,
        parallelism > 0 ==> workers <= parallelism,
{
    if fixtures == 0 || parallelism == 0 {
        1
    } else if fixtures < parallelism {
        fixtures
    } else {
        parallelism
    }
}

/// Counts the outcomes of a suite.
pub fn summarize(outcomes: &Vec<Outcome>) -> (summary: Summary)
    ensures
        sums_up(summary, outcome_views(outcomes@)),
        summary.passed + summary.failed == summary.total,
        summary.warned <= summary.passed,
        summary.unstarted <= summary.failed,
{
    let ghost all = outcome_views(outcomes@);
    let mut passed: usize = 0;
    let mut failed: usize = 0;
    let mut warned: usize = 0;
    let mut unstarted: usize = 0;
    let mut i: usize = 0;
    proof {
        reveal(Seq::filter);
        assert(all.take(0) =~= Seq::<OutcomeView>::empty());
    }
    while i < outcomes.len()
        invariant
            i <= outcomes@.len(),
            all == outcome_views(outcomes@),
            passed == all.take(i as int).filter(is_pass()).len(),
            warned == all.take(i as int).filter(is_warned()).len(),
            unstarted == all.take(i as int).filter(is_unstarted()).len(),
            passed + failed == i,
            warned <= passed,
            unstarted <= failed,
        decreases outcomes@.len() - i,
    {
        proof {
            let o = all[i as int];
            assert(o == outcomes@[i as int]@);
            assert(all.take(i + 1) =~= all.take(i as int).push(o));
            all.take(i as int).lemma_filter_push(o, is_pass());
            all.take(i as int).lemma_filter_push(o, is_warned());
            all.take(i as int).lemma_filter_push(o, is_unstarted());
        }
        match &outcomes[i] {
            Outcome::Pass { warnings } => {
                passed += 1;
                if warnings.len() > 0 {
                    warned += 1;
                }
            },
            Outcome::Fail(Failure::Invocation(_)) => {
                failed += 1;
                unstarted += 1;
            },
            Outcome::Fail(_) => {
                failed += 1;
            },
        }
        i += 1;
    }
    proof {
        assert(all.take(i as int) =~= all);
    }
    Summary { total: outcomes.len(), passed, failed, warned, unstarted }
}

/// The exit code of a run with the given counts.
pub fn exit_code(summary: &Summary) -> (code: i32)
    ensures
        code == exit_code_of(*summary),
{
    if summary.unstarted > 0 {
        EXIT_HARNESS_ERROR
    } else if summary.failed > 0 {
        EXIT_FAILED
    } else {
        EXIT_PASSED
    }
}

/// A run exits with success exactly when every fixture passed, and with a
/// harness error exactly when the tool could not be started on one.
pub proof fn lemma_exit_code(summary: Summary, outcomes: Seq<OutcomeView>)
    requires
        sums_up(summary, outcomes),
    ensures
        exit_code_of(summary) == EXIT_PASSED <==> forall|i: int|
            0 <= i < outcomes.len() ==> #[trigger] outcomes[i] is Pass,
        exit_code_of(summary) == EXIT_HARNESS_ERROR <==> exists|i: int|
            0 <= i < outcomes.len() && #[trigger] outcomes[i] matches OutcomeView::Fail(
                FailureView::Invocation(_),
            ),
{
    lemma_count_all(outcomes, is_pass());
    lemma_count_none(outcomes, is_unstarted());
    lemma_count_all(outcomes, is_unstarted());
    outcomes.lemma_filter_len(is_pass());
    if summary.unstarted > 0 {
        let i = choose|i: int| 0 <= i < outcomes.len() && is_unstarted()(outcomes[i]);
        assert(!(outcomes[i] is Pass));
    }
}

/// A test holds of all of a sequence exactly when filtering by it drops
/// nothing.
pub proof fn lemma_count_all<A>(s: Seq<A>, test: spec_fn(A) -> bool)
    ensures
        s.filter(test).len() <= s.len(),
        s.filter(test).len() == s.len() <==> forall|i: int|
            0 <= i < s.len() ==> test(#[trigger] s[i]),
    decreases s.len(),
{
    reveal(Seq::filter);
    if s.len() > 0 {
        let shorter = s.drop_last();
        lemma_count_all(shorter, test);
        if forall|i: int| 0 <= i < s.len() ==> test(#[trigger] s[i]) {
            assert forall|i: int| 0 <= i < shorter.len() implies test(#[trigger] shorter[i]) by {
                assert(shorter[i] == s[i]);
            }
            assert(test(s[s.len() - 1]));
        }
        if s.filter(test).len() == s.len() {
            assert forall|i: int| 0 <= i < s.len() implies test(#[trigger] s[i]) by {
                if i < shorter.len() {
                    assert(shorter[i] == s[i]);
                }
            }
        }
    }
}

/// A test holds of none of a sequence exactly when filtering by it leaves
/// nothing.
pub proof fn lemma_count_none<A>(s: Seq<A>, test: spec_fn(A) -> bool)
    ensures
        s.filter(test).len() > 0 <==> exists|i: int| 0 <= i < s.len() && test(#[trigger] s[i]),
    decreases s.len(),
{
    reveal(Seq::filter);
    if s.len() > 0 {
        let shorter = s.drop_last();
        lemma_count_none(shorter, test);
        if exists|i: int| 0 <= i < s.len() && test(#[trigger] s[i]) {
            let i = choose|i: int| 0 <= i < s.len() && test(#[trigger] s[i]);
            if i < shorter.len() {
                assert(shorter[i] == s[i]);
            }
        }
        if s.filter(test).len() > 0 {
            if test(s.last()) {
                assert(test(s[s.len() - 1]));
            } else {
                let i = choose|i: int| 0 <= i < shorter.len() && test(#[trigger] shorter[i]);
                assert(shorter[i] == s[i]);
            }
        }
    }
}

} // verus!
