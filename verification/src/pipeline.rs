//! The life of one fixture's check: loaded, invoked, parsed, checked.
//!
//! Running the tool is left to the caller. Everything that is decided about
//! a fixture is decided here: the caller reports what came of the
//! invocation and is told the next stage.

use vstd::prelude::*;
use crate::checker::{
    check, lemma_clean_fails_on_any_violation, lemma_faithful_tool_passes, strict, verdict,
    ConformanceResult, ResultView,
};
use crate::fixture::{valid_expectation, Fixture, FixtureView, LoadError, MatchMode};
use crate::tags::{difference, subset_of};
use crate::parser::{parse, parsed, ParseError, ParseErrorView, ToolFamily};
use crate::report::{group_tags, Group, ViolationReport};
use crate::tool_run::{observed_run, InvocationError, RunView, ToolRun, TIMEOUT_EXIT_CODE};
use crate::text::views;

verus! {

/// Why a fixture failed.
#[derive(Clone, Debug, PartialEq, Eq)]
pub enum Failure {
    /// The fixture could not be loaded.
    Load(LoadError),
    /// The tool could not be started.
    Invocation(InvocationError),
    /// The tool did not finish within the timeout.
    Timeout,
    /// The tool's output fits no schema of its family.
    Parse(ParseError),
    /// The tool reported other violations than the fixture expects.
    Mismatch {
        /// Expected tags that were not observed.
        missing: Vec<Vec<u8>>,
        /// Observed tags that were not expected.
        unexpected: Vec<Vec<u8>>,
    },
}

/// How a fixture's check ended.
#[derive(Clone, Debug, PartialEq, Eq)]
pub enum Outcome {
    /// The fixture passed. `warnings` lists the tags that were observed
    /// beyond the expected ones.
    Pass {
        /// Observed tags that were not expected.
        warnings: Vec<Vec<u8>>,
    },
    /// The fixture failed.
    Fail(Failure),
}

/// The stage that a fixture's check has reached.
#[derive(Debug, PartialEq, Eq)]
pub enum Stage {
    /// The fixture is loaded and the tool has not run on it.
    Loaded,
    /// The tool has run.
    Invoked(ToolRun),
    /// The tool's output has been read.
    Parsed(ViolationReport),
    /// The check is over.
    Checked(Outcome),
}

/// A failure, in the model.
pub enum FailureView {
    /// The fixture could not be loaded.
    Load(LoadError),
    /// The tool could not be started.
    Invocation(InvocationError),
    /// The tool did not finish within the timeout.
    Timeout,
    /// The tool's output fits no schema of its family.
    Parse(ParseErrorView),
    /// The tool reported other violations than the fixture expects.
    Mismatch {
        /// Expected tags that were not observed.
        missing: Seq<Seq<u8>>,
        /// Observed tags that were not expected.
        unexpected: Seq<Seq<u8>>,
    },
}

/// An outcome, in the model.
pub enum OutcomeView {
    /// The fixture passed.
    Pass {
        /// Observed tags that were not expected.
        warnings: Seq<Seq<u8>>,
    },
    /// The fixture failed.
    Fail(FailureView),
}

/// A stage, in the model.
pub enum StageView {
    /// The tool has not run.
    Loaded,
    /// The tool has run.
    Invoked(RunView),
    /// The tool's output has been read.
    Parsed(Seq<Group>),
    /// The check is over.
    Checked(OutcomeView),
}

impl View for Failure {
    type V = FailureView;

    open spec fn view(&self) -> FailureView {
        match *self {
            Failure::Load(e) => FailureView::Load(e),
            Failure::Invocation(e) => FailureView::Invocation(e),
            Failure::Timeout => FailureView::Timeout,
            Failure::Parse(e) => FailureView::Parse(e@),
            Failure::Mismatch { missing, unexpected } => FailureView::Mismatch {
                missing: views(missing@),
                unexpected: views(unexpected@),
            },
        }
    }
}

impl View for Outcome {
    type V = OutcomeView;

    open spec fn view(&self) -> OutcomeView {
        match *self {
            Outcome::Pass { warnings } => OutcomeView::Pass { warnings: views(warnings@) },
            Outcome::Fail(f) => OutcomeView::Fail(f@),
        }
    }
}

impl View for Stage {
    type V = StageView;

    open spec fn view(&self) -> StageView {
        match *self {
            Stage::Loaded => StageView::Loaded,
            Stage::Invoked(run) => StageView::Invoked(run@),
            Stage::Parsed(report) => StageView::Parsed(report@),
            Stage::Checked(outcome) => StageView::Checked(outcome@),
        }
    }
}

/// The outcome that a result of the conformance check stands for.
pub open spec fn settled(result: ResultView) -> OutcomeView {
    if result.passed {
        OutcomeView::Pass { warnings: result.unexpected }
    } else {
        OutcomeView::Fail(
            FailureView::Mismatch { missing: result.missing, unexpected: result.unexpected },
        )
    }
}

/// The stage after the invocation: the run, or the failure to start the
/// tool.
pub open spec fn after_invocation(ran: Result<RunView, InvocationError>) -> StageView {
    match ran {
        Ok(run) => StageView::Invoked(run),
        Err(e) => StageView::Checked(OutcomeView::Fail(FailureView::Invocation(e))),
    }
}

/// The stage after a run: a timeout fails the fixture, output that cannot be
/// read fails it, and anything else is read into a report.
pub open spec fn after_run(tool: ToolFamily, run: RunView) -> StageView {
    if run.exit_code == TIMEOUT_EXIT_CODE {
        StageView::Checked(OutcomeView::Fail(FailureView::Timeout))
    } else {
        match parsed(tool, run) {
            Ok(groups) => StageView::Parsed(groups),
            Err(e) => StageView::Checked(OutcomeView::Fail(FailureView::Parse(e))),
        }
    }
}

/// The stage after the report: the check's outcome.
pub open spec fn after_report(fixture: FixtureView, groups: Seq<Group>) -> StageView {
    StageView::Checked(settled(verdict(fixture.mode, fixture.expected, group_tags(groups))))
}

/// The stage that follows `stage`.
///
/// `ran` is what came of invoking the tool. It is looked at in the stage
/// `Loaded` only, and without it that stage stays. `Checked` is final.
pub open spec fn next_stage(
    fixture: FixtureView,
    tool: ToolFamily,
    stage: StageView,
    ran: Option<Result<RunView, InvocationError>>,
) -> StageView {
    match stage {
        StageView::Loaded => match ran {
            Some(r) => after_invocation(r),
            None => StageView::Loaded,
        },
        StageView::Invoked(run) => after_run(tool, run),
        StageView::Parsed(groups) => after_report(fixture, groups),
        StageView::Checked(outcome) => StageView::Checked(outcome),
    }
}

/// How the check of a fixture ends, given what came of invoking the tool.
pub open spec fn outcome_of(
    fixture: FixtureView,
    tool: ToolFamily,
    ran: Result<RunView, InvocationError>,
) -> OutcomeView {
    match ran {
        Err(e) => OutcomeView::Fail(FailureView::Invocation(e)),
        Ok(run) => if run.exit_code == TIMEOUT_EXIT_CODE {
            OutcomeView::Fail(FailureView::Timeout)
        } else {
            match parsed(tool, run) {
                Err(e) => OutcomeView::Fail(FailureView::Parse(e)),
                Ok(groups) => settled(
                    verdict(fixture.mode, fixture.expected, group_tags(groups)),
                ),
            }
        },
    }
}

/// The model of what came of an invocation.
pub open spec fn ran_view(ran: Result<ToolRun, InvocationError>) -> Result<
    RunView,
    InvocationError,
> {
    match ran {
        Ok(run) => Ok(run@),
        Err(e) => Err(e),
    }
}

/// The model of what may have come of an invocation.
pub open spec fn event_view(ran: Option<Result<ToolRun, InvocationError>>) -> Option<
    Result<RunView, InvocationError>,
> {
    match ran {
        Some(r) => Some(ran_view(r)),
        None => None,
    }
}

/// The outcome that a result of the conformance check stands for.
pub fn settle(result: ConformanceResult) -> (outcome: Outcome)
    ensures
        outcome@ == settled(result@),
{
    if result.passed {
        Outcome::Pass { warnings: result.unexpected }
    } else {
        Outcome::Fail(Failure::Mismatch { missing: result.missing, unexpected: result.unexpected })
    }
}

/// Takes a fixture's check one stage further.
pub fn step(
    fixture: &Fixture,
    tool: ToolFamily,
    stage: Stage,
    ran: Option<Result<ToolRun, InvocationError>>,
) -> (next: Stage)
    ensures
        next@ == next_stage(fixture@, tool, stage@, event_view(ran)),
{
    match stage {
        Stage::Loaded => match ran {
            Some(Ok(run)) => Stage::Invoked(run),
            Some(Err(e)) => Stage::Checked(Outcome::Fail(Failure::Invocation(e))),
            None => Stage::Loaded,
        },
        Stage::Invoked(run) => {
            if run.is_timeout() {
                Stage::Checked(Outcome::Fail(Failure::Timeout))
            } else {
                match parse(tool, run) {
                    Ok(report) => Stage::Parsed(report),
                    Err(e) => Stage::Checked(Outcome::Fail(Failure::Parse(e))),
                }
            }
        },
        Stage::Parsed(report) => Stage::Checked(settle(check(fixture, &report))),
        Stage::Checked(outcome) => Stage::Checked(outcome),
    }
}

/// Whether the check is over.
pub fn is_final(stage: &Stage) -> (yes: bool)
    ensures
        yes == (stage@ is Checked),
{
    match stage {
        Stage::Checked(_) => true,
        _ => false,
    }
}

/// Ends a check that a suite-level deadline has overtaken: a check that is
/// over keeps its outcome, any other fails as a timeout.
pub fn cancel(stage: Stage) -> (ended: Stage)
    ensures
        ended@ == cancelled(stage@),
{
    match stage {
        Stage::Checked(outcome) => Stage::Checked(outcome),
        _ => Stage::Checked(Outcome::Fail(Failure::Timeout)),
    }
}

/// The stage after a suite-level deadline.
pub open spec fn cancelled(stage: StageView) -> StageView {
    match stage {
        StageView::Checked(outcome) => StageView::Checked(outcome),
        _ => StageView::Checked(OutcomeView::Fail(FailureView::Timeout)),
    }
}

/// Checks a fixture from what came of invoking the tool on it, through
/// every stage.
pub fn conclude(fixture: &Fixture, tool: ToolFamily, ran: Result<ToolRun, InvocationError>) -> (outcome:
    Outcome)
    ensures
        outcome@ == outcome_of(fixture@, tool, ran_view(ran)),
{
    match ran {
        Err(e) => Outcome::Fail(Failure::Invocation(e)),
        Ok(run) => {
            if run.is_timeout() {
                Outcome::Fail(Failure::Timeout)
            } else {
                match parse(tool, run) {
                    Err(e) => Outcome::Fail(Failure::Parse(e)),
                    Ok(report) => settle(check(fixture, &report)),
                }
            }
        },
    }
}

/// From `Loaded`, three steps end the check, through `Invoked` and `Parsed`
/// in turn unless a failure ends it before; the outcome is `outcome_of`.
pub proof fn lemma_three_stages(
    fixture: FixtureView,
    tool: ToolFamily,
    ran: Result<RunView, InvocationError>,
)
    ensures
        ({
            let first = next_stage(fixture, tool, StageView::Loaded, Some(ran));
            let second = next_stage(fixture, tool, first, None);
            let third = next_stage(fixture, tool, second, None);
            &&& third == StageView::Checked(outcome_of(fixture, tool, ran))
            &&& first is Invoked || first is Checked
            &&& first is Invoked ==> second is Parsed || second is Checked
            &&& first is Checked ==> first == third
            &&& second is Checked ==> second == third
        }),
{
}

/// A tool that reports what a fixture expects makes it pass: every expected
/// tag, and nothing else unless the fixture asks for a subset only.
pub proof fn lemma_faithful_run_passes(
    fixture: FixtureView,
    tool: ToolFamily,
    run: RunView,
    groups: Seq<Group>,
)
    requires
        run.exit_code != TIMEOUT_EXIT_CODE,
        parsed(tool, run) == Ok::<Seq<Group>, ParseErrorView>(groups),
        subset_of(fixture.expected, group_tags(groups)),
        strict(fixture.mode) ==> subset_of(group_tags(groups), fixture.expected),
    ensures
        outcome_of(fixture, tool, Ok(run)) is Pass,
{
    lemma_faithful_tool_passes(fixture.mode, fixture.expected, group_tags(groups));
}

/// A clean fixture fails on every run in which the tool reports a
/// violation, with all that was reported listed as unexpected.
pub proof fn lemma_clean_run_fails(
    fixture: FixtureView,
    tool: ToolFamily,
    run: RunView,
    groups: Seq<Group>,
)
    requires
        fixture.mode == MatchMode::Clean,
        valid_expectation(fixture.mode, fixture.expected),
        run.exit_code != TIMEOUT_EXIT_CODE,
        parsed(tool, run) == Ok::<Seq<Group>, ParseErrorView>(groups),
        groups.len() > 0,
    ensures
        outcome_of(fixture, tool, Ok(run)) == OutcomeView::Fail(
            FailureView::Mismatch {
                missing: Seq::<Seq<u8>>::empty(),
                unexpected: group_tags(groups),
            },
        ),
{
    lemma_clean_fails_on_any_violation(fixture.expected, group_tags(groups));
    assert(difference(fixture.expected, group_tags(groups)) =~= Seq::<Seq<u8>>::empty()) by {
        reveal(Seq::filter);
    }
}

/// Checking the same fixture on the same output gives the same outcome: two
/// runs that agree in exit code and output end alike, however long each
/// took.
pub proof fn lemma_same_output_same_outcome(
    fixture: FixtureView,
    tool: ToolFamily,
    first: RunView,
    second: RunView,
)
    requires
        first.exit_code == second.exit_code,
        first.stdout == second.stdout,
        first.stderr == second.stderr,
    ensures
        outcome_of(fixture, tool, Ok(first)) == outcome_of(fixture, tool, Ok(second)),
{
}

/// A run that took longer than its timeout fails the fixture as a timeout,
/// whatever the tool printed or exited with; a run within the timeout never
/// does.
pub proof fn lemma_timeout_always_fails(
    fixture: FixtureView,
    tool: ToolFamily,
    code: Option<i32>,
    stdout: Seq<u8>,
    stderr: Seq<u8>,
    elapsed_ms: u64,
    timeout_ms: u64,
)
    ensures
        elapsed_ms > timeout_ms <==> outcome_of(
            fixture,
            tool,
            Ok(observed_run(code, stdout, stderr, elapsed_ms, timeout_ms)),
        ) == OutcomeView::Fail(FailureView::Timeout),
{
    let run = observed_run(code, stdout, stderr, elapsed_ms, timeout_ms);
    if elapsed_ms <= timeout_ms {
        assert(run.exit_code != TIMEOUT_EXIT_CODE);
    }
}

} // verus!
