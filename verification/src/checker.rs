//! The conformance check: expected tags against observed ones.

use vstd::prelude::*;
use crate::fixture::{valid_expectation, Fixture, MatchMode};
use crate::report::ViolationReport;
use crate::tags::{
    difference, lemma_difference_disjoint, lemma_difference_empty, lemma_difference_members,
    subset_of, without,
};
use crate::text::views;

verus! {

/// The outcome of holding one report against one fixture, in the model.
pub struct ResultView {
    /// Whether the fixture passes.
    pub passed: bool,
    /// Expected tags that were not observed, in the fixture's order.
    pub missing: Seq<Seq<u8>>,
    /// Observed tags that were not expected, in the report's order.
    pub unexpected: Seq<Seq<u8>>,
}

/// The outcome of holding one report against one fixture.
///
/// `missing` and `unexpected` are the two halves of the symmetric difference
/// between the expected and the observed tags. Where the fixture passes,
/// `unexpected` lists what there is to warn about.
#[derive(Clone, Debug, PartialEq, Eq)]
pub struct ConformanceResult {
    /// Whether the fixture passes.
    pub passed: bool,
    /// Expected tags that were not observed, in the fixture's order.
    pub missing: Vec<Vec<u8>>,
    /// Observed tags that were not expected, in the report's order.
    pub unexpected: Vec<Vec<u8>>,
}

impl View for ConformanceResult {
    type V = ResultView;

    open spec fn view(&self) -> ResultView {
        ResultView {
            passed: self.passed,
            missing: views(self.missing@),
            unexpected: views(self.unexpected@),
        }
    }
}

/// Whether unexpected tags fail a fixture of the given mode.
pub open spec fn strict(mode: MatchMode) -> bool {
    mode != MatchMode::Subset
}

/// What holding `observed` against `expected` under `mode` comes to.
///
/// A fixture passes when nothing expected is missing and, unless it asks for
/// a subset only, nothing unexpected was observed. A clean fixture expects
/// nothing, so it passes on an empty report and on no other.
pub open spec fn verdict(mode: MatchMode, expected: Seq<Seq<u8>>, observed: Seq<Seq<u8>>)
    -> ResultView {
    let missing = difference(expected, observed);
    let unexpected = difference(observed, expected);
    ResultView {
        passed: missing.len() == 0 && (strict(mode) ==> unexpected.len() == 0),
        missing,
        unexpected,
    }
}

/// Holds a report against a fixture.
pub fn check(fixture: &Fixture, report: &ViolationReport) -> (result: ConformanceResult)
    ensures
        result@ == verdict(fixture@.mode, fixture@.expected, report.tags()),
{
    let observed = report.tag_list();
    let expected = fixture.expected();
    let missing = without(expected, &observed);
    let unexpected = without(&observed, expected);
    let tolerant = match fixture.mode() {
        MatchMode::Subset => true,
        _ => false,
    };
    let passed = missing.len() == 0 && (tolerant || unexpected.len() == 0);
    ConformanceResult { passed, missing, unexpected }
}

/// A fixture passes exactly when every expected tag is observed and, unless
/// it asks for a subset only, every observed tag is expected.
pub proof fn lemma_verdict_by_sets(
    mode: MatchMode,
    expected: Seq<Seq<u8>>,
    observed: Seq<Seq<u8>>,
)
    ensures
        verdict(mode, expected, observed).passed <==> subset_of(expected, observed) && (strict(
            mode,
        ) ==> subset_of(observed, expected)),
{
    lemma_difference_empty(expected, observed);
    lemma_difference_empty(observed, expected);
}

/// The two lists of a verdict are the two halves of the symmetric
/// difference: a tag is missing when it is expected and not observed,
/// unexpected when it is observed and not expected, and neither list holds a
/// tag twice.
pub proof fn lemma_verdict_difference(
    mode: MatchMode,
    expected: Seq<Seq<u8>>,
    observed: Seq<Seq<u8>>,
)
    requires
        expected.no_duplicates(),
        observed.no_duplicates(),
    ensures
        forall|t: Seq<u8>|
            #[trigger] verdict(mode, expected, observed).missing.contains(t) <==> expected.contains(
                t,
            ) && !observed.contains(t),
        forall|t: Seq<u8>|
            #[trigger] verdict(mode, expected, observed).unexpected.contains(t)
                <==> observed.contains(t) && !expected.contains(t),
        verdict(mode, expected, observed).missing.no_duplicates(),
        verdict(mode, expected, observed).unexpected.no_duplicates(),
{
    lemma_difference_members(expected, observed);
    lemma_difference_members(observed, expected);
}

/// A tool that reports exactly what a fixture expects makes it pass,
/// whatever its mode; so does one that reports more, where the fixture asks
/// for a subset only.
pub proof fn lemma_faithful_tool_passes(
    mode: MatchMode,
    expected: Seq<Seq<u8>>,
    observed: Seq<Seq<u8>>,
)
    requires
        subset_of(expected, observed),
        strict(mode) ==> subset_of(observed, expected),
    ensures
        verdict(mode, expected, observed).passed,
        verdict(mode, expected, observed).missing.len() == 0,
{
    lemma_verdict_by_sets(mode, expected, observed);
    lemma_difference_empty(expected, observed);
}

/// A clean fixture fails on every report that holds a violation, and all
/// that was observed is listed as unexpected.
pub proof fn lemma_clean_fails_on_any_violation(expected: Seq<Seq<u8>>, observed: Seq<Seq<u8>>)
    requires
        valid_expectation(MatchMode::Clean, expected),
        observed.len() > 0,
    ensures
        !verdict(MatchMode::Clean, expected, observed).passed,
        verdict(MatchMode::Clean, expected, observed).unexpected == observed,
{
    lemma_difference_disjoint(observed, expected);
}

/// A clean fixture passes on the empty report.
pub proof fn lemma_clean_passes_on_empty(expected: Seq<Seq<u8>>)
    requires
        valid_expectation(MatchMode::Clean, expected),
    ensures
        verdict(MatchMode::Clean, expected, Seq::<Seq<u8>>::empty()).passed,
{
    lemma_verdict_by_sets(MatchMode::Clean, expected, Seq::<Seq<u8>>::empty());
}

} // verus!
