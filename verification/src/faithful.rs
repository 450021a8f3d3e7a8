//! A faithful lint checker, in the model: output that reports what a
//! fixture expects and nothing else.
//!
//! Nothing here runs. The output is written down to show that the schema of
//! the lint family, the grouping of findings and the conformance check fit
//! together: every fixture that expects rule names has an output on which it
//! passes without a warning.

use vstd::prelude::*;
use crate::checker::lemma_faithful_tool_passes;
use crate::fixture::{valid_expectation, FixtureView};
use crate::parser::{
    findings_in, lemma_findings_concat, lemma_findings_push, lemma_lint_line_reads_back, lint_line,
    output_lines, parsed, ParseErrorView, ToolFamily,
};
use crate::pipeline::{outcome_of, OutcomeView};
use crate::report::{first_tags, group_tags, grouped, Finding, Location};
use crate::tags::{difference, lemma_difference_empty, subset_of};
use crate::text::{
    all_in, decimal_digits, join, lemma_join_split, lines, ByteClass, BRACKET_CLOSE, BRACKET_OPEN,
    COLON, LINE_FEED,
};
use crate::tool_run::RunView;

verus! {

/// The start of a file.
pub open spec fn origin() -> Location {
    Location { line: 1, column: 1 }
}

/// The line that reports `rule` at the start of the file `f`, without a
/// message.
pub open spec fn plain_line(rule: Seq<u8>) -> Seq<u8> {
    lint_line(seq![102u8], origin(), Seq::<u8>::empty(), rule)
}

/// The output that reports each of `rules` once, in order, a line each.
pub open spec fn plain_output(rules: Seq<Seq<u8>>) -> Seq<u8> {
    join(rules.map_values(|r: Seq<u8>| plain_line(r)), LINE_FEED)
}

/// The run of a tool that printed `plain_output(rules)` and exited with
/// success after `duration_ms`.
pub open spec fn plain_run(rules: Seq<Seq<u8>>, duration_ms: u64) -> RunView {
    RunView { exit_code: 0, stdout: plain_output(rules), stderr: Seq::<u8>::empty(), duration_ms }
}

/// Each of `rules` at the start of the file.
pub open spec fn plain_findings(rules: Seq<Seq<u8>>) -> Seq<Finding> {
    rules.map_values(|r: Seq<u8>| (r, origin()))
}

/// Whether every one of `rules` is written as a rule's name is.
pub open spec fn all_rule_names(rules: Seq<Seq<u8>>) -> bool {
    forall|i: int| 0 <= i < rules.len() ==> all_in(#[trigger] rules[i], ByteClass::RuleName)
}

/// A plain line is the fixed head `f:1:1:[`, the rule and a closing bracket.
proof fn lemma_plain_line_shape(rule: Seq<u8>)
    ensures
        plain_line(rule) == (seq![102u8, COLON, 49u8, COLON, 49u8, COLON, BRACKET_OPEN]
            + rule).push(BRACKET_CLOSE),
{
    assert(decimal_digits(1) =~= seq![49u8]);
    assert(plain_line(rule) =~= (seq![102u8, COLON, 49u8, COLON, 49u8, COLON, BRACKET_OPEN]
        + rule).push(BRACKET_CLOSE));
}

/// The lines of the plain output are the plain lines.
proof fn lemma_plain_lines(rules: Seq<Seq<u8>>)
    requires
        rules.len() > 0,
        all_rule_names(rules),
    ensures
        lines(plain_output(rules)) == rules.map_values(|r: Seq<u8>| plain_line(r)),
{
    let written = rules.map_values(|r: Seq<u8>| plain_line(r));
    assert forall|i: int, k: int|
        0 <= i < written.len() && 0 <= k < written[i].len() implies written[i][k]
        != LINE_FEED by {
        lemma_plain_line_shape(rules[i]);
        if 7 <= k < 7 + rules[i].len() {
            assert(written[i][k] == rules[i][k - 7]);
            assert(ByteClass::RuleName.holds(rules[i][k - 7]));
        }
    }
    lemma_join_split(written, LINE_FEED);
    assert forall|i: int| 0 <= i < written.len() implies lines(plain_output(rules))[i]
        == written[i] by {
        lemma_plain_line_shape(rules[i]);
        assert(written[i].last() == BRACKET_CLOSE);
    }
    assert(lines(plain_output(rules)) =~= written);
}

/// The plain lines read as the plain findings.
proof fn lemma_plain_lines_read_back(rules: Seq<Seq<u8>>)
    requires
        all_rule_names(rules),
        forall|i: int| 0 <= i < rules.len() ==> (#[trigger] rules[i]).len() > 0,
    ensures
        findings_in(ToolFamily::Lint, rules.map_values(|r: Seq<u8>| plain_line(r)))
            == plain_findings(rules),
    decreases rules.len(),
{
    let written = rules.map_values(|r: Seq<u8>| plain_line(r));
    if rules.len() == 0 {
        assert(findings_in(ToolFamily::Lint, written) =~= plain_findings(rules));
    } else {
        let shorter = rules.drop_last();
        let last = rules.last();
        assert(last == rules[rules.len() - 1]);
        assert forall|i: int| 0 <= i < shorter.len() implies all_in(
            #[trigger] shorter[i],
            ByteClass::RuleName,
        ) && shorter[i].len() > 0 by {
            assert(shorter[i] == rules[i]);
        }
        lemma_plain_lines_read_back(shorter);
        let written_before = shorter.map_values(|r: Seq<u8>| plain_line(r));
        assert(written =~= written_before.push(plain_line(last)));
        lemma_findings_push(ToolFamily::Lint, written_before, plain_line(last));
        lemma_lint_line_reads_back(seq![102u8], origin(), Seq::<u8>::empty(), last);
        assert(plain_findings(rules) =~= plain_findings(shorter).push((last, origin())));
    }
}

/// Findings of distinct rules are grouped under those rules, in order.
proof fn lemma_plain_tags(rules: Seq<Seq<u8>>)
    requires
        rules.no_duplicates(),
    ensures
        first_tags(plain_findings(rules)) == rules,
        group_tags(grouped(plain_findings(rules))) == rules,
    decreases rules.len(),
{
    let found = plain_findings(rules);
    if rules.len() > 0 {
        let shorter = rules.drop_last();
        lemma_plain_tags(shorter);
        assert(found.drop_last() =~= plain_findings(shorter));
        assert(found.last().0 == rules[rules.len() - 1]);
        assert(!shorter.contains(rules.last())) by {
            if shorter.contains(rules.last()) {
                let k = choose|k: int| 0 <= k < shorter.len() && shorter[k] == rules.last();
                assert(rules[k] == rules[rules.len() - 1]);
            }
        }
        assert(shorter.push(rules.last()) =~= rules);
    } else {
        assert(first_tags(found) =~= rules);
    }
    assert(group_tags(grouped(found)) =~= first_tags(found));
}

/// Every fixture that expects rule names passes, without a warning, on the
/// run of a lint checker that reports each of its tags once and nothing
/// else.
pub proof fn lemma_faithful_output_passes(fixture: FixtureView, duration_ms: u64)
    requires
        valid_expectation(fixture.mode, fixture.expected),
        fixture.expected.len() > 0,
        all_rule_names(fixture.expected),
    ensures
        outcome_of(fixture, ToolFamily::Lint, Ok(plain_run(fixture.expected, duration_ms)))
            == (OutcomeView::Pass { warnings: Seq::<Seq<u8>>::empty() }),
{
    let rules = fixture.expected;
    let run = plain_run(rules, duration_ms);
    let written = rules.map_values(|r: Seq<u8>| plain_line(r));
    let silent = seq![Seq::<u8>::empty()];
    lemma_plain_lines(rules);
    lemma_plain_lines_read_back(rules);
    lemma_plain_tags(rules);
    assert(lines(Seq::<u8>::empty()) =~= silent);
    assert(output_lines(run.stdout, run.stderr) == written + silent);
    lemma_findings_concat(ToolFamily::Lint, written, silent);
    assert(findings_in(ToolFamily::Lint, silent) =~= Seq::<Finding>::empty()) by {
        lemma_findings_push(ToolFamily::Lint, Seq::<Seq<u8>>::empty(), Seq::<u8>::empty());
        assert(Seq::<Seq<u8>>::empty().push(Seq::<u8>::empty()) =~= silent);
        assert(findings_in(ToolFamily::Lint, Seq::<Seq<u8>>::empty()) =~= Seq::<
            Finding,
        >::empty());
    }
    assert(findings_in(ToolFamily::Lint, written + silent) =~= plain_findings(rules));
    assert(parsed(ToolFamily::Lint, run) == Ok::<_, ParseErrorView>(
        grouped(plain_findings(rules)),
    ));
    assert(subset_of(rules, rules)) by {
        assert forall|i: int| 0 <= i < rules.len() implies rules.contains(#[trigger] rules[i]) by {}
    }
    lemma_faithful_tool_passes(fixture.mode, rules, rules);
    lemma_difference_empty(rules, rules);
    assert(difference(rules, rules) =~= Seq::<Seq<u8>>::empty());
}

} // verus!
