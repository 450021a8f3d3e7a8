use conformance::checker::{check, ConformanceResult};
use conformance::fixture::Fixture;
use conformance::parser::{ParseError, ToolFamily};
use conformance::pipeline::{cancel, conclude, is_final, settle, step, Failure, Outcome, Stage};
use conformance::report::{Location, ViolationReport};
use conformance::tool_run::{InvocationError, ToolRun, TIMEOUT_EXIT_CODE};

fn b(text: &str) -> Vec<u8> {
    text.as_bytes().to_vec()
}

fn list(tags: &[&str]) -> Vec<Vec<u8>> {
    tags.iter().map(|t| b(t)).collect()
}

fn sample(exact: bool) -> Fixture {
    Fixture::expecting(b("unused-variable-sample"), b("let x = 42;"), list(&["unused_variable"]), exact)
        .unwrap()
}

fn clean() -> Fixture {
    Fixture::clean(b("clean-sample"), b("fn main() {}"))
}

fn lint_run(exit_code: i32, tags: &[&str], elapsed_ms: u64) -> ToolRun {
    let mut stderr = String::from("    Checking sample v0.1.0\n");
    for (i, t) in tags.iter().enumerate() {
        stderr.push_str(&format!("src/main.rs:{}:5: warning: message [{}]\n", i + 1, t));
    }
    stderr.push_str("warning: done\n");
    ToolRun::observe(Some(exit_code), Vec::new(), stderr.into_bytes(), elapsed_ms, 60_000)
}

fn mismatch(missing: &[&str], unexpected: &[&str]) -> Outcome {
    Outcome::Fail(Failure::Mismatch { missing: list(missing), unexpected: list(unexpected) })
}

#[test]
fn settle_turns_a_result_into_an_outcome() {
    let passed = ConformanceResult { passed: true, missing: vec![], unexpected: list(&["x"]) };
    assert_eq!(settle(passed), Outcome::Pass { warnings: list(&["x"]) });
    let failed = ConformanceResult { passed: false, missing: list(&["a"]), unexpected: list(&["x"]) };
    assert_eq!(settle(failed), mismatch(&["a"], &["x"]));
}

#[test]
fn a_check_goes_through_every_stage() {
    let fixture = sample(false);
    let run = lint_run(0, &["unused_variable"], 5);

    let stage = Stage::Loaded;
    assert!(!is_final(&stage));
    let stage = step(&fixture, ToolFamily::Lint, stage, Some(Ok(run.clone())));
    assert_eq!(stage, Stage::Invoked(run));
    assert!(!is_final(&stage));

    let stage = step(&fixture, ToolFamily::Lint, stage, None);
    let mut report = ViolationReport::new();
    report.record(b("unused_variable"), Location { line: 1, column: 5 });
    assert_eq!(stage, Stage::Parsed(report));
    assert!(!is_final(&stage));

    let stage = step(&fixture, ToolFamily::Lint, stage, None);
    assert_eq!(stage, Stage::Checked(Outcome::Pass { warnings: vec![] }));
    assert!(is_final(&stage));

    let stage = step(&fixture, ToolFamily::Lint, stage, Some(Ok(lint_run(1, &[], 5))));
    assert_eq!(stage, Stage::Checked(Outcome::Pass { warnings: vec![] }));
}

#[test]
fn loaded_waits_for_the_invocation() {
    let stage = step(&sample(false), ToolFamily::Lint, Stage::Loaded, None);
    assert_eq!(stage, Stage::Loaded);
}

#[test]
fn a_tool_that_cannot_be_started_fails_the_fixture() {
    for e in [InvocationError::NotFound, InvocationError::PermissionDenied, InvocationError::Other] {
        let stage = step(&sample(false), ToolFamily::Lint, Stage::Loaded, Some(Err(e)));
        assert_eq!(stage, Stage::Checked(Outcome::Fail(Failure::Invocation(e))));
        assert_eq!(conclude(&sample(false), ToolFamily::Lint, Err(e)), Outcome::Fail(Failure::Invocation(e)));
    }
}

#[test]
fn a_timeout_fails_the_fixture_whatever_was_printed() {
    let fixture = sample(false);
    let output = b("src/main.rs:1:5: warning: message [unused_variable]\n");
    let late = ToolRun::observe(Some(0), Vec::new(), output.clone(), 60_001, 60_000);
    assert_eq!(late.exit_code, TIMEOUT_EXIT_CODE);
    let stage = step(&fixture, ToolFamily::Lint, Stage::Invoked(late.clone()), None);
    assert_eq!(stage, Stage::Checked(Outcome::Fail(Failure::Timeout)));
    assert_eq!(conclude(&fixture, ToolFamily::Lint, Ok(late)), Outcome::Fail(Failure::Timeout));

    let in_time = ToolRun::observe(Some(0), Vec::new(), output, 60_000, 60_000);
    assert_eq!(conclude(&fixture, ToolFamily::Lint, Ok(in_time)), Outcome::Pass { warnings: vec![] });
    assert_eq!(
        conclude(&clean(), ToolFamily::Style, Ok(ToolRun::observe(None, vec![], vec![], 2, 1))),
        Outcome::Fail(Failure::Timeout)
    );
}

#[test]
fn output_that_cannot_be_read_fails_the_fixture() {
    let run = ToolRun::observe(Some(101), b("panicked"), b("boom"), 3, 10);
    let stage = step(&sample(false), ToolFamily::Lint, Stage::Invoked(run.clone()), None);
    let error = ParseError { exit_code: 101, stdout: b("panicked"), stderr: b("boom") };
    assert_eq!(stage, Stage::Checked(Outcome::Fail(Failure::Parse(error.clone()))));
    assert_eq!(conclude(&sample(false), ToolFamily::Lint, Ok(run)), Outcome::Fail(Failure::Parse(error)));
}

#[test]
fn a_tool_that_reports_what_is_expected_passes() {
    let fixtures = vec![
        Fixture::expecting(b("one"), b(""), list(&["a"]), false).unwrap(),
        Fixture::expecting(b("one-exact"), b(""), list(&["a"]), true).unwrap(),
        Fixture::expecting(b("three"), b(""), list(&["c", "a", "b"]), false).unwrap(),
        Fixture::expecting(b("three-exact"), b(""), list(&["c", "a", "b"]), true).unwrap(),
    ];
    for fixture in &fixtures {
        let tags: Vec<String> =
            fixture.expected().iter().map(|t| String::from_utf8(t.clone()).unwrap()).collect();
        let mut tags: Vec<&str> = tags.iter().map(|t| t.as_str()).collect();
        assert_eq!(
            conclude(fixture, ToolFamily::Lint, Ok(lint_run(0, &tags, 1))),
            Outcome::Pass { warnings: vec![] }
        );
        tags.reverse();
        tags.push(tags[0]);
        assert_eq!(
            conclude(fixture, ToolFamily::Lint, Ok(lint_run(1, &tags, 1))),
            Outcome::Pass { warnings: vec![] }
        );
    }
}

#[test]
fn extra_tags_warn_or_fail_by_mode() {
    let run = lint_run(0, &["unused_variable", "needless_return"], 1);
    assert_eq!(
        conclude(&sample(false), ToolFamily::Lint, Ok(run.clone())),
        Outcome::Pass { warnings: list(&["needless_return"]) }
    );
    assert_eq!(conclude(&sample(true), ToolFamily::Lint, Ok(run)), mismatch(&[], &["needless_return"]));
}

#[test]
fn missing_tags_fail_in_every_mode() {
    let run = lint_run(0, &["needless_return"], 1);
    assert_eq!(
        conclude(&sample(false), ToolFamily::Lint, Ok(run.clone())),
        mismatch(&["unused_variable"], &["needless_return"])
    );
    assert_eq!(
        conclude(&sample(true), ToolFamily::Lint, Ok(run)),
        mismatch(&["unused_variable"], &["needless_return"])
    );
    assert_eq!(
        conclude(&sample(false), ToolFamily::Lint, Ok(lint_run(0, &[], 1))),
        mismatch(&["unused_variable"], &[])
    );
}

#[test]
fn a_clean_fixture_passes_on_silence_only() {
    assert_eq!(
        conclude(&clean(), ToolFamily::Lint, Ok(lint_run(0, &[], 1))),
        Outcome::Pass { warnings: vec![] }
    );
    assert_eq!(
        conclude(&clean(), ToolFamily::Lint, Ok(lint_run(0, &["identity_op"], 1))),
        mismatch(&[], &["identity_op"])
    );
    assert_eq!(
        conclude(&clean(), ToolFamily::Lint, Ok(lint_run(1, &["b", "a", "b"], 1))),
        mismatch(&[], &["b", "a"])
    );
}

#[test]
fn a_style_fixture_is_checked_by_its_hunks() {
    let fixture = Fixture::expecting(b("layout"), b("fn main(){}"), list(&["formatting"]), true).unwrap();
    let diff = b("Diff in /tmp/0-layout.rs at line 1:\n-fn main(){}\n+fn main() {}\n");
    let run = ToolRun::observe(Some(1), diff, Vec::new(), 8, 1000);
    assert_eq!(conclude(&fixture, ToolFamily::Style, Ok(run.clone())), Outcome::Pass { warnings: vec![] });
    assert_eq!(conclude(&clean(), ToolFamily::Style, Ok(run)), mismatch(&[], &["formatting"]));
    let quiet = ToolRun::observe(Some(0), Vec::new(), Vec::new(), 8, 1000);
    assert_eq!(conclude(&fixture, ToolFamily::Style, Ok(quiet.clone())), mismatch(&["formatting"], &[]));
    assert_eq!(conclude(&clean(), ToolFamily::Style, Ok(quiet)), Outcome::Pass { warnings: vec![] });
}

#[test]
fn the_same_output_gives_the_same_outcome() {
    let fixtures = [sample(false), sample(true), clean()];
    let runs = [
        lint_run(0, &[], 1),
        lint_run(1, &[], 1),
        lint_run(0, &["unused_variable"], 1),
        lint_run(0, &["unused_variable", "identity_op"], 1),
        lint_run(3, &["identity_op"], 1),
    ];
    for fixture in &fixtures {
        for run in &runs {
            let first = conclude(fixture, ToolFamily::Lint, Ok(run.clone()));
            let second = conclude(fixture, ToolFamily::Lint, Ok(run.clone()));
            assert_eq!(first, second);
            let slower = ToolRun { duration_ms: run.duration_ms + 500, ..run.clone() };
            assert_eq!(conclude(fixture, ToolFamily::Lint, Ok(slower)), first);
        }
    }
}

#[test]
fn conclude_is_three_steps() {
    let fixtures = [sample(false), sample(true), clean()];
    let events: Vec<Result<ToolRun, InvocationError>> = vec![
        Err(InvocationError::NotFound),
        Ok(lint_run(0, &[], 1)),
        Ok(lint_run(2, &[], 1)),
        Ok(lint_run(0, &["unused_variable", "x"], 1)),
        Ok(ToolRun::observe(Some(0), vec![], vec![], 9, 1)),
    ];
    for fixture in &fixtures {
        for event in &events {
            let mut stage = step(fixture, ToolFamily::Lint, Stage::Loaded, Some(event.clone()));
            stage = step(fixture, ToolFamily::Lint, stage, None);
            stage = step(fixture, ToolFamily::Lint, stage, None);
            assert_eq!(stage, Stage::Checked(conclude(fixture, ToolFamily::Lint, event.clone())));
        }
    }
}

#[test]
fn cancel_ends_what_is_not_over() {
    let timeout = Stage::Checked(Outcome::Fail(Failure::Timeout));
    assert_eq!(cancel(Stage::Loaded), timeout);
    assert_eq!(cancel(Stage::Invoked(lint_run(0, &[], 1))), timeout);
    assert_eq!(cancel(Stage::Parsed(ViolationReport::new())), timeout);
    let done = Outcome::Pass { warnings: list(&["w"]) };
    assert_eq!(cancel(Stage::Checked(done.clone())), Stage::Checked(done));
    let failed = mismatch(&["a"], &[]);
    assert_eq!(cancel(Stage::Checked(failed.clone())), Stage::Checked(failed));
}

#[test]
fn check_lists_both_halves_of_the_difference() {
    let fixture = Fixture::expecting(b("f"), b(""), list(&["a", "b", "c", "d"]), false).unwrap();
    let mut report = ViolationReport::new();
    for (i, t) in ["x", "d", "y", "b", "x"].iter().enumerate() {
        report.record(b(t), Location { line: i as u32, column: 0 });
    }
    let result = check(&fixture, &report);
    assert_eq!(
        result,
        ConformanceResult { passed: false, missing: list(&["a", "c"]), unexpected: list(&["x", "y"]) }
    );
}

#[test]
fn one_plain_line_per_tag_passes_without_warning() {
    let fixtures = [
        Fixture::expecting(b("a"), b(""), list(&["needless_return"]), true).unwrap(),
        Fixture::expecting(b("b"), b(""), list(&["len_zero", "identity_op", "SC-2148"]), true).unwrap(),
        Fixture::expecting(b("c"), b(""), list(&["x", "X", "_", "-", "0"]), false).unwrap(),
    ];
    for fixture in &fixtures {
        let lines: Vec<Vec<u8>> = fixture
            .expected()
            .iter()
            .map(|t| [b"f:1:1:[".as_slice(), t.as_slice(), b"]".as_slice()].concat())
            .collect();
        let output = lines.join(&b'\n');
        let run = ToolRun { exit_code: 0, stdout: output, stderr: Vec::new(), duration_ms: 3 };
        assert_eq!(conclude(fixture, ToolFamily::Lint, Ok(run)), Outcome::Pass { warnings: vec![] });
    }
}
