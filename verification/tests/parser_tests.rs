use conformance::parser::{
    parse, parse_line, parse_lint_line, parse_style_line, scan, ParseError, ToolFamily,
};
use conformance::report::{Diagnostic, Location};
use conformance::tool_run::ToolRun;

fn b(text: &str) -> Vec<u8> {
    text.as_bytes().to_vec()
}

fn at(line: u32, column: u32) -> Location {
    Location { line, column }
}

fn found(tag: &str, line: u32, column: u32) -> Option<Diagnostic> {
    Some(Diagnostic { tag: b(tag), at: at(line, column) })
}

fn run(exit_code: i64, stdout: &str, stderr: &str) -> ToolRun {
    ToolRun { exit_code, stdout: b(stdout), stderr: b(stderr), duration_ms: 12 }
}

#[test]
fn tool_names_select_the_family() {
    assert_eq!(ToolFamily::from_name(b"style"), Some(ToolFamily::Style));
    assert_eq!(ToolFamily::from_name(b"rustfmt"), Some(ToolFamily::Style));
    assert_eq!(ToolFamily::from_name(b"lint"), Some(ToolFamily::Lint));
    assert_eq!(ToolFamily::from_name(b"clippy"), Some(ToolFamily::Lint));
    assert_eq!(ToolFamily::from_name(b""), None);
    assert_eq!(ToolFamily::from_name(b"Clippy"), None);
    assert_eq!(ToolFamily::from_name(b"clippy "), None);
    assert_eq!(ToolFamily::from_name(b"eslint"), None);
}

#[test]
fn style_line_reads_hunk_headers() {
    assert_eq!(
        parse_style_line(b"Diff in /tmp/rustfmt_violations.rs at line 4:"),
        found("formatting", 4, 1)
    );
    assert_eq!(parse_style_line(b"Diff in /tmp/rustfmt_violations.rs:26:"), found("formatting", 26, 1));
    assert_eq!(parse_style_line(b"Diff in a b c at line 4294967295:"), found("formatting", u32::MAX, 1));
    assert_eq!(parse_style_line(b"Diff in 12:"), found("formatting", 12, 1));
}

#[test]
fn style_line_passes_over_other_lines() {
    assert_eq!(parse_style_line(b""), None);
    assert_eq!(parse_style_line(b"-fn main(){"), None);
    assert_eq!(parse_style_line(b"+fn main() {"), None);
    assert_eq!(parse_style_line(b"Diff in /tmp/x.rs at line 4"), None);
    assert_eq!(parse_style_line(b"diff in /tmp/x.rs at line 4:"), None);
    assert_eq!(parse_style_line(b" Diff in /tmp/x.rs at line 4:"), None);
    assert_eq!(parse_style_line(b"Diff in /tmp/x.rs at line :"), None);
    assert_eq!(parse_style_line(b"Diff in :"), None);
    assert_eq!(parse_style_line(b"Diff in /tmp/x.rs at line 4294967296:"), None);
    assert_eq!(parse_style_line(b"Diff in /tmp/x.rs at line 4: "), None);
    assert_eq!(parse_style_line(b"Diff in"), None);
}

#[test]
fn lint_line_reads_findings() {
    assert_eq!(
        parse_lint_line(b"src/main.rs:7:5: warning: unneeded `return` statement [needless_return]"),
        found("needless_return", 7, 5)
    );
    assert_eq!(parse_lint_line(b"a:1:2:[x]"), found("x", 1, 2));
    assert_eq!(parse_lint_line(b"a.c:10:1: note: tips [SC-2148]"), found("SC-2148", 10, 1));
    assert_eq!(
        parse_lint_line(b"src/main.rs:142:13: warning: a: b: c [identity_op]"),
        found("identity_op", 142, 13)
    );
    assert_eq!(parse_lint_line(b"f:0:0: [a] [b]"), found("b", 0, 0));
}

#[test]
fn lint_line_passes_over_other_lines() {
    assert_eq!(parse_lint_line(b""), None);
    assert_eq!(parse_lint_line(b"warning: 3 warnings emitted"), None);
    assert_eq!(parse_lint_line(b"    Finished dev [unoptimized]"), None);
    assert_eq!(parse_lint_line(b"src/main.rs:7:5: warning: unneeded return"), None);
    assert_eq!(parse_lint_line(b"src/main.rs:7: warning [needless_return]"), None);
    assert_eq!(parse_lint_line(b":7:5: warning [needless_return]"), None);
    assert_eq!(parse_lint_line(b"src/main.rs:x:5: warning [needless_return]"), None);
    assert_eq!(parse_lint_line(b"src/main.rs:7:y: warning [needless_return]"), None);
    assert_eq!(parse_lint_line(b"src/main.rs:7:5: warning []"), None);
    assert_eq!(parse_lint_line(b"src/main.rs:7:5: warning [needless return]"), None);
    assert_eq!(parse_lint_line(b"src/main.rs:7:5: warning needless_return]"), None);
    assert_eq!(parse_lint_line(b"src/main.rs:7:5: warning [needless_return] "), None);
    assert_eq!(parse_lint_line(b"src/main.rs:7:5: warning [clippy::needless_return]"), None);
    assert_eq!(parse_lint_line(b"src/main.rs:4294967296:5: warning [needless_return]"), None);
    assert_eq!(parse_lint_line(b"a:1:2[x]"), None);
    assert_eq!(parse_lint_line(b"needless_return]"), None);
}

#[test]
fn parse_line_goes_by_family() {
    let hunk = b"Diff in /tmp/x.rs at line 4:";
    let finding = b"x.rs:1:2: w [len_zero]";
    assert_eq!(parse_line(ToolFamily::Style, hunk), found("formatting", 4, 1));
    assert_eq!(parse_line(ToolFamily::Lint, hunk), None);
    assert_eq!(parse_line(ToolFamily::Lint, finding), found("len_zero", 1, 2));
    assert_eq!(parse_line(ToolFamily::Style, finding), None);
}

#[test]
fn scan_appends_findings_in_order() {
    let mut list = vec![Diagnostic { tag: b("earlier"), at: at(9, 9) }];
    scan(
        ToolFamily::Lint,
        b"banner\nx.rs:1:2: w [b]\r\n\nx.rs:3:4: w [a]\nsummary: 2 warnings\nx.rs:5:6: w [b]",
        &mut list,
    );
    assert_eq!(
        list,
        vec![
            Diagnostic { tag: b("earlier"), at: at(9, 9) },
            Diagnostic { tag: b("b"), at: at(1, 2) },
            Diagnostic { tag: b("a"), at: at(3, 4) },
            Diagnostic { tag: b("b"), at: at(5, 6) },
        ]
    );
}

#[test]
fn parse_reads_lint_output_from_both_streams() {
    let report = parse(
        ToolFamily::Lint,
        run(
            0,
            "x.rs:1:2: w [from_stdout]\n",
            "   Checking sample v0.1.0\nx.rs:7:5: warning: m [needless_return]\nx.rs:9:1: warning: m [from_stdout]\n",
        ),
    )
    .unwrap();
    assert_eq!(report.tag_list(), vec![b("from_stdout"), b("needless_return")]);
    assert_eq!(report.occurrences(b"from_stdout"), vec![at(1, 2), at(9, 1)]);
    assert_eq!(report.occurrences(b"needless_return"), vec![at(7, 5)]);
}

#[test]
fn parse_reads_style_output() {
    let output = "Diff in /tmp/s.rs at line 4:\n-fn main(){\n+fn main() {\nDiff in /tmp/s.rs at line 26:\n-x\n+y\n";
    let report = parse(ToolFamily::Style, run(1, output, "")).unwrap();
    assert_eq!(report.tag_list(), vec![b("formatting")]);
    assert_eq!(report.occurrences(b"formatting"), vec![at(4, 1), at(26, 1)]);
}

#[test]
fn parse_of_quiet_success_is_the_empty_report() {
    for tool in [ToolFamily::Style, ToolFamily::Lint] {
        assert!(parse(tool, run(0, "", "")).unwrap().is_empty());
        assert!(parse(tool, run(0, "all good\n", "Finished in 0.1s\n")).unwrap().is_empty());
    }
}

#[test]
fn parse_fails_on_failure_without_findings_and_keeps_the_output() {
    for tool in [ToolFamily::Style, ToolFamily::Lint] {
        let error = parse(tool, run(101, "thread 'main' panicked", "error: internal\n")).unwrap_err();
        assert_eq!(
            error,
            ParseError { exit_code: 101, stdout: b("thread 'main' panicked"), stderr: b("error: internal\n") }
        );
        assert!(parse(tool, run(1, "", "")).is_err());
        assert!(parse(tool, run(-1, "", "")).is_err());
    }
}

#[test]
fn parse_accepts_failure_with_findings() {
    let report = parse(ToolFamily::Lint, run(1, "", "x.rs:1:1: error: m [deny_me]\n")).unwrap();
    assert_eq!(report.tag_list(), vec![b("deny_me")]);
}

#[test]
fn parse_does_not_mix_families() {
    let lint_output = "x.rs:1:2: w [len_zero]\n";
    assert!(parse(ToolFamily::Style, run(0, lint_output, "")).unwrap().is_empty());
    assert!(parse(ToolFamily::Style, run(1, lint_output, "")).is_err());
}
