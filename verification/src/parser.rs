//! Reading violations out of tool output.
//!
//! Each supported tool family has a line-oriented schema. A line that does
//! not fit the schema is passed over, since tools print banners and
//! summaries between their findings.

use vstd::prelude::*;
use vstd::slice::{slice_subrange, slice_to_vec};
use crate::report::{findings, grouped, Diagnostic, Finding, Group, Location, ViolationReport};
use crate::text::{
    all_in, bytes_eq, decimal_digits, decimal_u32, lemma_decimal_digits, lemma_split_concat,
    lemma_split_join, lemma_split_whole, lemma_suffix_run_exact, lines, parse_decimal, split,
    split_bytes, starts_with, suffix_run, suffix_start, views, without_cr, ByteClass,
    BRACKET_CLOSE, BRACKET_OPEN, COLON, LINE_FEED,
};
use crate::tool_run::{RunView, ToolRun};

verus! {

/// The tool families whose output can be read.
#[derive(Clone, Copy, Debug, PartialEq, Eq, Structural)]
pub enum ToolFamily {
    /// A style checker. It prints the difference between a source and its
    /// formatted form, hunk by hunk, and names no rules: that there is a
    /// difference is the violation.
    Style,
    /// A lint checker. It prints one line per finding, with the place and
    /// the name of the rule.
    Lint,
}

/// `style`, the name of the style family.
pub const NAME_STYLE: [u8; 5] = [115, 116, 121, 108, 101];

/// `rustfmt`, a style checker.
pub const NAME_RUSTFMT: [u8; 7] = [114, 117, 115, 116, 102, 109, 116];

/// `lint`, the name of the lint family.
pub const NAME_LINT: [u8; 4] = [108, 105, 110, 116];

/// `clippy`, a lint checker.
pub const NAME_CLIPPY: [u8; 6] = [99, 108, 105, 112, 112, 121];

/// The family of the tool of the given name, for the names that are known:
/// a family's own name, or that of a tool that belongs to it.
pub open spec fn family_of(name: Seq<u8>) -> Option<ToolFamily> {
    if name == NAME_STYLE@ || name == NAME_RUSTFMT@ {
        Some(ToolFamily::Style)
    } else if name == NAME_LINT@ || name == NAME_CLIPPY@ {
        Some(ToolFamily::Lint)
    } else {
        None
    }
}

impl ToolFamily {
    /// The family of the tool of the given name, if the name is known.
    pub fn from_name(name: &[u8]) -> (family: Option<ToolFamily>)
        ensures
            family == family_of(name@),
    {
        if bytes_eq(name, NAME_STYLE.as_slice()) || bytes_eq(name, NAME_RUSTFMT.as_slice()) {
            Some(ToolFamily::Style)
        } else if bytes_eq(name, NAME_LINT.as_slice()) || bytes_eq(name, NAME_CLIPPY.as_slice()) {
            Some(ToolFamily::Lint)
        } else {
            None
        }
    }
}

/// `Diff in `, which opens the header of a hunk in a style checker's output.
pub const HUNK_PREFIX: [u8; 8] = [68, 105, 102, 102, 32, 105, 110, 32];

/// `formatting`, the one tag under which a style checker's hunks are filed.
pub const STYLE_TAG: [u8; 10] = [102, 111, 114, 109, 97, 116, 116, 105, 110, 103];

/// The suffix of `s` made of bytes of `class`.
pub open spec fn suffix_of(s: Seq<u8>, class: ByteClass) -> Seq<u8> {
    s.skip(s.len() - suffix_run(s, class))
}

/// What a style checker's line reports.
///
/// A hunk header starts with `Diff in `, ends with a colon, and has the
/// hunk's line number directly before that colon:
/// `Diff in src/main.rs at line 4:` or `Diff in src/main.rs:4:`.
/// The hunk is filed under `formatting`, at column 1 of that line.
pub open spec fn style_finding(line: Seq<u8>) -> Option<Finding> {
    if HUNK_PREFIX@.is_prefix_of(line) && line.len() > 0 && line.last() == COLON {
        match decimal_u32(suffix_of(line.drop_last(), ByteClass::Digit)) {
            Some(n) => Some((STYLE_TAG@, Location { line: n, column: 1 })),
            None => None,
        }
    } else {
        None
    }
}

/// What a lint checker's line reports.
///
/// A finding has the form `path:line:column: message [rule]`: a non-empty
/// path, two decimal numbers, and at the very end the rule's name in square
/// brackets, written with letters, digits, `_` and `-`.
pub open spec fn lint_finding(line: Seq<u8>) -> Option<Finding> {
    let fields = split(line, COLON);
    let body = line.drop_last();
    let tag = suffix_of(body, ByteClass::RuleName);
    if line.len() > 0 && line.last() == BRACKET_CLOSE && fields.len() >= 4 && fields[0].len() > 0
        && 0 < tag.len() < body.len() && body[body.len() - tag.len() - 1] == BRACKET_OPEN {
        match (decimal_u32(fields[1]), decimal_u32(fields[2])) {
            (Some(l), Some(c)) => Some((tag, Location { line: l, column: c })),
            _ => None,
        }
    } else {
        None
    }
}

/// What a line of a tool of the given family reports, if anything.
pub open spec fn finding_of(tool: ToolFamily, line: Seq<u8>) -> Option<Finding> {
    match tool {
        ToolFamily::Style => style_finding(line),
        ToolFamily::Lint => lint_finding(line),
    }
}

/// The findings among `lines`, in order.
pub open spec fn findings_in(tool: ToolFamily, lines: Seq<Seq<u8>>) -> Seq<Finding> {
    lines.filter_map(|l: Seq<u8>| finding_of(tool, l))
}

/// ` at line `, which stands before the line number in a hunk header.
pub const AT_LINE: [u8; 9] = [32, 97, 116, 32, 108, 105, 110, 101, 32];

/// The header of a hunk at line `n` of the file at `path`, as a style
/// checker prints it.
pub open spec fn style_line(path: Seq<u8>, n: u32) -> Seq<u8> {
    (HUNK_PREFIX@ + path + AT_LINE@ + decimal_digits(n as nat)).push(COLON)
}

/// The line of a finding as a lint checker prints it: the place, a message
/// and the rule's name in brackets.
pub open spec fn lint_line(path: Seq<u8>, at: Location, message: Seq<u8>, rule: Seq<u8>) -> Seq<
    u8,
> {
    (((path.push(COLON) + decimal_digits(at.line as nat)).push(COLON) + decimal_digits(
        at.column as nat,
    )).push(COLON) + message.push(BRACKET_OPEN) + rule).push(BRACKET_CLOSE)
}

/// A hunk header reads as one violation of `formatting` at the header's
/// line, whatever the path.
pub proof fn lemma_style_line_reads_back(path: Seq<u8>, n: u32)
    ensures
        style_finding(style_line(path, n)) == Some((STYLE_TAG@, Location { line: n, column: 1 })),
{
    let digits = decimal_digits(n as nat);
    let line = style_line(path, n);
    let body = line.drop_last();
    lemma_decimal_digits(n as nat);
    let at = AT_LINE@;
    assert(at.len() == 9);
    assert(at[8] == 32u8);
    let head = HUNK_PREFIX@ + path + at.drop_last();
    assert(body =~= head.push(32u8) + digits);
    lemma_suffix_run_exact(head, 32u8, digits, ByteClass::Digit);
    assert(HUNK_PREFIX@ =~= line.subrange(0, HUNK_PREFIX@.len() as int));
}

/// A finding's line reads as that finding: the rule and the place come back
/// as they were written, whatever the message. The path is not empty and
/// holds no colon, and the rule is a name.
pub proof fn lemma_lint_line_reads_back(
    path: Seq<u8>,
    at: Location,
    message: Seq<u8>,
    rule: Seq<u8>,
)
    requires
        path.len() > 0,
        forall|i: int| 0 <= i < path.len() ==> path[i] != COLON,
        rule.len() > 0,
        all_in(rule, ByteClass::RuleName),
    ensures
        lint_finding(lint_line(path, at, message, rule)) == Some((rule, at)),
{
    let dl = decimal_digits(at.line as nat);
    let dc = decimal_digits(at.column as nat);
    let line = lint_line(path, at, message, rule);
    let body = line.drop_last();
    lemma_decimal_digits(at.line as nat);
    lemma_decimal_digits(at.column as nat);
    let head = (path.push(COLON) + dl).push(COLON) + dc;
    let tail = (message.push(BRACKET_OPEN) + rule).push(BRACKET_CLOSE);
    assert(line =~= head.push(COLON) + tail);
    lemma_split_concat(head, tail, COLON);
    lemma_split_concat(path.push(COLON) + dl, dc, COLON);
    lemma_split_concat(path, dl, COLON);
    lemma_split_whole(path, COLON);
    lemma_split_whole(dl, COLON);
    lemma_split_whole(dc, COLON);
    lemma_split_join(tail, COLON);
    let fields = split(line, COLON);
    assert(fields =~= seq![path, dl, dc] + split(tail, COLON));
    assert(fields[0] == path);
    assert(fields[1] == dl);
    assert(fields[2] == dc);
    let before = (path.push(COLON) + dl).push(COLON) + dc.push(COLON) + message;
    assert(body =~= before.push(BRACKET_OPEN) + rule);
    lemma_suffix_run_exact(before, BRACKET_OPEN, rule, ByteClass::RuleName);
}

/// Whether `read` is what the schema says of a line.
pub open spec fn reads_as(read: Option<Diagnostic>, finding: Option<Finding>) -> bool {
    match read {
        Some(d) => finding == Some(d@),
        None => finding is None,
    }
}

/// The bytes of `s` from `start` on, as a vector.
fn tail_to_vec(s: &[u8], start: usize) -> (tail: Vec<u8>)
    requires
        start <= s@.len(),
    ensures
        tail@ == s@.skip(start as int),
{
    let tail = slice_to_vec(slice_subrange(s, start, s.len()));
    assert(tail@ =~= s@.skip(start as int));
    tail
}

/// Reads one line of a style checker's output.
pub fn parse_style_line(line: &[u8]) -> (read: Option<Diagnostic>)
    ensures
        reads_as(read, style_finding(line@)),
{
    let n = line.len();
    if n == 0 || !starts_with(line, HUNK_PREFIX.as_slice()) || line[n - 1] != COLON {
        return None;
    }
    let body = slice_subrange(line, 0, n - 1);
    assert(body@ =~= line@.drop_last());
    let start = suffix_start(body, ByteClass::Digit);
    let digits = tail_to_vec(body, start);
    match parse_decimal(digits.as_slice()) {
        Some(number) => Some(
            Diagnostic {
                tag: slice_to_vec(STYLE_TAG.as_slice()),
                at: Location { line: number, column: 1 },
            },
        ),
        None => None,
    }
}

/// Reads one line of a lint checker's output.
pub fn parse_lint_line(line: &[u8]) -> (read: Option<Diagnostic>)
    ensures
        reads_as(read, lint_finding(line@)),
{
    let n = line.len();
    if n == 0 || line[n - 1] != BRACKET_CLOSE {
        return None;
    }
    let fields = split_bytes(line, COLON);
    if fields.len() < 4 || fields[0].len() == 0 {
        return None;
    }
    let body = slice_subrange(line, 0, n - 1);
    assert(body@ =~= line@.drop_last());
    let start = suffix_start(body, ByteClass::RuleName);
    if start == body.len() || start == 0 || body[start - 1] != BRACKET_OPEN {
        return None;
    }
    let tag = tail_to_vec(body, start);
    assert(views(fields@)[0] == fields@[0]@);
    assert(views(fields@)[1] == fields@[1]@);
    assert(views(fields@)[2] == fields@[2]@);
    match parse_decimal(fields[1].as_slice()) {
        Some(l) => match parse_decimal(fields[2].as_slice()) {
            Some(c) => Some(Diagnostic { tag, at: Location { line: l, column: c } }),
            None => None,
        },
        None => None,
    }
}

/// Reads one line of the output of a tool of the given family.
pub fn parse_line(tool: ToolFamily, line: &[u8]) -> (read: Option<Diagnostic>)
    ensures
        reads_as(read, finding_of(tool, line@)),
{
    match tool {
        ToolFamily::Style => parse_style_line(line),
        ToolFamily::Lint => parse_lint_line(line),
    }
}

/// The findings after one more line.
pub proof fn lemma_findings_push(tool: ToolFamily, before: Seq<Seq<u8>>, line: Seq<u8>)
    ensures
        findings_in(tool, before.push(line)) == match finding_of(tool, line) {
            Some(f) => findings_in(tool, before).push(f),
            None => findings_in(tool, before),
        },
{
    let read = |l: Seq<u8>| finding_of(tool, l);
    let longer = before.push(line);
    assert(longer.drop_last() =~= before);
    match finding_of(tool, line) {
        Some(f) => {
            assert(longer.filter_map(read) =~= before.filter_map(read).push(f));
        },
        None => {},
    }
}

/// The findings of two texts' lines, one after the other.
pub proof fn lemma_findings_concat(tool: ToolFamily, first: Seq<Seq<u8>>, second: Seq<Seq<u8>>)
    ensures
        findings_in(tool, first + second) == findings_in(tool, first) + findings_in(tool, second),
    decreases second.len(),
{
    if second.len() == 0 {
        assert(first + second =~= first);
        assert(findings_in(tool, second) =~= Seq::<Finding>::empty());
        assert(findings_in(tool, first) + Seq::<Finding>::empty() =~= findings_in(tool, first));
    } else {
        let shorter = second.drop_last();
        let line = second.last();
        assert(second =~= shorter.push(line));
        assert(first + second =~= (first + shorter).push(line));
        lemma_findings_concat(tool, first, shorter);
        lemma_findings_push(tool, first + shorter, line);
        lemma_findings_push(tool, shorter, line);
        match finding_of(tool, line) {
            Some(f) => {
                assert((findings_in(tool, first) + findings_in(tool, shorter)).push(f)
                    =~= findings_in(tool, first) + findings_in(tool, shorter).push(f));
            },
            None => {},
        }
    }
}

/// Appends to `found` what the lines of `text` report, in order.
pub fn scan(tool: ToolFamily, text: &[u8], found: &mut Vec<Diagnostic>)
    ensures
        findings(final(found)@) == findings(old(found)@) + findings_in(tool, lines(text@)),
{
    let pieces = split_bytes(text, LINE_FEED);
    let ghost all = lines(text@);
    let ghost base = findings(found@);
    let mut i: usize = 0;
    proof {
        assert(all.take(0) =~= Seq::<Seq<u8>>::empty());
        assert(findings_in(tool, all.take(0)) =~= Seq::<Finding>::empty());
        assert(base + Seq::<Finding>::empty() =~= base);
    }
    while i < pieces.len()
        invariant
            i <= pieces@.len(),
            views(pieces@) == split(text@, LINE_FEED),
            all == lines(text@),
            all.len() == pieces@.len(),
            findings(found@) == base + findings_in(tool, all.take(i as int)),
        decreases pieces@.len() - i,
    {
        let line = without_cr(pieces[i].as_slice());
        proof {
            assert(views(pieces@)[i as int] == pieces@[i as int]@);
            assert(all[i as int] == line@);
            assert(all.take(i + 1) =~= all.take(i as int).push(line@));
            lemma_findings_push(tool, all.take(i as int), line@);
        }
        let ghost before = found@;
        match parse_line(tool, line) {
            Some(d) => {
                found.push(d);
                assert(findings(found@) =~= findings(before).push(d@));
                assert(findings(found@) =~= base + findings_in(tool, all.take(i + 1)));
            },
            None => {},
        }
        i += 1;
    }
    assert(all.take(i as int) =~= all);
}

/// The lines of a run's output: those of standard output, then those of
/// standard error.
pub open spec fn output_lines(stdout: Seq<u8>, stderr: Seq<u8>) -> Seq<Seq<u8>> {
    lines(stdout) + lines(stderr)
}

/// The groups that the output of a tool of the given family amounts to, or
/// `None` where the output fits no schema: the tool exited with a failure
/// and not one of its lines reads as a finding.
pub open spec fn report_of(tool: ToolFamily, exit_code: i64, stdout: Seq<u8>, stderr: Seq<u8>)
    -> Option<Seq<Group>> {
    let found = findings_in(tool, output_lines(stdout, stderr));
    if found.len() == 0 && exit_code != 0 {
        None
    } else {
        Some(grouped(found))
    }
}

/// Output that fits no schema of the tool's family, kept whole for whoever
/// looks into it.
#[derive(Clone, Debug, PartialEq, Eq)]
pub struct ParseError {
    /// The exit code of the run.
    pub exit_code: i64,
    /// The run's standard output.
    pub stdout: Vec<u8>,
    /// The run's standard error.
    pub stderr: Vec<u8>,
}

/// Output that fits no schema, in the model.
pub struct ParseErrorView {
    /// The exit code of the run.
    pub exit_code: i64,
    /// The run's standard output.
    pub stdout: Seq<u8>,
    /// The run's standard error.
    pub stderr: Seq<u8>,
}

impl View for ParseError {
    type V = ParseErrorView;

    open spec fn view(&self) -> ParseErrorView {
        ParseErrorView { exit_code: self.exit_code, stdout: self.stdout@, stderr: self.stderr@ }
    }
}

/// What reading a run of a tool of the given family comes to.
pub open spec fn parsed(tool: ToolFamily, run: RunView) -> Result<Seq<Group>, ParseErrorView> {
    match report_of(tool, run.exit_code, run.stdout, run.stderr) {
        Some(groups) => Ok(groups),
        None => Err(
            ParseErrorView { exit_code: run.exit_code, stdout: run.stdout, stderr: run.stderr },
        ),
    }
}

/// Reads the violations out of a run of a tool of the given family.
///
/// Lines that do not read as findings are passed over. A run that exited
/// with a failure without a single finding is an error, and the error
/// carries the output as it came.
pub fn parse(tool: ToolFamily, run: ToolRun) -> (read: Result<ViolationReport, ParseError>)
    ensures
        match read {
            Ok(report) => parsed(tool, run@) == Ok::<Seq<Group>, ParseErrorView>(report@),
            Err(e) => parsed(tool, run@) == Err::<Seq<Group>, ParseErrorView>(e@),
        },
{
    let mut found: Vec<Diagnostic> = Vec::new();
    proof {
        assert(findings(found@) =~= Seq::<Finding>::empty());
    }
    scan(tool, run.stdout.as_slice(), &mut found);
    scan(tool, run.stderr.as_slice(), &mut found);
    proof {
        lemma_findings_concat(tool, lines(run.stdout@), lines(run.stderr@));
        assert(findings(found@) =~= findings_in(tool, output_lines(run.stdout@, run.stderr@)));
    }
    if found.len() == 0 && run.exit_code != 0 {
        Err(ParseError { exit_code: run.exit_code, stdout: run.stdout, stderr: run.stderr })
    } else {
        Ok(ViolationReport::from_diagnostics(&found))
    }
}

} // verus!
