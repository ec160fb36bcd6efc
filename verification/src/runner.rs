//! The test runner: case loading, document synthesis, output scanning and
//! the three execution strategies.
//!
//! Every subprocess and file step of a pipeline is performed outside the
//! library and reported back as a plain event: either a fault carrying the
//! collaborator's message, or the text the step produced.  The runner turns
//! cases and events into classified results, so each strategy is a pure,
//! fully specified function of its inputs.

use vstd::prelude::*;

use crate::engine::SpreadsheetEngine;
use crate::num::Num;
use crate::num::nearly_matches;
use crate::num::parse_num;
use crate::num::spec_parse_num;
use crate::num::strict_close;
use crate::num::strict_matches;
use crate::text::chars_of;
use crate::text::clean_cell;
use crate::text::clean_cell_chars;
use crate::text::eq_chars;
use crate::text::remove_char;
use crate::text::skip_chars;
use crate::text::spec_starts_with;
use crate::text::split_char;
use crate::text::split_on;
use crate::text::starts_with_chars;
use crate::text::strip_char;
use crate::text::trim_blanks_chars;
use crate::text::trim_edges;
use crate::text::views_of;
use crate::types::CaseModel;
use crate::types::ResultModel;
use crate::types::SkipCase;
use crate::types::TestCase;
use crate::types::TestResult;
use crate::types::TestSpec;
use crate::types::case_models;
use crate::types::extract_skip_cases;
use crate::types::extract_test_cases;
use crate::types::extraction_cases;
use crate::types::extraction_skips;
use crate::types::result_model;
use crate::types::skip_models;

verus! {

/// The views of a vector of text lines.
pub open spec fn line_views(lines: Seq<String>) -> Seq<Seq<char>> {
    lines.map_values(|l: String| l@)
}

/// Each raw cell of a split line, cleaned.
pub open spec fn clean_all(cells: Seq<Seq<char>>) -> Seq<Seq<char>> {
    cells.map_values(|c: Seq<char>| clean_cell(c))
}

/// The cells of one line of delimited text: split on commas, each cell
/// unquoted and trimmed.
pub open spec fn cells_of_line(line: Seq<char>) -> Seq<Seq<char>> {
    clean_all(split_on(line, ','))
}

/// Splits and cleans one line, exactly per `cells_of_line`.
pub fn line_cells(line: &str) -> (r: Vec<Vec<char>>)
    ensures
        views_of(r@) == cells_of_line(line@),
{
    let cs = chars_of(line);
    let raw = split_char(&cs, ',');
    let n = raw.len();
    let mut out: Vec<Vec<char>> = Vec::new();
    let mut i: usize = 0;
    while i < n
        invariant
            0 <= i <= n,
            n == raw@.len(),
            views_of(raw@) == split_on(line@, ','),
            out@.len() == i,
            forall|k: int| 0 <= k < i ==> (#[trigger] out@[k])@ == clean_cell(raw@[k]@),
        decreases n - i,
    {
        let cell = clean_cell_chars(&raw[i]);
        out.push(cell);
        i = i + 1;
    }
    proof {
        assert forall|k: int| 0 <= k < n implies views_of(out@)[k] == cells_of_line(line@)[k] by {
            assert(views_of(out@)[k] == out@[k]@);
            assert(cells_of_line(line@)[k] == clean_cell(split_on(line@, ',')[k]));
            assert(split_on(line@, ',')[k] == views_of(raw@)[k]);
        }
        assert(views_of(out@).len() == n && cells_of_line(line@).len() == n);
        assert(views_of(out@) =~= cells_of_line(line@));
    }
    out
}

/// Whether a cell is one of the reserved result labels.
pub open spec fn labeled_cell(c: Seq<char>) -> bool {
    c == "result"@ || c == "test_result"@
}

/// The single-case extraction scan over the cells of one line, from cell
/// `i` on: a reserved label makes the following cell the result if it
/// parses; otherwise any cell that parses and lies near the expectation is
/// accepted; first match wins.
pub open spec fn scan_cells(cells: Seq<Seq<char>>, i: int, expected: Num) -> Option<Num>
    decreases cells.len() - i,
{
    if i < 0 || i >= cells.len() {
        None
    } else if labeled_cell(cells[i]) && i + 1 < cells.len() && spec_parse_num(
        remove_char(cells[i + 1], ','),
    ) is Some {
        spec_parse_num(remove_char(cells[i + 1], ','))
    } else {
        let v = spec_parse_num(remove_char(cells[i], ','));
        if v is Some && nearly_matches(v->0, expected) {
            v
        } else {
            scan_cells(cells, i + 1, expected)
        }
    }
}

/// The single-case extraction scan over one line.
pub open spec fn scan_line_for(line: Seq<char>, expected: Num) -> Option<Num> {
    scan_cells(cells_of_line(line), 0, expected)
}

/// The single-case extraction scan over whole output: the first line that
/// yields a value decides.
pub open spec fn scan_lines_for(lines: Seq<Seq<char>>, expected: Num) -> Option<Num>
    decreases lines.len(),
{
    if lines.len() == 0 {
        None
    } else {
        match scan_line_for(lines[0], expected) {
            Some(v) => Some(v),
            None => scan_lines_for(lines.skip(1), expected),
        }
    }
}

/// Scans the cells of one line from `from` on, exactly per `scan_cells`.
fn scan_cells_exec(cells: &Vec<Vec<char>>, expected: Num) -> (r: Option<Num>)
    ensures
        r == scan_cells(views_of(cells@), 0, expected),
{
    let n = cells.len();
    let label_result = chars_of("result");
    let label_test_result = chars_of("test_result");
    let mut i: usize = 0;
    while i < n
        invariant
            0 <= i <= n,
            n == cells@.len(),
            label_result@ == "result"@,
            label_test_result@ == "test_result"@,
            scan_cells(views_of(cells@), 0, expected) == scan_cells(
                views_of(cells@),
                i as int,
                expected,
            ),
        decreases n - i,
    {
        let is_label = eq_chars(&cells[i], &label_result) || eq_chars(&cells[i], &label_test_result);
        if is_label && i + 1 < n {
            let stripped = strip_char(&cells[i + 1], ',');
            match parse_num(&stripped) {
                Some(v) => {
                    return Some(v);
                },
                None => {},
            }
        }
        let own = strip_char(&cells[i], ',');
        match parse_num(&own) {
            Some(v) => {
                if crate::num::nearly_close(v, expected) {
                    return Some(v);
                }
            },
            None => {},
        }
        i = i + 1;
    }
    None
}

/// Scans whole delimited output for the single-case result, exactly per
/// `scan_lines_for`; without a match the extraction error is reported.
pub fn find_result_in_csv(lines: &Vec<String>, expected: Num) -> (r: Result<Num, String>)
    ensures
        ({
            match scan_lines_for(line_views(lines@), expected) {
                Some(v) => r == Ok::<Num, String>(v),
                None => r is Err && (r->Err_0)@ == "Could not find result in CSV output"@,
            }
        }),
{
    let n = lines.len();
    let ghost whole = line_views(lines@);
    let mut i: usize = 0;
    proof {
        assert(whole.skip(0) =~= whole);
    }
    while i < n
        invariant
            0 <= i <= n,
            n == lines@.len(),
            whole == line_views(lines@),
            scan_lines_for(whole, expected) == scan_lines_for(whole.skip(i as int), expected),
        decreases n - i,
    {
        let cells = line_cells(lines[i].as_str());
        proof {
            assert(whole.skip(i as int)[0] == whole[i as int]);
            assert(whole.skip(i as int).skip(1) =~= whole.skip(i + 1));
        }
        match scan_cells_exec(&cells, expected) {
            Some(v) => {
                return Ok(v);
            },
            None => {},
        }
        i = i + 1;
    }
    Err(String::from_str("Could not find result in CSV output"))
}

/// The line pattern the subject's dry-run report uses for a variable.
pub open spec fn calc_pattern(var: Seq<char>) -> Seq<char> {
    "assumptions."@ + var + " = "@
}

/// The dry-run report scan: the first line whose trimmed text opens with
/// the variable's pattern decides; its payload either parses (the inner
/// value) or does not (the inner miss).  No such line: the outer miss.
pub open spec fn calc_scan(lines: Seq<Seq<char>>, var: Seq<char>) -> Option<Option<Num>>
    decreases lines.len(),
{
    if lines.len() == 0 {
        None
    } else {
        let t = trim_edges(lines[0], false);
        if spec_starts_with(t, calc_pattern(var)) {
            Some(spec_parse_num(trim_edges(t.skip(calc_pattern(var).len() as int), false)))
        } else {
            calc_scan(lines.skip(1), var)
        }
    }
}

/// What reading the dry-run report for `var` yields: the value, or the
/// harness's parse or search error.
pub open spec fn spec_parse_calc(lines: Seq<Seq<char>>, var: Seq<char>) -> Result<Num, Seq<char>> {
    match calc_scan(lines, var) {
        Some(Some(v)) => Ok(v),
        Some(None) => Err("Failed to parse value"@),
        None => Err("Could not find "@ + var + " in output"@),
    }
}

/// Reads the subject's dry-run report for `var_name`, exactly per
/// `spec_parse_calc`.
pub fn parse_calculate_output(lines: &Vec<String>, var_name: &str) -> (r: Result<Num, String>)
    ensures
        ({
            match spec_parse_calc(line_views(lines@), var_name@) {
                Ok(v) => r == Ok::<Num, String>(v),
                Err(m) => r is Err && (r->Err_0)@ == m,
            }
        }),
{
    let mut pattern = String::from_str("assumptions.");
    pattern.append(var_name);
    pattern.append(" = ");
    let pat = chars_of(pattern.as_str());
    let np = pat.len();
    let n = lines.len();
    let ghost whole = line_views(lines@);
    let mut i: usize = 0;
    proof {
        assert(whole.skip(0) =~= whole);
    }
    while i < n
        invariant
            0 <= i <= n,
            n == lines@.len(),
            whole == line_views(lines@),
            pat@ == calc_pattern(var_name@),
            np == pat@.len(),
            calc_scan(whole, var_name@) == calc_scan(whole.skip(i as int), var_name@),
        decreases n - i,
    {
        let cs = chars_of(lines[i].as_str());
        let t = trim_blanks_chars(&cs);
        proof {
            assert(whole.skip(i as int)[0] == whole[i as int]);
            assert(whole.skip(i as int).skip(1) =~= whole.skip(i + 1));
        }
        if starts_with_chars(&t, &pat) {
            let rest = skip_chars(&t, np);
            let payload = trim_blanks_chars(&rest);
            match parse_num(&payload) {
                Some(v) => {
                    return Ok(v);
                },
                None => {
                    return Err(String::from_str("Failed to parse value"));
                },
            }
        }
        i = i + 1;
    }
    let mut msg = String::from_str("Could not find ");
    msg.append(var_name);
    msg.append(" in output");
    Err(msg)
}

/// A fault of the export pipeline, reported by the outside glue with the
/// collaborator's message.
pub enum ExportFault {
    /// The ephemeral working directory could not be created.
    TempDir(String),
    /// The synthesized specification could not be written.
    WriteSpec(String),
    /// The subject binary could not be started.
    RunSubject(String),
    /// The subject's export exited with failure; the payload is its stderr.
    SubjectFailed(String),
    /// The oracle's conversion failed.
    Convert(String),
    /// The converted text file could not be opened.
    OpenCsv(String),
    /// A line of the converted text file could not be read.
    ReadLine(String),
}

/// What one case's export pipeline reported: a fault, or the lines of the
/// oracle's recalculated text output.
pub enum CaseEvent {
    Faulted(ExportFault),
    Recalculated(Vec<String>),
}

/// A fault of the dry-run pipeline.
pub enum CalcFault {
    /// The ephemeral working directory could not be created.
    TempDir(String),
    /// The synthesized specification could not be written.
    WriteSpec(String),
    /// The subject binary could not be started.
    RunSubject(String),
    /// The subject's calculation exited with failure; the payload is its
    /// stderr.
    SubjectFailed(String),
}

/// What one case's dry-run pipeline reported: a fault, or the lines of the
/// subject's report.
pub enum PerfEvent {
    Faulted(CalcFault),
    Reported(Vec<String>),
}

/// What the whole batch pipeline reported: a fault of a shared step, or
/// the lines of the oracle's recalculated text output.
pub enum BatchEvent {
    Faulted(ExportFault),
    Recalculated(Vec<String>),
}

/// The error message of an export-pipeline fault.
pub open spec fn export_fault_message(f: ExportFault) -> Seq<char> {
    match f {
        ExportFault::TempDir(e) => "Failed to create temp dir: "@ + e@,
        ExportFault::WriteSpec(e) => "Failed to write YAML: "@ + e@,
        ExportFault::RunSubject(e) => "Failed to run forge-demo: "@ + e@,
        ExportFault::SubjectFailed(e) => "forge-demo export failed: "@ + e@,
        ExportFault::Convert(e) => "CSV conversion failed: "@ + e@,
        ExportFault::OpenCsv(e) => "Failed to open CSV: "@ + e@,
        ExportFault::ReadLine(e) => "Failed to read line: "@ + e@,
    }
}

/// The error message of a dry-run-pipeline fault.
pub open spec fn calc_fault_message(f: CalcFault) -> Seq<char> {
    match f {
        CalcFault::TempDir(e) => "Failed to create temp dir: "@ + e@,
        CalcFault::WriteSpec(e) => "Failed to write YAML: "@ + e@,
        CalcFault::RunSubject(e) => "Failed to run forge calculate: "@ + e@,
        CalcFault::SubjectFailed(e) => "forge calculate failed: "@ + e@,
    }
}

/// Writes the message of an export-pipeline fault.
pub fn render_export_fault(f: &ExportFault) -> (m: String)
    ensures
        m@ == export_fault_message(*f),
{
    match f {
        ExportFault::TempDir(e) => {
            let mut s = String::from_str("Failed to create temp dir: ");
            s.append(e.as_str());
            s
        },
        ExportFault::WriteSpec(e) => {
            let mut s = String::from_str("Failed to write YAML: ");
            s.append(e.as_str());
            s
        },
        ExportFault::RunSubject(e) => {
            let mut s = String::from_str("Failed to run forge-demo: ");
            s.append(e.as_str());
            s
        },
        ExportFault::SubjectFailed(e) => {
            let mut s = String::from_str("forge-demo export failed: ");
            s.append(e.as_str());
            s
        },
        ExportFault::Convert(e) => {
            let mut s = String::from_str("CSV conversion failed: ");
            s.append(e.as_str());
            s
        },
        ExportFault::OpenCsv(e) => {
            let mut s = String::from_str("Failed to open CSV: ");
            s.append(e.as_str());
            s
        },
        ExportFault::ReadLine(e) => {
            let mut s = String::from_str("Failed to read line: ");
            s.append(e.as_str());
            s
        },
    }
}

/// Writes the message of a dry-run-pipeline fault.
pub fn render_calc_fault(f: &CalcFault) -> (m: String)
    ensures
        m@ == calc_fault_message(*f),
{
    match f {
        CalcFault::TempDir(e) => {
            let mut s = String::from_str("Failed to create temp dir: ");
            s.append(e.as_str());
            s
        },
        CalcFault::WriteSpec(e) => {
            let mut s = String::from_str("Failed to write YAML: ");
            s.append(e.as_str());
            s
        },
        CalcFault::RunSubject(e) => {
            let mut s = String::from_str("Failed to run forge calculate: ");
            s.append(e.as_str());
            s
        },
        CalcFault::SubjectFailed(e) => {
            let mut s = String::from_str("forge calculate failed: ");
            s.append(e.as_str());
            s
        },
    }
}

/// A failure outcome for `c` with the given actual value and error text.
pub open spec fn spec_case_fail(c: TestCase, actual: Option<Num>, error: Option<Seq<char>>) -> ResultModel {
    ResultModel::Fail { name: c.name@, formula: c.formula@, expected: c.expected, actual, error }
}

/// Classification of an extracted value against the expectation: within
/// the strict tolerance a pass carrying the actual value; otherwise a
/// failure carrying the actual value and no error.
pub open spec fn spec_classify_value(c: TestCase, v: Num) -> ResultModel {
    if strict_matches(v, c.expected) {
        ResultModel::Pass { name: c.name@, formula: c.formula@, expected: c.expected, actual: v }
    } else {
        spec_case_fail(c, Some(v), None)
    }
}

/// The skip outcome of a declared skip case.
pub open spec fn spec_skip_result(s: SkipCase) -> ResultModel {
    ResultModel::Skip { name: s.name@, reason: s.reason@ }
}

/// The single-case oracle pipeline's outcome for `c` under `e`: a fault is
/// a failure carrying its message; otherwise the scanned value is
/// classified, and a scan without a match is the extraction failure.
pub open spec fn spec_run_test(c: TestCase, e: CaseEvent) -> ResultModel {
    match e {
        CaseEvent::Faulted(f) => spec_case_fail(c, None, Some(export_fault_message(f))),
        CaseEvent::Recalculated(lines) => match scan_lines_for(line_views(lines@), c.expected) {
            Some(v) => spec_classify_value(c, v),
            None => spec_case_fail(c, None, Some("Could not find result in CSV output"@)),
        },
    }
}

/// The dry-run pipeline's outcome for `c` under `e`.
pub open spec fn spec_run_perf_test(c: TestCase, e: PerfEvent) -> ResultModel {
    match e {
        PerfEvent::Faulted(f) => spec_case_fail(c, None, Some(calc_fault_message(f))),
        PerfEvent::Reported(lines) => match spec_parse_calc(line_views(lines@), "test_result"@) {
            Ok(v) => spec_classify_value(c, v),
            Err(m) => spec_case_fail(c, None, Some(m)),
        },
    }
}

/// Classifies an extracted value, exactly per `spec_classify_value`.
pub fn classify_value(c: &TestCase, v: Num) -> (r: TestResult)
    ensures
        result_model(r) == spec_classify_value(*c, v),
{
    if strict_close(v, c.expected) {
        TestResult::Pass {
            name: c.name.clone(),
            formula: c.formula.clone(),
            expected: c.expected,
            actual: v,
        }
    } else {
        TestResult::Fail {
            name: c.name.clone(),
            formula: c.formula.clone(),
            expected: c.expected,
            actual: Some(v),
            error: None,
        }
    }
}

/// A failure result for `c` carrying `error`.
fn make_fail(c: &TestCase, error: String) -> (r: TestResult)
    ensures
        result_model(r) == spec_case_fail(*c, None, Some(error@)),
{
    TestResult::Fail {
        name: c.name.clone(),
        formula: c.formula.clone(),
        expected: c.expected,
        actual: None,
        error: Some(error),
    }
}

/// The skip result of a declared skip case.
pub fn make_skip_result(s: &SkipCase) -> (r: TestResult)
    ensures
        result_model(r) == spec_skip_result(*s),
{
    TestResult::Skip { name: s.name.clone(), reason: s.reason.clone() }
}

/// All test cases of a list of specification files, in file order.
pub open spec fn specs_cases(specs: Seq<TestSpec>) -> Seq<CaseModel>
    decreases specs.len(),
{
    if specs.len() == 0 {
        Seq::<CaseModel>::empty()
    } else {
        specs_cases(specs.drop_last()) + extraction_cases(specs.last())
    }
}

/// All skip cases of a list of specification files, in file order.
pub open spec fn specs_skips(specs: Seq<TestSpec>) -> Seq<crate::types::SkipModel>
    decreases specs.len(),
{
    if specs.len() == 0 {
        Seq::<crate::types::SkipModel>::empty()
    } else {
        specs_skips(specs.drop_last()) + extraction_skips(specs.last())
    }
}

/// The runner: the subject binary's command, the oracle, the directory the
/// specifications came from, and the loaded cases and skips.
pub struct TestRunner {
    pub forge_binary: String,
    pub engine: SpreadsheetEngine,
    pub tests_dir: String,
    pub test_cases: Vec<TestCase>,
    pub skip_cases: Vec<SkipCase>,
}

impl TestRunner {
    /// Builds a runner from the parsed specification files: the cases and
    /// skips are exactly the files' extractions, in file order.  Reading
    /// and deserializing the files happens outside the library.
    pub fn new(
        forge_binary: String,
        engine: SpreadsheetEngine,
        tests_dir: String,
        specs: &Vec<TestSpec>,
    ) -> (r: Self)
        ensures
            r.forge_binary@ == forge_binary@,
            r.engine == engine,
            r.tests_dir@ == tests_dir@,
            case_models(r.test_cases@) == specs_cases(specs@),
            skip_models(r.skip_cases@) == specs_skips(specs@),
    {
        let n = specs.len();
        let mut cases: Vec<TestCase> = Vec::new();
        let mut skips: Vec<SkipCase> = Vec::new();
        let mut i: usize = 0;
        proof {
            assert(case_models(cases@) =~= specs_cases(specs@.take(0)));
            assert(skip_models(skips@) =~= specs_skips(specs@.take(0)));
        }
        while i < n
            invariant
                0 <= i <= n,
                n == specs@.len(),
                case_models(cases@) == specs_cases(specs@.take(i as int)),
                skip_models(skips@) == specs_skips(specs@.take(i as int)),
            decreases n - i,
        {
            let mut cs = extract_test_cases(&specs[i]);
            let mut sk = extract_skip_cases(&specs[i]);
            let ghost prev_cases = cases@;
            let ghost prev_skips = skips@;
            let ghost cs_view = cs@;
            let ghost sk_view = sk@;
            cases.append(&mut cs);
            skips.append(&mut sk);
            proof {
                assert(specs@.take(i + 1).drop_last() =~= specs@.take(i as int));
                assert(specs@.take(i + 1).last() == specs@[i as int]);
                assert(case_models(cases@) =~= case_models(prev_cases) + case_models(cs_view));
                assert(skip_models(skips@) =~= skip_models(prev_skips) + skip_models(sk_view));
            }
            i = i + 1;
        }
        proof {
            assert(specs@.take(n as int) =~= specs@);
        }
        TestRunner { forge_binary, engine, tests_dir, test_cases: cases, skip_cases: skips }
    }

    /// The count of loaded cases, declared skips included.
    pub fn total_tests(&self) -> (r: usize)
        requires
            self.test_cases@.len() + self.skip_cases@.len() <= usize::MAX,
        ensures
            r == self.test_cases@.len() + self.skip_cases@.len(),
    {
        self.test_cases.len() + self.skip_cases.len()
    }

    /// The loaded test cases.
    pub fn test_cases(&self) -> (r: &Vec<TestCase>)
        ensures
            r@ == self.test_cases@,
    {
        &self.test_cases
    }

    /// The loaded skip cases.
    pub fn skip_cases(&self) -> (r: &Vec<SkipCase>)
        ensures
            r@ == self.skip_cases@,
    {
        &self.skip_cases
    }

    /// Classifies one case from its export-pipeline event, exactly per
    /// `spec_run_test`.
    pub fn run_test(&self, test_case: &TestCase, event: &CaseEvent) -> (r: TestResult)
        ensures
            result_model(r) == spec_run_test(*test_case, *event),
    {
        match event {
            CaseEvent::Faulted(f) => make_fail(test_case, render_export_fault(f)),
            CaseEvent::Recalculated(lines) => match find_result_in_csv(
                lines,
                test_case.expected,
            ) {
                Ok(v) => classify_value(test_case, v),
                Err(e) => make_fail(test_case, e),
            },
        }
    }

    /// Classifies one case from its dry-run event, exactly per
    /// `spec_run_perf_test`.
    pub fn run_perf_test(&self, test_case: &TestCase, event: &PerfEvent) -> (r: TestResult)
        ensures
            result_model(r) == spec_run_perf_test(*test_case, *event),
    {
        match event {
            PerfEvent::Faulted(f) => make_fail(test_case, render_calc_fault(f)),
            PerfEvent::Reported(lines) => match parse_calculate_output(lines, "test_result") {
                Ok(v) => classify_value(test_case, v),
                Err(e) => make_fail(test_case, e),
            },
        }
    }

    /// The sequential-oracle strategy: every declared skip first, in load
    /// order, then every case's classified outcome, in load order.
    pub fn run_all(&self, events: &Vec<CaseEvent>) -> (results: Vec<TestResult>)
        requires
            events@.len() == self.test_cases@.len(),
        ensures
            results@.len() == self.skip_cases@.len() + self.test_cases@.len(),
            forall|i: int|
                0 <= i < self.skip_cases@.len() ==> result_model(#[trigger] results@[i])
                    == spec_skip_result(self.skip_cases@[i]),
            forall|i: int|
                0 <= i < self.test_cases@.len() ==> result_model(
                    #[trigger] results@[self.skip_cases@.len() + i],
                ) == spec_run_test(self.test_cases@[i], events@[i]),
    {
        let mut results: Vec<TestResult> = Vec::new();
        let ns = self.skip_cases.len();
        let mut i: usize = 0;
        while i < ns
            invariant
                0 <= i <= ns,
                ns == self.skip_cases@.len(),
                results@.len() == i,
                forall|k: int|
                    0 <= k < i ==> result_model(#[trigger] results@[k]) == spec_skip_result(
                        self.skip_cases@[k],
                    ),
            decreases ns - i,
        {
            let r = make_skip_result(&self.skip_cases[i]);
            results.push(r);
            i = i + 1;
        }
        let nc = self.test_cases.len();
        let mut j: usize = 0;
        while j < nc
            invariant
                0 <= j <= nc,
                ns == self.skip_cases@.len(),
                nc == self.test_cases@.len(),
                nc == events@.len(),
                results@.len() == ns + j,
                forall|k: int|
                    0 <= k < ns ==> result_model(#[trigger] results@[k]) == spec_skip_result(
                        self.skip_cases@[k],
                    ),
                forall|k: int|
                    0 <= k < j ==> result_model(#[trigger] results@[ns + k]) == spec_run_test(
                        self.test_cases@[k],
                        events@[k],
                    ),
            decreases nc - j,
        {
            let r = self.run_test(&self.test_cases[j], &events[j]);
            results.push(r);
            j = j + 1;
        }
        results
    }

    /// The parallel-direct strategy's assembly: every declared skip first,
    /// then every case's dry-run outcome, in load order — the result
    /// sequence follows the input order whatever order the events were
    /// produced in.
    pub fn run_perf_parallel(&self, events: &Vec<PerfEvent>) -> (results: Vec<TestResult>)
        requires
            events@.len() == self.test_cases@.len(),
        ensures
            results@.len() == self.skip_cases@.len() + self.test_cases@.len(),
            forall|i: int|
                0 <= i < self.skip_cases@.len() ==> result_model(#[trigger] results@[i])
                    == spec_skip_result(self.skip_cases@[i]),
            forall|i: int|
                0 <= i < self.test_cases@.len() ==> result_model(
                    #[trigger] results@[self.skip_cases@.len() + i],
                ) == spec_run_perf_test(self.test_cases@[i], events@[i]),
    {
        let mut results: Vec<TestResult> = Vec::new();
        let ns = self.skip_cases.len();
        let mut i: usize = 0;
        while i < ns
            invariant
                0 <= i <= ns,
                ns == self.skip_cases@.len(),
                results@.len() == i,
                forall|k: int|
                    0 <= k < i ==> result_model(#[trigger] results@[k]) == spec_skip_result(
                        self.skip_cases@[k],
                    ),
            decreases ns - i,
        {
            let r = make_skip_result(&self.skip_cases[i]);
            results.push(r);
            i = i + 1;
        }
        let nc = self.test_cases.len();
        let mut j: usize = 0;
        while j < nc
            invariant
                0 <= j <= nc,
                ns == self.skip_cases@.len(),
                nc == self.test_cases@.len(),
                nc == events@.len(),
                results@.len() == ns + j,
                forall|k: int|
                    0 <= k < ns ==> result_model(#[trigger] results@[k]) == spec_skip_result(
                        self.skip_cases@[k],
                    ),
                forall|k: int|
                    0 <= k < j ==> result_model(#[trigger] results@[ns + k])
                        == spec_run_perf_test(self.test_cases@[k], events@[k]),
            decreases nc - j,
        {
            let r = self.run_perf_test(&self.test_cases[j], &events[j]);
            results.push(r);
            j = j + 1;
        }
        results
    }
}

/// The formula text with each quote escaped for embedding in a quoted
/// scalar.
pub open spec fn escape_quotes(s: Seq<char>) -> Seq<char>
    decreases s.len(),
{
    if s.len() == 0 {
        Seq::<char>::empty()
    } else if s.last() == '"' {
        escape_quotes(s.drop_last()) + seq!['\\', '"']
    } else {
        escape_quotes(s.drop_last()).push(s.last())
    }
}

/// Escapes each quote of `f` for embedding in a quoted scalar.
fn escape_formula(f: &str) -> (r: Vec<char>)
    ensures
        r@ == escape_quotes(f@),
{
    let cs = chars_of(f);
    let n = cs.len();
    let mut out: Vec<char> = Vec::new();
    let mut i: usize = 0;
    proof {
        assert(out@ =~= escape_quotes(cs@.take(0)));
    }
    while i < n
        invariant
            0 <= i <= n,
            n == cs@.len(),
            cs@ == f@,
            out@ == escape_quotes(cs@.take(i as int)),
        decreases n - i,
    {
        let c = cs[i];
        proof {
            assert(cs@.take(i + 1).drop_last() =~= cs@.take(i as int));
            assert(cs@.take(i + 1).last() == cs@[i as int]);
        }
        if c == '"' {
            out.push('\\');
            out.push('"');
            proof {
                assert(out@ =~= escape_quotes(cs@.take(i + 1)));
            }
        } else {
            out.push(c);
        }
        i = i + 1;
    }
    proof {
        assert(cs@.take(n as int) =~= cs@);
    }
    out
}

/// The synthesized single-case specification document around a formula.
pub open spec fn single_yaml(formula: Seq<char>) -> Seq<char> {
    "_forge_version: \"1.0.0\"\nassumptions:\n  test_result:\n    value: null\n    formula: \""@
        + escape_quotes(formula) + "\"\n"@
}

/// Writes the single-case specification document for `formula`, exactly
/// per `single_yaml`.
pub fn synth_single_yaml(formula: &str) -> (r: String)
    ensures
        r@ == single_yaml(formula@),
{
    let mut s = String::from_str(
        "_forge_version: \"1.0.0\"\nassumptions:\n  test_result:\n    value: null\n    formula: \"",
    );
    let esc = escape_formula(formula);
    let esc_s = crate::text::string_of(&esc);
    s.append(esc_s.as_str());
    s.append("\"\n");
    s
}

/// The synthesized entry of case `i` in the batch document: the positional
/// label `test_<i>` around the case's escaped formula.
pub open spec fn batch_entry(i: int, c: TestCase) -> Seq<char> {
    "  test_"@ + crate::num::spec_digits_of(i) + ":\n    value: null\n    formula: \""@
        + escape_quotes(c.formula@) + "\"\n"@
}

/// The entries of the batch document, one per case, in order.
pub open spec fn batch_entries(cases: Seq<TestCase>) -> Seq<char>
    decreases cases.len(),
{
    if cases.len() == 0 {
        Seq::<char>::empty()
    } else {
        batch_entries(cases.drop_last()) + batch_entry(cases.len() - 1, cases.last())
    }
}

/// The synthesized batch specification document: the version header, then
/// every case under its positional label.
pub open spec fn batch_yaml(cases: Seq<TestCase>) -> Seq<char> {
    "_forge_version: \"1.0.0\"\nassumptions:\n"@ + batch_entries(cases)
}

/// Writes the batch specification document, exactly per `batch_yaml`.
pub fn synth_batch_yaml(cases: &Vec<TestCase>) -> (r: String)
    ensures
        r@ == batch_yaml(cases@),
{
    let mut s = String::from_str("_forge_version: \"1.0.0\"\nassumptions:\n");
    let n = cases.len();
    let mut i: usize = 0;
    proof {
        assert(batch_entries(cases@.take(0)) =~= Seq::<char>::empty());
        assert(s@ =~= "_forge_version: \"1.0.0\"\nassumptions:\n"@ + batch_entries(
            cases@.take(0),
        ));
    }
    while i < n
        invariant
            0 <= i <= n,
            n == cases@.len(),
            s@ == "_forge_version: \"1.0.0\"\nassumptions:\n"@ + batch_entries(
                cases@.take(i as int),
            ),
        decreases n - i,
    {
        proof {
            assert(cases@.take(i + 1).drop_last() =~= cases@.take(i as int));
            assert(cases@.take(i + 1).last() == cases@[i as int]);
        }
        s.append("  test_");
        let digits = crate::num::format_usize(i);
        let digits_s = crate::text::string_of(&digits);
        s.append(digits_s.as_str());
        s.append(":\n    value: null\n    formula: \"");
        let esc = escape_formula(cases[i].formula.as_str());
        let esc_s = crate::text::string_of(&esc);
        s.append(esc_s.as_str());
        s.append("\"\n");
        proof {
            assert(s@ =~= "_forge_version: \"1.0.0\"\nassumptions:\n"@ + batch_entries(
                cases@.take(i + 1),
            ));
        }
        i = i + 1;
    }
    proof {
        assert(cases@.take(n as int) =~= cases@);
    }
    s
}

/// What one row of batch output contributes: with at least two cells, a
/// first cell carrying a positional label (with or without the section
/// prefix) whose index lies in range, and a second cell that parses, it
/// names that index's value.
pub open spec fn batch_row(line: Seq<char>, count: nat) -> Option<(usize, Num)> {
    let cells = cells_of_line(line);
    if cells.len() < 2 {
        None
    } else {
        let label = cells[0];
        let suffix = if spec_starts_with(label, "assumptions.test_"@) {
            Some(label.skip("assumptions.test_"@.len() as int))
        } else if spec_starts_with(label, "test_"@) {
            Some(label.skip("test_"@.len() as int))
        } else {
            None
        };
        match suffix {
            None => None,
            Some(sfx) => match crate::num::spec_parse_usize(sfx) {
                None => None,
                Some(idx) => if (idx as nat) < count {
                    match spec_parse_num(remove_char(cells[1], ',')) {
                        Some(v) => Some((idx, v)),
                        None => None,
                    }
                } else {
                    None
                },
            },
        }
    }
}

/// One row applied to the accumulated results: a recognized row overwrites
/// its index, any other row changes nothing.
pub open spec fn batch_apply(acc: Seq<Option<Num>>, line: Seq<char>, count: nat) -> Seq<
    Option<Num>,
> {
    match batch_row(line, count) {
        Some((i, v)) => acc.update(i as int, Some(v)),
        None => acc,
    }
}

/// The batch scan: one pass over the output rows, later rows overwriting
/// earlier ones, starting from no results.
pub open spec fn batch_scan(lines: Seq<Seq<char>>, count: nat) -> Seq<Option<Num>>
    decreases lines.len(),
{
    if lines.len() == 0 {
        Seq::<Option<Num>>::new(count, |i: int| None)
    } else {
        batch_apply(batch_scan(lines.drop_last(), count), lines.last(), count)
    }
}

pub proof fn lemma_batch_scan_len(lines: Seq<Seq<char>>, count: nat)
    ensures
        batch_scan(lines, count).len() == count,
    decreases lines.len(),
{
    if lines.len() > 0 {
        lemma_batch_scan_len(lines.drop_last(), count);
    }
}

/// Reads one row of batch output, exactly per `batch_row`.
fn batch_row_exec(line: &str, count: usize) -> (r: Option<(usize, Num)>)
    ensures
        r == batch_row(line@, count as nat),
{
    let cells = line_cells(line);
    if cells.len() < 2 {
        return None;
    }
    let long_prefix = chars_of("assumptions.test_");
    let short_prefix = chars_of("test_");
    let label = &cells[0];
    proof {
        assert(views_of(cells@)[0] == cells@[0]@);
        assert(views_of(cells@)[1] == cells@[1]@);
    }
    let suffix: Vec<char> = if starts_with_chars(label, &long_prefix) {
        skip_chars(label, long_prefix.len())
    } else if starts_with_chars(label, &short_prefix) {
        skip_chars(label, short_prefix.len())
    } else {
        return None;
    };
    match crate::num::parse_usize(&suffix) {
        None => None,
        Some(idx) => {
            if idx < count {
                let stripped = strip_char(&cells[1], ',');
                match parse_num(&stripped) {
                    Some(v) => Some((idx, v)),
                    None => None,
                }
            } else {
                None
            }
        },
    }
}

/// Scans batch output for every case's value, exactly per `batch_scan`.
pub fn parse_batch_csv(lines: &Vec<String>, count: usize) -> (r: Vec<Option<Num>>)
    ensures
        r@ == batch_scan(line_views(lines@), count as nat),
{
    let mut r: Vec<Option<Num>> = Vec::new();
    let mut k: usize = 0;
    while k < count
        invariant
            0 <= k <= count,
            r@.len() == k,
            forall|t: int| 0 <= t < k ==> r@[t] is None,
        decreases count - k,
    {
        r.push(None);
        k = k + 1;
    }
    proof {
        assert(r@ =~= batch_scan(line_views(lines@).take(0), count as nat));
    }
    let n = lines.len();
    let mut i: usize = 0;
    while i < n
        invariant
            0 <= i <= n,
            n == lines@.len(),
            r@ == batch_scan(line_views(lines@).take(i as int), count as nat),
        decreases n - i,
    {
        let ghost lv = line_views(lines@);
        proof {
            assert(lv.take(i + 1).drop_last() =~= lv.take(i as int));
            assert(lv.take(i + 1).last() == lv[i as int]);
            assert(lv[i as int] == lines@[i as int]@);
            lemma_batch_scan_len(lv.take(i as int), count as nat);
        }
        match batch_row_exec(lines[i].as_str(), count) {
            Some((idx, v)) => {
                r.set(idx, Some(v));
            },
            None => {},
        }
        i = i + 1;
    }
    proof {
        assert(line_views(lines@).take(n as int) =~= line_views(lines@));
    }
    r
}

/// What the batch strategy reports for one case: a scanned value is
/// classified; a missing index is the per-case missing-result failure.
pub open spec fn spec_batch_case_result(c: TestCase, o: Option<Num>) -> ResultModel {
    match o {
        Some(v) => spec_classify_value(c, v),
        None => spec_case_fail(c, None, Some("Missing result in CSV"@)),
    }
}

impl TestRunner {
    /// The batch-oracle strategy: every declared skip first; with no cases
    /// nothing more, whatever the event.  A shared-step fault degrades to
    /// one failure per case carrying the shared message; otherwise every
    /// case is classified independently against the batch scan of the
    /// output, a missing index failing that case alone.
    pub fn run_batch(&self, event: &BatchEvent) -> (results: Vec<TestResult>)
        ensures
            self.test_cases@.len() == 0 ==> results@.len() == self.skip_cases@.len(),
            self.test_cases@.len() > 0 ==> results@.len() == self.skip_cases@.len()
                + self.test_cases@.len(),
            forall|i: int|
                0 <= i < self.skip_cases@.len() ==> result_model(#[trigger] results@[i])
                    == spec_skip_result(self.skip_cases@[i]),
            self.test_cases@.len() > 0 ==> (match *event {
                BatchEvent::Faulted(f) => forall|i: int|
                    0 <= i < self.test_cases@.len() ==> result_model(
                        #[trigger] results@[self.skip_cases@.len() + i],
                    ) == spec_case_fail(
                        self.test_cases@[i],
                        None,
                        Some(export_fault_message(f)),
                    ),
                BatchEvent::Recalculated(lines) => forall|i: int|
                    0 <= i < self.test_cases@.len() ==> result_model(
                        #[trigger] results@[self.skip_cases@.len() + i],
                    ) == spec_batch_case_result(
                        self.test_cases@[i],
                        batch_scan(line_views(lines@), self.test_cases@.len() as nat)[i],
                    ),
            }),
    {
        let mut results: Vec<TestResult> = Vec::new();
        let ns = self.skip_cases.len();
        let mut i: usize = 0;
        while i < ns
            invariant
                0 <= i <= ns,
                ns == self.skip_cases@.len(),
                results@.len() == i,
                forall|k: int|
                    0 <= k < i ==> result_model(#[trigger] results@[k]) == spec_skip_result(
                        self.skip_cases@[k],
                    ),
            decreases ns - i,
        {
            let r = make_skip_result(&self.skip_cases[i]);
            results.push(r);
            i = i + 1;
        }
        let nc = self.test_cases.len();
        if nc == 0 {
            return results;
        }
        match event {
            BatchEvent::Faulted(f) => {
                let msg = render_export_fault(f);
                let mut j: usize = 0;
                while j < nc
                    invariant
                        0 <= j <= nc,
                        ns == self.skip_cases@.len(),
                        nc == self.test_cases@.len(),
                        msg@ == export_fault_message(*f),
                        results@.len() == ns + j,
                        forall|k: int|
                            0 <= k < ns ==> result_model(#[trigger] results@[k])
                                == spec_skip_result(self.skip_cases@[k]),
                        forall|k: int|
                            0 <= k < j ==> result_model(#[trigger] results@[ns + k])
                                == spec_case_fail(
                                self.test_cases@[k],
                                None,
                                Some(export_fault_message(*f)),
                            ),
                    decreases nc - j,
                {
                    let r = make_fail(&self.test_cases[j], msg.clone());
                    results.push(r);
                    j = j + 1;
                }
                results
            },
            BatchEvent::Recalculated(lines) => {
                let scan = parse_batch_csv(lines, nc);
                proof {
                    lemma_batch_scan_len(line_views(lines@), nc as nat);
                }
                let mut j: usize = 0;
                while j < nc
                    invariant
                        0 <= j <= nc,
                        ns == self.skip_cases@.len(),
                        nc == self.test_cases@.len(),
                        scan@ == batch_scan(line_views(lines@), nc as nat),
                        scan@.len() == nc,
                        results@.len() == ns + j,
                        forall|k: int|
                            0 <= k < ns ==> result_model(#[trigger] results@[k])
                                == spec_skip_result(self.skip_cases@[k]),
                        forall|k: int|
                            0 <= k < j ==> result_model(#[trigger] results@[ns + k])
                                == spec_batch_case_result(self.test_cases@[k], scan@[k]),
                    decreases nc - j,
                {
                    let r = match scan[j] {
                        Some(v) => classify_value(&self.test_cases[j], v),
                        None => make_fail(
                            &self.test_cases[j],
                            String::from_str("Missing result in CSV"),
                        ),
                    };
                    results.push(r);
                    j = j + 1;
                }
                results
            },
        }
    }
}

/// How many results of a run passed.
pub open spec fn count_passed(s: Seq<TestResult>) -> int
    decreases s.len(),
{
    if s.len() == 0 {
        0
    } else {
        count_passed(s.drop_last()) + if s.last() is Pass {
            1int
        } else {
            0int
        }
    }
}

/// How many results of a run failed.
pub open spec fn count_failed(s: Seq<TestResult>) -> int
    decreases s.len(),
{
    if s.len() == 0 {
        0
    } else {
        count_failed(s.drop_last()) + if s.last() is Fail {
            1int
        } else {
            0int
        }
    }
}

/// How many results of a run were skipped.
pub open spec fn count_skipped(s: Seq<TestResult>) -> int
    decreases s.len(),
{
    if s.len() == 0 {
        0
    } else {
        count_skipped(s.drop_last()) + if s.last() is Skip {
            1int
        } else {
            0int
        }
    }
}

/// Every result is exactly one of passed, failed or skipped, so the three
/// counts partition a run.
pub proof fn lemma_counts_partition(s: Seq<TestResult>)
    ensures
        0 <= count_passed(s),
        0 <= count_failed(s),
        0 <= count_skipped(s),
        count_passed(s) + count_failed(s) + count_skipped(s) == s.len(),
    decreases s.len(),
{
    if s.len() > 0 {
        lemma_counts_partition(s.drop_last());
    }
}

/// A run's aggregate outcome: its pass, fail and skip counts.
#[derive(Clone, Copy, Debug, PartialEq, Eq, Structural)]
pub struct RunSummary {
    pub passed: usize,
    pub failed: usize,
    pub skipped: usize,
}

/// Counts the passed, failed and skipped results of a run.
pub fn summarize(results: &Vec<TestResult>) -> (s: RunSummary)
    ensures
        s.passed == count_passed(results@),
        s.failed == count_failed(results@),
        s.skipped == count_skipped(results@),
{
    let n = results.len();
    let mut passed: usize = 0;
    let mut failed: usize = 0;
    let mut skipped: usize = 0;
    let mut i: usize = 0;
    proof {
        assert(results@.take(0) =~= Seq::<TestResult>::empty());
    }
    while i < n
        invariant
            0 <= i <= n,
            n == results@.len(),
            passed == count_passed(results@.take(i as int)),
            failed == count_failed(results@.take(i as int)),
            skipped == count_skipped(results@.take(i as int)),
            passed + failed + skipped == i,
        decreases n - i,
    {
        proof {
            assert(results@.take(i + 1).drop_last() =~= results@.take(i as int));
            assert(results@.take(i + 1).last() == results@[i as int]);
            lemma_counts_partition(results@.take(i as int));
        }
        if results[i].is_pass() {
            passed = passed + 1;
        } else if results[i].is_fail() {
            failed = failed + 1;
        } else {
            skipped = skipped + 1;
        }
        i = i + 1;
    }
    proof {
        assert(results@.take(n as int) =~= results@);
    }
    RunSummary { passed, failed, skipped }
}

/// Loading is deterministic: runners built from equal specification lists
/// hold equal case and skip models, so loading the same specification
/// directory twice yields the same sets.
pub proof fn lemma_load_deterministic(a: TestRunner, b: TestRunner, specs: Seq<TestSpec>)
    requires
        case_models(a.test_cases@) == specs_cases(specs),
        skip_models(a.skip_cases@) == specs_skips(specs),
        case_models(b.test_cases@) == specs_cases(specs),
        skip_models(b.skip_cases@) == specs_skips(specs),
    ensures
        case_models(a.test_cases@) == case_models(b.test_cases@),
        skip_models(a.skip_cases@) == skip_models(b.skip_cases@),
{
}

/// Numeric reconciliation: an extracted value within the strict tolerance
/// of the expectation is a pass carrying that value; any other value is a
/// failure carrying it, with no error message.
pub proof fn lemma_numeric_classification(c: TestCase, v: Num)
    ensures
        strict_matches(v, c.expected) ==> spec_classify_value(c, v) == (ResultModel::Pass {
            name: c.name@,
            formula: c.formula@,
            expected: c.expected,
            actual: v,
        }),
        !strict_matches(v, c.expected) ==> spec_classify_value(c, v) == (ResultModel::Fail {
            name: c.name@,
            formula: c.formula@,
            expected: c.expected,
            actual: Some(v),
            error: None,
        }),
{
}

proof fn lemma_batch_scan_prefix(lines: Seq<Seq<char>>, count: nat, vals: Seq<Num>, k: int)
    requires
        count <= usize::MAX,
        vals.len() == count,
        lines.len() == count,
        0 <= k <= count,
        forall|i: int|
            0 <= i < count ==> #[trigger] batch_row(lines[i], count) == Some(
                (i as usize, vals[i]),
            ),
    ensures
        forall|i: int|
            0 <= i < count ==> #[trigger] batch_scan(lines.take(k), count)[i] == (if i < k {
                Some(vals[i])
            } else {
                None
            }),
    decreases k,
{
    lemma_batch_scan_len(lines.take(k), count);
    if k == 0 {
        assert(lines.take(0) =~= Seq::<Seq<char>>::empty());
    } else {
        lemma_batch_scan_prefix(lines, count, vals, k - 1);
        lemma_batch_scan_len(lines.take(k - 1), count);
        assert(lines.take(k).drop_last() =~= lines.take(k - 1));
        assert(lines.take(k).last() == lines[k - 1]);
        assert(batch_row(lines[k - 1], count) == Some(((k - 1) as usize, vals[k - 1])));
        assert(batch_scan(lines.take(k), count) == batch_scan(lines.take(k - 1), count).update(
            k - 1,
            Some(vals[k - 1]),
        ));
    }
}

/// The batch round trip: when every one of the N rows carries its own
/// positional label and a value, the scan recovers exactly the N values,
/// each at its own index.
pub proof fn lemma_batch_scan_recovers(lines: Seq<Seq<char>>, count: nat, vals: Seq<Num>)
    requires
        count <= usize::MAX,
        vals.len() == count,
        lines.len() == count,
        forall|i: int|
            0 <= i < count ==> #[trigger] batch_row(lines[i], count) == Some(
                (i as usize, vals[i]),
            ),
    ensures
        forall|i: int|
            0 <= i < count ==> #[trigger] batch_scan(lines, count)[i] == Some(vals[i]),
{
    lemma_batch_scan_prefix(lines, count, vals, count as int);
    assert(lines.take(count as int) =~= lines);
}

/// An index no row names stays unrecovered: the scan leaves it empty, so
/// the batch strategy fails that case alone with the missing-result error,
/// and no other case is touched by the absence.
pub proof fn lemma_batch_scan_missing(lines: Seq<Seq<char>>, count: nat, j: int)
    requires
        0 <= j < count,
        forall|l: int|
            0 <= l < lines.len() ==> (match #[trigger] batch_row(lines[l], count) {
                Some(p) => p.0 as int != j,
                None => true,
            }),
    ensures
        batch_scan(lines, count)[j] is None,
    decreases lines.len(),
{
    lemma_batch_scan_len(lines, count);
    if lines.len() > 0 {
        assert(forall|l: int|
            0 <= l < lines.drop_last().len() ==> lines.drop_last()[l] == lines[l]);
        lemma_batch_scan_missing(lines.drop_last(), count, j);
        lemma_batch_scan_len(lines.drop_last(), count);
        assert(batch_row(lines.last(), count) == batch_row(lines[lines.len() - 1], count));
    }
}

/// Whether a directory entry's file name carries the specification
/// extension: it ends in `.yaml` with a nonempty stem.  Only such files
/// are read and parsed; any other file is passed over silently.
pub open spec fn spec_has_spec_extension(name: Seq<char>) -> bool {
    name.len() >= 6 && name.subrange(name.len() - 5, name.len() as int) == ".yaml"@
}

/// Whether `name` carries the specification extension.
pub fn has_spec_extension(name: &str) -> (r: bool)
    ensures
        r == spec_has_spec_extension(name@),
{
    let cs = chars_of(name);
    let n = cs.len();
    if n < 6 {
        return false;
    }
    let tail = skip_chars(&cs, n - 5);
    let ext = chars_of(".yaml");
    eq_chars(&tail, &ext)
}

} // verus!
