use forge_e2e::engine::SpreadsheetEngine;
use forge_e2e::num::Num;
use forge_e2e::runner::BatchEvent;
use forge_e2e::runner::CalcFault;
use forge_e2e::runner::CaseEvent;
use forge_e2e::runner::ExportFault;
use forge_e2e::runner::PerfEvent;
use forge_e2e::runner::TestRunner;
use forge_e2e::runner::classify_value;
use forge_e2e::runner::find_result_in_csv;
use forge_e2e::runner::has_spec_extension;
use forge_e2e::runner::parse_batch_csv;
use forge_e2e::runner::parse_calculate_output;
use forge_e2e::runner::summarize;
use forge_e2e::runner::synth_batch_yaml;
use forge_e2e::runner::synth_single_yaml;
use forge_e2e::types::Scalar;
use forge_e2e::types::ScalarEntry;
use forge_e2e::types::Section;
use forge_e2e::types::SectionEntry;
use forge_e2e::types::TestCase;
use forge_e2e::types::TestResult;
use forge_e2e::types::TestSpec;

fn engine() -> SpreadsheetEngine {
    SpreadsheetEngine::new("ssconvert".to_string(), "1.12".to_string())
}

fn spec_with(cases: Vec<(&str, &str, i64)>, skips: Vec<(&str, &str)>) -> TestSpec {
    let mut entries = Vec::new();
    for (name, formula, expected) in cases {
        entries.push(ScalarEntry {
            name: name.to_string(),
            scalar: Scalar {
                value: None,
                formula: Some(formula.to_string()),
                expected: Some(Num::from_int(expected)),
                skip: None,
            },
        });
    }
    for (name, reason) in skips {
        entries.push(ScalarEntry {
            name: name.to_string(),
            scalar: Scalar {
                value: None,
                formula: None,
                expected: None,
                skip: Some(reason.to_string()),
            },
        });
    }
    TestSpec {
        forge_version: "1.0.0".to_string(),
        sections: vec![SectionEntry {
            name: "assumptions".to_string(),
            section: Section::ScalarGroup(entries),
        }],
    }
}

fn runner_with(cases: Vec<(&str, &str, i64)>, skips: Vec<(&str, &str)>) -> TestRunner {
    let specs = vec![spec_with(cases, skips)];
    TestRunner::new(
        "bin/forge-demo".to_string(),
        engine(),
        "tests/e2e".to_string(),
        &specs,
    )
}

fn lines(texts: &[&str]) -> Vec<String> {
    texts.iter().map(|t| t.to_string()).collect()
}

#[test]
fn find_result_labeled_cell_wins() {
    let csv = lines(&["header,stuff", "test_result,42"]);
    assert_eq!(find_result_in_csv(&csv, Num::from_int(7)), Ok(Num::from_int(42)));
    let csv2 = lines(&["result,3"]);
    assert_eq!(find_result_in_csv(&csv2, Num::from_int(7)), Ok(Num::from_int(3)));
}

#[test]
fn find_result_fallback_accepts_near_value() {
    // no label anywhere: a numeric cell within 1e-4 of the expectation wins
    let csv = lines(&["alpha,12", "beta,41.99995"]);
    let got = find_result_in_csv(&csv, Num::from_int(42)).unwrap();
    assert_eq!(got, Num::from_atto(41_999_950_000_000_000_000));
}

#[test]
fn find_result_fallback_rejects_far_value() {
    let csv = lines(&["alpha,12", "beta,41.9"]);
    let err = find_result_in_csv(&csv, Num::from_int(42)).unwrap_err();
    assert_eq!(err, "Could not find result in CSV output");
}

#[test]
fn find_result_unquotes_and_trims_cells() {
    let quoted = lines(&["\"test_result\",\"42\""]);
    assert_eq!(find_result_in_csv(&quoted, Num::from_int(0)), Ok(Num::from_int(42)));
    let spaced = lines(&["  test_result ,  42 "]);
    assert_eq!(find_result_in_csv(&spaced, Num::from_int(0)), Ok(Num::from_int(42)));
    // quotes are trimmed before blanks, so a quote behind a space stays
    let mixed = lines(&["\"test_result\" , 7"]);
    assert_eq!(
        find_result_in_csv(&mixed, Num::from_int(0)).unwrap_err(),
        "Could not find result in CSV output"
    );
}

#[test]
fn parse_calculate_output_reads_pattern() {
    let out = lines(&[
        "something else",
        "  assumptions.test_result = 42  ",
        "assumptions.test_result = 43",
    ]);
    assert_eq!(parse_calculate_output(&out, "test_result"), Ok(Num::from_int(42)));
}

#[test]
fn parse_calculate_output_reports_misses() {
    let empty = lines(&["nothing here"]);
    assert_eq!(
        parse_calculate_output(&empty, "test_result").unwrap_err(),
        "Could not find test_result in output"
    );
    let bad = lines(&["assumptions.test_result = banana"]);
    assert_eq!(
        parse_calculate_output(&bad, "test_result").unwrap_err(),
        "Failed to parse value"
    );
}

#[test]
fn classify_value_pass_and_fail() {
    let case = TestCase {
        name: "assumptions.t".to_string(),
        formula: "=6*7".to_string(),
        expected: Num::from_int(42),
    };
    assert!(classify_value(&case, Num::from_int(42)).is_pass());
    let fail = classify_value(&case, Num::from_int(41));
    match fail {
        TestResult::Fail { actual, error, .. } => {
            assert_eq!(actual, Some(Num::from_int(41)));
            assert_eq!(error, None);
        }
        _ => panic!("expected a failure"),
    }
}

#[test]
fn run_test_reports_fault_messages() {
    let runner = runner_with(vec![("t", "=1", 1)], vec![]);
    let case = &runner.test_cases()[0];
    let r = runner.run_test(case, &CaseEvent::Faulted(ExportFault::SubjectFailed("boom".to_string())));
    match r {
        TestResult::Fail { actual, error, .. } => {
            assert_eq!(actual, None);
            assert_eq!(error, Some("forge-demo export failed: boom".to_string()));
        }
        _ => panic!("expected a failure"),
    }
    let r2 = runner.run_test(case, &CaseEvent::Faulted(ExportFault::Convert("no oracle".to_string())));
    match r2 {
        TestResult::Fail { error, .. } => {
            assert_eq!(error, Some("CSV conversion failed: no oracle".to_string()));
        }
        _ => panic!("expected a failure"),
    }
}

#[test]
fn run_perf_test_reads_dry_run_report() {
    let runner = runner_with(vec![("t", "=6*7", 42)], vec![]);
    let case = &runner.test_cases()[0];
    let ok = runner.run_perf_test(
        case,
        &PerfEvent::Reported(lines(&["assumptions.test_result = 42"])),
    );
    assert!(ok.is_pass());
    let fault = runner.run_perf_test(
        case,
        &PerfEvent::Faulted(CalcFault::RunSubject("missing".to_string())),
    );
    match fault {
        TestResult::Fail { error, .. } => {
            assert_eq!(error, Some("Failed to run forge calculate: missing".to_string()));
        }
        _ => panic!("expected a failure"),
    }
}

#[test]
fn run_all_emits_skips_first_in_order() {
    let runner = runner_with(
        vec![("a", "=1", 1), ("b", "=2", 2)],
        vec![("s1", "later"), ("s2", "never")],
    );
    let events = vec![
        CaseEvent::Recalculated(lines(&["test_result,1"])),
        CaseEvent::Recalculated(lines(&["test_result,3"])),
    ];
    let results = runner.run_all(&events);
    assert_eq!(results.len(), 4);
    assert_eq!(results[0].name(), "assumptions.s1");
    assert_eq!(results[1].name(), "assumptions.s2");
    assert!(matches!(results[0], TestResult::Skip { .. }));
    assert!(matches!(results[1], TestResult::Skip { .. }));
    assert_eq!(results[2].name(), "assumptions.a");
    assert!(results[2].is_pass());
    assert_eq!(results[3].name(), "assumptions.b");
    assert!(results[3].is_fail());
}

#[test]
fn run_perf_parallel_preserves_input_order() {
    // events arrive matched to input order however long each case ran
    let runner = runner_with(vec![("a", "=1", 1), ("b", "=2", 2), ("c", "=3", 3)], vec![]);
    let events = vec![
        PerfEvent::Reported(lines(&["assumptions.test_result = 1"])),
        PerfEvent::Reported(lines(&["assumptions.test_result = 2"])),
        PerfEvent::Reported(lines(&["assumptions.test_result = 30"])),
    ];
    let results = runner.run_perf_parallel(&events);
    assert_eq!(results.len(), 3);
    assert_eq!(results[0].name(), "assumptions.a");
    assert_eq!(results[1].name(), "assumptions.b");
    assert_eq!(results[2].name(), "assumptions.c");
    assert!(results[0].is_pass());
    assert!(results[1].is_pass());
    assert!(results[2].is_fail());
}

#[test]
fn batch_yaml_labels_cases_by_position() {
    let runner = runner_with(vec![("a", "=1", 1), ("b", "=X(\"q\")", 2)], vec![]);
    let yaml = synth_batch_yaml(runner.test_cases());
    let expected = "_forge_version: \"1.0.0\"\nassumptions:\n  test_0:\n    value: null\n    formula: \"=1\"\n  test_1:\n    value: null\n    formula: \"=X(\\\"q\\\")\"\n";
    assert_eq!(yaml, expected);
}

#[test]
fn single_yaml_embeds_escaped_formula() {
    let yaml = synth_single_yaml("=IF(A1=\"x\",1,2)");
    let expected = "_forge_version: \"1.0.0\"\nassumptions:\n  test_result:\n    value: null\n    formula: \"=IF(A1=\\\"x\\\",1,2)\"\n";
    assert_eq!(yaml, expected);
}

#[test]
fn parse_batch_csv_demultiplexes_by_label() {
    let csv = lines(&[
        "assumptions.test_0,10",
        "test_1,20",
        "noise,99",
        "assumptions.test_9,1",
    ]);
    let scan = parse_batch_csv(&csv, 3);
    assert_eq!(scan.len(), 3);
    assert_eq!(scan[0], Some(Num::from_int(10)));
    assert_eq!(scan[1], Some(Num::from_int(20)));
    assert_eq!(scan[2], None);
}

#[test]
fn parse_batch_csv_last_row_wins() {
    let csv = lines(&["test_0,1", "test_0,2"]);
    let scan = parse_batch_csv(&csv, 1);
    assert_eq!(scan[0], Some(Num::from_int(2)));
}

#[test]
fn run_batch_round_trip_recovers_every_case() {
    let runner = runner_with(vec![("a", "=1", 1), ("b", "=2", 2), ("c", "=3", 3)], vec![]);
    let event = BatchEvent::Recalculated(lines(&[
        "assumptions.test_0,1",
        "assumptions.test_1,2",
        "assumptions.test_2,4",
    ]));
    let results = runner.run_batch(&event);
    assert_eq!(results.len(), 3);
    assert!(results[0].is_pass());
    assert!(results[1].is_pass());
    assert!(results[2].is_fail());
}

#[test]
fn run_batch_missing_index_fails_that_case_only() {
    let runner = runner_with(vec![("a", "=1", 1), ("b", "=2", 2)], vec![]);
    let event = BatchEvent::Recalculated(lines(&["assumptions.test_1,2"]));
    let results = runner.run_batch(&event);
    assert_eq!(results.len(), 2);
    match &results[0] {
        TestResult::Fail { actual, error, .. } => {
            assert_eq!(*actual, None);
            assert_eq!(error.as_deref(), Some("Missing result in CSV"));
        }
        _ => panic!("expected the missing case to fail"),
    }
    assert!(results[1].is_pass());
}

#[test]
fn run_batch_shared_fault_degrades_to_per_case_failures() {
    let runner = runner_with(vec![("a", "=1", 1), ("b", "=2", 2)], vec![("s", "why")]);
    let event = BatchEvent::Faulted(ExportFault::RunSubject("no binary".to_string()));
    let results = runner.run_batch(&event);
    assert_eq!(results.len(), 3);
    assert!(matches!(results[0], TestResult::Skip { .. }));
    for r in &results[1..] {
        match r {
            TestResult::Fail { error, .. } => {
                assert_eq!(error.as_deref(), Some("Failed to run forge-demo: no binary"));
            }
            _ => panic!("expected a failure"),
        }
    }
}

#[test]
fn run_batch_with_no_cases_yields_skips_only() {
    let runner = runner_with(vec![], vec![("s", "why")]);
    let event = BatchEvent::Faulted(ExportFault::TempDir("full disk".to_string()));
    let results = runner.run_batch(&event);
    assert_eq!(results.len(), 1);
    assert!(matches!(results[0], TestResult::Skip { .. }));
}

#[test]
fn empty_spec_set_runs_nothing() {
    let specs: Vec<TestSpec> = Vec::new();
    let runner = TestRunner::new(
        "bin/forge-demo".to_string(),
        engine(),
        "tests/e2e".to_string(),
        &specs,
    );
    assert_eq!(runner.total_tests(), 0);
    let results = runner.run_all(&Vec::new());
    assert!(results.is_empty());
}

#[test]
fn loading_twice_yields_equal_sets() {
    let build = || runner_with(vec![("a", "=1", 1), ("b", "=2", 2)], vec![("s", "why")]);
    let one = build();
    let two = build();
    assert_eq!(one.test_cases().len(), two.test_cases().len());
    for (x, y) in one.test_cases().iter().zip(two.test_cases().iter()) {
        assert_eq!(x.name, y.name);
        assert_eq!(x.formula, y.formula);
        assert_eq!(x.expected, y.expected);
    }
    assert_eq!(one.skip_cases().len(), two.skip_cases().len());
    for (x, y) in one.skip_cases().iter().zip(two.skip_cases().iter()) {
        assert_eq!(x.name, y.name);
        assert_eq!(x.reason, y.reason);
    }
}

#[test]
fn non_specification_files_are_passed_over() {
    assert!(!has_spec_extension("readme.txt"));
    assert!(!has_spec_extension("config.json"));
    assert!(!has_spec_extension(".yaml"));
    assert!(has_spec_extension("cases.yaml"));
}

#[test]
fn total_tests_counts_cases_and_skips() {
    let runner = runner_with(vec![("a", "=1", 1)], vec![("s", "why"), ("t", "also")]);
    assert_eq!(runner.total_tests(), 3);
    assert_eq!(runner.test_cases().len(), 1);
    assert_eq!(runner.skip_cases().len(), 2);
}

#[test]
fn summarize_counts_each_kind() {
    let runner = runner_with(vec![("a", "=1", 1), ("b", "=2", 2)], vec![("s", "why")]);
    let events = vec![
        CaseEvent::Recalculated(lines(&["test_result,1"])),
        CaseEvent::Recalculated(lines(&["test_result,9"])),
    ];
    let results = runner.run_all(&events);
    let summary = summarize(&results);
    assert_eq!(summary.passed, 1);
    assert_eq!(summary.failed, 1);
    assert_eq!(summary.skipped, 1);
}
