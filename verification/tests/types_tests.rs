use forge_e2e::num::Num;
use forge_e2e::types::ColumnEntry;
use forge_e2e::types::Scalar;
use forge_e2e::types::ScalarEntry;
use forge_e2e::types::Section;
use forge_e2e::types::SectionEntry;
use forge_e2e::types::TableColumn;
use forge_e2e::types::TestResult;
use forge_e2e::types::TestSpec;
use forge_e2e::types::extract_skip_cases;
use forge_e2e::types::extract_test_cases;

fn scalar(formula: Option<&str>, expected: Option<i64>, skip: Option<&str>) -> Scalar {
    Scalar {
        value: None,
        formula: formula.map(|f| f.to_string()),
        expected: expected.map(Num::from_int),
        skip: skip.map(|s| s.to_string()),
    }
}

fn entry(name: &str, s: Scalar) -> ScalarEntry {
    ScalarEntry {
        name: name.to_string(),
        scalar: s,
    }
}

fn section(name: &str, entries: Vec<ScalarEntry>) -> SectionEntry {
    SectionEntry {
        name: name.to_string(),
        section: Section::ScalarGroup(entries),
    }
}

fn spec_of(sections: Vec<SectionEntry>) -> TestSpec {
    TestSpec {
        forge_version: "1.0.0".to_string(),
        sections,
    }
}

#[test]
fn parse_spec_extracts_test_cases() {
    let spec = spec_of(vec![section(
        "assumptions",
        vec![entry("test_abs", scalar(Some("=ABS(-42)"), Some(42), None))],
    )]);
    assert_eq!(spec.forge_version, "1.0.0");

    let cases = extract_test_cases(&spec);
    assert_eq!(cases.len(), 1);
    assert_eq!(cases[0].name, "assumptions.test_abs");
    assert_eq!(cases[0].expected, Num::from_int(42));
}

#[test]
fn test_result_is_pass() {
    let pass = TestResult::Pass {
        name: "test".to_string(),
        formula: "=1".to_string(),
        expected: Num::from_int(1),
        actual: Num::from_int(1),
    };
    assert!(pass.is_pass());
    assert!(!pass.is_fail());
}

#[test]
fn test_result_is_fail() {
    let fail = TestResult::Fail {
        name: "test".to_string(),
        formula: "=1".to_string(),
        expected: Num::from_int(1),
        actual: Some(Num::from_int(2)),
        error: None,
    };
    assert!(fail.is_fail());
    assert!(!fail.is_pass());
}

#[test]
fn test_result_name() {
    let pass = TestResult::Pass {
        name: "pass_test".to_string(),
        formula: "=1".to_string(),
        expected: Num::from_int(1),
        actual: Num::from_int(1),
    };
    let fail = TestResult::Fail {
        name: "fail_test".to_string(),
        formula: "=1".to_string(),
        expected: Num::from_int(1),
        actual: None,
        error: Some("error".to_string()),
    };
    let skip = TestResult::Skip {
        name: "skip_test".to_string(),
        reason: "not implemented".to_string(),
    };

    assert_eq!(pass.name(), "pass_test");
    assert_eq!(fail.name(), "fail_test");
    assert_eq!(skip.name(), "skip_test");
}

#[test]
fn extract_skips_scenarios_section() {
    let spec = spec_of(vec![
        section(
            "assumptions",
            vec![entry("test_one", scalar(Some("=1"), Some(1), None))],
        ),
        section(
            "scenarios",
            vec![entry("test_two", scalar(Some("=2"), Some(2), None))],
        ),
    ]);
    let cases = extract_test_cases(&spec);
    assert_eq!(cases.len(), 1);
    assert!(cases[0].name.contains("test_one"));
}

#[test]
fn extract_skips_underscore_prefixed_sections() {
    let spec = spec_of(vec![
        section(
            "_metadata",
            vec![entry("test_meta", scalar(Some("=1"), Some(1), None))],
        ),
        section(
            "assumptions",
            vec![entry("test_real", scalar(Some("=2"), Some(2), None))],
        ),
    ]);
    let cases = extract_test_cases(&spec);
    assert_eq!(cases.len(), 1);
    assert!(cases[0].name.contains("test_real"));
}

#[test]
fn extract_requires_both_formula_and_expected() {
    let spec = spec_of(vec![section(
        "assumptions",
        vec![
            entry(
                "no_formula",
                Scalar {
                    value: Some(Num::from_int(1)),
                    formula: None,
                    expected: Some(Num::from_int(1)),
                    skip: None,
                },
            ),
            entry("no_expected", scalar(Some("=1"), None, None)),
            entry("complete", scalar(Some("=1"), Some(1), None)),
        ],
    )]);
    let cases = extract_test_cases(&spec);
    assert_eq!(cases.len(), 1);
    assert!(cases[0].name.contains("complete"));
}

#[test]
fn extract_skip_marker_yields_skip_case_only() {
    let spec = spec_of(vec![section(
        "assumptions",
        vec![entry(
            "test_datedif",
            scalar(Some("=DATEDIF(1,2)"), Some(3), Some("not supported")),
        )],
    )]);
    let cases = extract_test_cases(&spec);
    let skips = extract_skip_cases(&spec);
    assert_eq!(cases.len(), 0);
    assert_eq!(skips.len(), 1);
    assert_eq!(skips[0].name, "assumptions.test_datedif");
    assert_eq!(skips[0].reason, "not supported");
}

#[test]
fn extract_ignores_value_only_scalars() {
    let spec = spec_of(vec![section(
        "assumptions",
        vec![entry(
            "just_value",
            Scalar {
                value: Some(Num::from_int(7)),
                formula: None,
                expected: None,
                skip: None,
            },
        )],
    )]);
    assert_eq!(extract_test_cases(&spec).len(), 0);
    assert_eq!(extract_skip_cases(&spec).len(), 0);
}

#[test]
fn extract_reserved_sections_never_contribute_skips() {
    let spec = spec_of(vec![
        section(
            "scenarios",
            vec![entry("a", scalar(None, None, Some("reserved")))],
        ),
        section(
            "_hidden",
            vec![entry("b", scalar(None, None, Some("reserved")))],
        ),
    ]);
    assert_eq!(extract_test_cases(&spec).len(), 0);
    assert_eq!(extract_skip_cases(&spec).len(), 0);
}

#[test]
fn extract_table_sections_yield_no_cases() {
    let spec = spec_of(vec![SectionEntry {
        name: "quarterly".to_string(),
        section: Section::Table(vec![ColumnEntry {
            name: "revenue".to_string(),
            column: TableColumn::Numbers(vec![Num::from_int(1), Num::from_int(2)]),
        }]),
    }]);
    assert_eq!(extract_test_cases(&spec).len(), 0);
    assert_eq!(extract_skip_cases(&spec).len(), 0);
}
