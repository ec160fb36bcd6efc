//! The declarative test-specification model, case extraction and results.
//!
//! A specification file holds a format-version tag and named sections; a
//! section is either a group of named scalars or a table.  Extraction
//! flattens the scalar groups into runnable test cases and declared skip
//! cases: a scalar yields exactly one of nothing, a test case, or a skip
//! case.  Sections named `scenarios` or prefixed with an underscore are
//! reserved and never contribute.

use vstd::prelude::*;

use crate::num::Num;
use crate::text::chars_of;
use crate::text::eq_chars;

verus! {

/// A scalar value: an optional literal value, an optional formula, an
/// optional expected result, and an optional skip reason.
pub struct Scalar {
    pub value: Option<Num>,
    pub formula: Option<String>,
    pub expected: Option<Num>,
    pub skip: Option<String>,
}

/// A named scalar inside a scalar group.
pub struct ScalarEntry {
    pub name: String,
    pub scalar: Scalar,
}

/// A table column: numbers, strings, or a column formula.
pub enum TableColumn {
    Numbers(Vec<Num>),
    Strings(Vec<String>),
    Formula(String),
}

/// A named column inside a table.
pub struct ColumnEntry {
    pub name: String,
    pub column: TableColumn,
}

/// A section of a specification file.  Only scalar groups are extracted;
/// tables are accepted for forward compatibility and yield nothing.
pub enum Section {
    ScalarGroup(Vec<ScalarEntry>),
    Table(Vec<ColumnEntry>),
}

/// A named section of a specification file.
pub struct SectionEntry {
    pub name: String,
    pub section: Section,
}

/// One parsed specification file: a format-version tag and its sections,
/// in file order.
pub struct TestSpec {
    pub forge_version: String,
    pub sections: Vec<SectionEntry>,
}

/// One runnable validation: a qualified name, the formula under test, and
/// its expected numeric result.
#[derive(Clone, Debug)]
pub struct TestCase {
    pub name: String,
    pub formula: String,
    pub expected: Num,
}

/// A declared-but-unexecuted case: a qualified name and the reason.
#[derive(Clone, Debug)]
pub struct SkipCase {
    pub name: String,
    pub reason: String,
}

/// The outcome of one case.
#[derive(Debug)]
pub enum TestResult {
    /// The actual value matches the expectation within the strict tolerance.
    Pass { name: String, formula: String, expected: Num, actual: Num },
    /// A mismatch (actual present, error absent) or a pipeline failure
    /// (error present, actual absent).
    Fail { name: String, formula: String, expected: Num, actual: Option<Num>, error: Option<
        String,
    > },
    /// A declared skip.
    Skip { name: String, reason: String },
}

/// The abstract value of a test case.
pub struct CaseModel {
    pub name: Seq<char>,
    pub formula: Seq<char>,
    pub expected: Num,
}

/// The abstract value of a skip case.
pub struct SkipModel {
    pub name: Seq<char>,
    pub reason: Seq<char>,
}

/// The abstract value of a result.
pub enum ResultModel {
    Pass { name: Seq<char>, formula: Seq<char>, expected: Num, actual: Num },
    Fail { name: Seq<char>, formula: Seq<char>, expected: Num, actual: Option<Num>, error: Option<
        Seq<char>,
    > },
    Skip { name: Seq<char>, reason: Seq<char> },
}

/// The view of an optional string.
pub open spec fn opt_view(o: Option<String>) -> Option<Seq<char>> {
    match o {
        Some(s) => Some(s@),
        None => None,
    }
}

pub open spec fn case_model(c: TestCase) -> CaseModel {
    CaseModel { name: c.name@, formula: c.formula@, expected: c.expected }
}

pub open spec fn case_models(s: Seq<TestCase>) -> Seq<CaseModel> {
    s.map_values(|c: TestCase| case_model(c))
}

pub open spec fn skip_model(c: SkipCase) -> SkipModel {
    SkipModel { name: c.name@, reason: c.reason@ }
}

pub open spec fn skip_models(s: Seq<SkipCase>) -> Seq<SkipModel> {
    s.map_values(|c: SkipCase| skip_model(c))
}

pub open spec fn result_model(r: TestResult) -> ResultModel {
    match r {
        TestResult::Pass { name, formula, expected, actual } => ResultModel::Pass {
            name: name@,
            formula: formula@,
            expected: expected,
            actual: actual,
        },
        TestResult::Fail { name, formula, expected, actual, error } => ResultModel::Fail {
            name: name@,
            formula: formula@,
            expected: expected,
            actual: actual,
            error: opt_view(error),
        },
        TestResult::Skip { name, reason } => ResultModel::Skip { name: name@, reason: reason@ },
    }
}

pub open spec fn result_models(s: Seq<TestResult>) -> Seq<ResultModel> {
    s.map_values(|r: TestResult| result_model(r))
}

/// The name carried by a result.
pub open spec fn spec_result_name(r: TestResult) -> Seq<char> {
    match r {
        TestResult::Pass { name, .. } => name@,
        TestResult::Fail { name, .. } => name@,
        TestResult::Skip { name, .. } => name@,
    }
}

impl TestResult {
    /// Whether this result is a pass.
    pub fn is_pass(&self) -> (r: bool)
        ensures
            r == (*self is Pass),
    {
        match self {
            TestResult::Pass { .. } => true,
            _ => false,
        }
    }

    /// Whether this result is a failure.
    pub fn is_fail(&self) -> (r: bool)
        ensures
            r == (*self is Fail),
    {
        match self {
            TestResult::Fail { .. } => true,
            _ => false,
        }
    }

    /// The name of the case this result belongs to.
    pub fn name(&self) -> (r: &str)
        ensures
            r@ == spec_result_name(*self),
    {
        match self {
            TestResult::Pass { name, .. } => name.as_str(),
            TestResult::Fail { name, .. } => name.as_str(),
            TestResult::Skip { name, .. } => name.as_str(),
        }
    }
}

/// Whether a section with this name is extracted: reserved names (the
/// `scenarios` keyword and names prefixed with an underscore) are not.
pub open spec fn section_included(name: Seq<char>) -> bool {
    !(name.len() > 0 && name[0] == '_') && name != "scenarios"@
}

/// The qualified case name `<section>.<key>`.
pub open spec fn qualified_name(section: Seq<char>, key: Seq<char>) -> Seq<char> {
    section + "."@ + key
}

/// The test cases one scalar contributes: exactly one when it has a formula
/// and an expected value and no skip marker, none otherwise.
pub open spec fn scalar_case(section: Seq<char>, e: ScalarEntry) -> Seq<CaseModel> {
    if e.scalar.skip is Some {
        Seq::<CaseModel>::empty()
    } else if e.scalar.formula is Some && e.scalar.expected is Some {
        seq![
            CaseModel {
                name: qualified_name(section, e.name@),
                formula: (e.scalar.formula->0)@,
                expected: e.scalar.expected->0,
            },
        ]
    } else {
        Seq::<CaseModel>::empty()
    }
}

/// The skip cases one scalar contributes: exactly one when its skip marker
/// is set, regardless of the other fields.
pub open spec fn scalar_skip(section: Seq<char>, e: ScalarEntry) -> Seq<SkipModel> {
    if e.scalar.skip is Some {
        seq![
            SkipModel { name: qualified_name(section, e.name@), reason: (e.scalar.skip->0)@ },
        ]
    } else {
        Seq::<SkipModel>::empty()
    }
}

pub open spec fn group_cases(section: Seq<char>, entries: Seq<ScalarEntry>) -> Seq<CaseModel>
    decreases entries.len(),
{
    if entries.len() == 0 {
        Seq::<CaseModel>::empty()
    } else {
        group_cases(section, entries.drop_last()) + scalar_case(section, entries.last())
    }
}

pub open spec fn group_skips(section: Seq<char>, entries: Seq<ScalarEntry>) -> Seq<SkipModel>
    decreases entries.len(),
{
    if entries.len() == 0 {
        Seq::<SkipModel>::empty()
    } else {
        group_skips(section, entries.drop_last()) + scalar_skip(section, entries.last())
    }
}

pub open spec fn section_cases(e: SectionEntry) -> Seq<CaseModel> {
    if !section_included(e.name@) {
        Seq::<CaseModel>::empty()
    } else {
        match e.section {
            Section::ScalarGroup(v) => group_cases(e.name@, v@),
            Section::Table(_) => Seq::<CaseModel>::empty(),
        }
    }
}

pub open spec fn section_skips(e: SectionEntry) -> Seq<SkipModel> {
    if !section_included(e.name@) {
        Seq::<SkipModel>::empty()
    } else {
        match e.section {
            Section::ScalarGroup(v) => group_skips(e.name@, v@),
            Section::Table(_) => Seq::<SkipModel>::empty(),
        }
    }
}

pub open spec fn sections_cases(sections: Seq<SectionEntry>) -> Seq<CaseModel>
    decreases sections.len(),
{
    if sections.len() == 0 {
        Seq::<CaseModel>::empty()
    } else {
        sections_cases(sections.drop_last()) + section_cases(sections.last())
    }
}

pub open spec fn sections_skips(sections: Seq<SectionEntry>) -> Seq<SkipModel>
    decreases sections.len(),
{
    if sections.len() == 0 {
        Seq::<SkipModel>::empty()
    } else {
        sections_skips(sections.drop_last()) + section_skips(sections.last())
    }
}

/// All test cases of one specification file, in section order.
pub open spec fn extraction_cases(ts: TestSpec) -> Seq<CaseModel> {
    sections_cases(ts.sections@)
}

/// All skip cases of one specification file, in section order.
pub open spec fn extraction_skips(ts: TestSpec) -> Seq<SkipModel> {
    sections_skips(ts.sections@)
}

/// Builds the qualified case name `<section>.<key>`.
pub fn make_qualified_name(section: &String, key: &String) -> (r: String)
    ensures
        r@ == qualified_name(section@, key@),
{
    let mut name = section.clone();
    name.append(".");
    name.append(key.as_str());
    name
}

/// Whether this section name is extracted.
pub fn section_name_included(name: &String) -> (r: bool)
    ensures
        r == section_included(name@),
{
    let cs = chars_of(name.as_str());
    if cs.len() > 0 && cs[0] == '_' {
        return false;
    }
    let scenarios = chars_of("scenarios");
    if eq_chars(&cs, &scenarios) {
        return false;
    }
    true
}

/// Extracts the runnable test cases of `ts`: every scalar of every
/// extracted scalar group that has a formula and an expected value and no
/// skip marker, as `extraction_cases` lists them.
pub fn extract_test_cases(ts: &TestSpec) -> (cases: Vec<TestCase>)
    ensures
        case_models(cases@) == extraction_cases(*ts),
{
    let mut cases: Vec<TestCase> = Vec::new();
    let n = ts.sections.len();
    let mut i: usize = 0;
    proof {
        assert(case_models(cases@) =~= sections_cases(ts.sections@.take(0)));
    }
    while i < n
        invariant
            0 <= i <= n,
            n == ts.sections@.len(),
            case_models(cases@) == sections_cases(ts.sections@.take(i as int)),
        decreases n - i,
    {
        let entry = &ts.sections[i];
        proof {
            assert(ts.sections@.take(i + 1).drop_last() =~= ts.sections@.take(i as int));
            assert(ts.sections@.take(i + 1).last() == ts.sections@[i as int]);
        }
        if section_name_included(&entry.name) {
            match &entry.section {
                Section::ScalarGroup(scalars) => {
                    let m = scalars.len();
                    let mut j: usize = 0;
                    proof {
                        assert(group_cases(entry.name@, scalars@.take(0)) =~= Seq::<
                            CaseModel,
                        >::empty());
                    }
                    while j < m
                        invariant
                            0 <= j <= m,
                            m == scalars@.len(),
                            case_models(cases@) == sections_cases(ts.sections@.take(i as int))
                                + group_cases(entry.name@, scalars@.take(j as int)),
                        decreases m - j,
                    {
                        let se = &scalars[j];
                        proof {
                            assert(scalars@.take(j + 1).drop_last() =~= scalars@.take(j as int));
                            assert(scalars@.take(j + 1).last() == scalars@[j as int]);
                        }
                        if se.scalar.skip.is_some() {
                            proof {
                                assert(case_models(cases@) =~= sections_cases(
                                    ts.sections@.take(i as int),
                                ) + group_cases(entry.name@, scalars@.take(j + 1)));
                            }
                        } else {
                            match &se.scalar.formula {
                                Some(f) => match &se.scalar.expected {
                                    Some(x) => {
                                        let tc = TestCase {
                                            name: make_qualified_name(&entry.name, &se.name),
                                            formula: f.clone(),
                                            expected: *x,
                                        };
                                        proof {
                                            assert(case_model(tc) == scalar_case(
                                                entry.name@,
                                                scalars@[j as int],
                                            )[0]);
                                        }
                                        let ghost prev = cases@;
                                        cases.push(tc);
                                        proof {
                                            assert(cases@ == prev.push(tc));
                                            assert(case_models(cases@) =~= case_models(
                                                prev,
                                            ).push(case_model(tc)));
                                            assert(group_cases(entry.name@, scalars@.take(j + 1))
                                                == group_cases(
                                                entry.name@,
                                                scalars@.take(j as int),
                                            ) + scalar_case(entry.name@, scalars@[j as int]));
                                            assert(case_models(cases@) =~= sections_cases(
                                                ts.sections@.take(i as int),
                                            ) + group_cases(entry.name@, scalars@.take(j + 1)));
                                        }
                                    },
                                    None => {
                                        proof {
                                            assert(case_models(cases@) =~= sections_cases(
                                                ts.sections@.take(i as int),
                                            ) + group_cases(entry.name@, scalars@.take(j + 1)));
                                        }
                                    },
                                },
                                None => {
                                    proof {
                                        assert(case_models(cases@) =~= sections_cases(
                                            ts.sections@.take(i as int),
                                        ) + group_cases(entry.name@, scalars@.take(j + 1)));
                                    }
                                },
                            }
                        }
                        j = j + 1;
                    }
                    proof {
                        assert(scalars@.take(m as int) =~= scalars@);
                        assert(case_models(cases@) =~= sections_cases(ts.sections@.take(i + 1)));
                    }
                },
                Section::Table(_) => {
                    proof {
                        assert(case_models(cases@) =~= sections_cases(ts.sections@.take(i + 1)));
                    }
                },
            }
        } else {
            proof {
                assert(case_models(cases@) =~= sections_cases(ts.sections@.take(i + 1)));
            }
        }
        i = i + 1;
    }
    proof {
        assert(ts.sections@.take(n as int) =~= ts.sections@);
    }
    cases
}

/// Extracts the declared skip cases of `ts`: every scalar of every
/// extracted scalar group whose skip marker is set, as `extraction_skips`
/// lists them.
pub fn extract_skip_cases(ts: &TestSpec) -> (skips: Vec<SkipCase>)
    ensures
        skip_models(skips@) == extraction_skips(*ts),
{
    let mut skips: Vec<SkipCase> = Vec::new();
    let n = ts.sections.len();
    let mut i: usize = 0;
    proof {
        assert(skip_models(skips@) =~= sections_skips(ts.sections@.take(0)));
    }
    while i < n
        invariant
            0 <= i <= n,
            n == ts.sections@.len(),
            skip_models(skips@) == sections_skips(ts.sections@.take(i as int)),
        decreases n - i,
    {
        let entry = &ts.sections[i];
        proof {
            assert(ts.sections@.take(i + 1).drop_last() =~= ts.sections@.take(i as int));
            assert(ts.sections@.take(i + 1).last() == ts.sections@[i as int]);
        }
        if section_name_included(&entry.name) {
            match &entry.section {
                Section::ScalarGroup(scalars) => {
                    let m = scalars.len();
                    let mut j: usize = 0;
                    proof {
                        assert(group_skips(entry.name@, scalars@.take(0)) =~= Seq::<
                            SkipModel,
                        >::empty());
                    }
                    while j < m
                        invariant
                            0 <= j <= m,
                            m == scalars@.len(),
                            skip_models(skips@) == sections_skips(ts.sections@.take(i as int))
                                + group_skips(entry.name@, scalars@.take(j as int)),
                        decreases m - j,
                    {
                        let se = &scalars[j];
                        proof {
                            assert(scalars@.take(j + 1).drop_last() =~= scalars@.take(j as int));
                            assert(scalars@.take(j + 1).last() == scalars@[j as int]);
                        }
                        match &se.scalar.skip {
                            Some(reason) => {
                                let sc = SkipCase {
                                    name: make_qualified_name(&entry.name, &se.name),
                                    reason: reason.clone(),
                                };
                                proof {
                                    assert(skip_model(sc) == scalar_skip(
                                        entry.name@,
                                        scalars@[j as int],
                                    )[0]);
                                }
                                let ghost prev = skips@;
                                skips.push(sc);
                                proof {
                                    assert(skips@ == prev.push(sc));
                                    assert(skip_models(skips@) =~= skip_models(prev).push(
                                        skip_model(sc),
                                    ));
                                    assert(group_skips(entry.name@, scalars@.take(j + 1))
                                        == group_skips(entry.name@, scalars@.take(j as int))
                                        + scalar_skip(entry.name@, scalars@[j as int]));
                                    assert(skip_models(skips@) =~= sections_skips(
                                        ts.sections@.take(i as int),
                                    ) + group_skips(entry.name@, scalars@.take(j + 1)));
                                }
                            },
                            None => {
                                proof {
                                    assert(skip_models(skips@) =~= sections_skips(
                                        ts.sections@.take(i as int),
                                    ) + group_skips(entry.name@, scalars@.take(j + 1)));
                                }
                            },
                        }
                        j = j + 1;
                    }
                    proof {
                        assert(scalars@.take(m as int) =~= scalars@);
                        assert(skip_models(skips@) =~= sections_skips(ts.sections@.take(i + 1)));
                    }
                },
                Section::Table(_) => {
                    proof {
                        assert(skip_models(skips@) =~= sections_skips(ts.sections@.take(i + 1)));
                    }
                },
            }
        } else {
            proof {
                assert(skip_models(skips@) =~= sections_skips(ts.sections@.take(i + 1)));
            }
        }
        i = i + 1;
    }
    proof {
        assert(ts.sections@.take(n as int) =~= ts.sections@);
    }
    skips
}

/// A scalar holding both a formula and an expected value, and no skip
/// marker, contributes exactly one test case, named `<section>.<key>`,
/// carrying its formula and expected value, and no skip case.
pub proof fn lemma_scalar_yields_one_case(section: Seq<char>, e: ScalarEntry)
    requires
        e.scalar.skip is None,
        e.scalar.formula is Some,
        e.scalar.expected is Some,
    ensures
        scalar_case(section, e) == seq![
            CaseModel {
                name: qualified_name(section, e.name@),
                formula: (e.scalar.formula->0)@,
                expected: e.scalar.expected->0,
            },
        ],
        scalar_skip(section, e) == Seq::<SkipModel>::empty(),
{
}

/// A scalar whose skip marker is set contributes exactly one skip case,
/// named `<section>.<key>` and carrying the reason, and no test case,
/// whatever its other fields hold.
pub proof fn lemma_scalar_with_skip_yields_one_skip(section: Seq<char>, e: ScalarEntry)
    requires
        e.scalar.skip is Some,
    ensures
        scalar_skip(section, e) == seq![
            SkipModel { name: qualified_name(section, e.name@), reason: (e.scalar.skip->0)@ },
        ],
        scalar_case(section, e) == Seq::<CaseModel>::empty(),
{
}

/// A scalar missing its formula or its expected value, with no skip
/// marker, contributes neither a test case nor a skip case.
pub proof fn lemma_scalar_incomplete_yields_nothing(section: Seq<char>, e: ScalarEntry)
    requires
        e.scalar.skip is None,
        e.scalar.formula is None || e.scalar.expected is None,
    ensures
        scalar_case(section, e) == Seq::<CaseModel>::empty(),
        scalar_skip(section, e) == Seq::<SkipModel>::empty(),
{
}

/// A reserved section, named `scenarios` or prefixed with an underscore,
/// contributes no cases and no skips, however well-formed its content.
pub proof fn lemma_reserved_section_contributes_nothing(e: SectionEntry)
    requires
        !section_included(e.name@),
    ensures
        section_cases(e) == Seq::<CaseModel>::empty(),
        section_skips(e) == Seq::<SkipModel>::empty(),
{
}

} // verus!
