//! The interactive front-end's state, modeled as a plain struct driven by
//! pure transitions.
//!
//! The display layer owns the terminal; everything it needs to decide —
//! filtering, search, selection, panel focus, counters, progress and
//! function coverage — lives here as verified state transitions on plain
//! values.  Colors are the library's own names; the front-end maps them to
//! terminal colors.

use vstd::prelude::*;

use crate::runner::count_failed;
use crate::runner::count_passed;
use crate::runner::count_skipped;
use crate::text::chars_of;
use crate::text::contains_chars;
use crate::text::eq_chars;
use crate::text::lower_chars;
use crate::text::lower_seq;
use crate::text::skip_chars;
use crate::text::spec_contains;
use crate::types::TestResult;
use crate::types::spec_result_name;

verus! {

/// The current input mode.
#[derive(Debug, Clone, Copy, PartialEq, Eq, Structural)]
pub enum InputMode {
    /// Normal navigation.
    Normal,
    /// Typing filters results.
    Search,
}

impl Default for InputMode {
    fn default() -> (r: Self)
        ensures
            r == InputMode::Normal,
    {
        InputMode::Normal
    }
}

/// The filter applied to the results list.
#[derive(Debug, Clone, Copy, PartialEq, Eq, Structural)]
pub enum FilterMode {
    /// Show all results.
    All,
    /// Show only passed results.
    Passed,
    /// Show only failed results.
    Failed,
}

impl Default for FilterMode {
    fn default() -> (r: Self)
        ensures
            r == FilterMode::All,
    {
        FilterMode::All
    }
}

impl FilterMode {
    /// The display label of this filter.
    pub fn label(self) -> (r: &'static str)
        ensures
            self is All ==> r@ == "All"@,
            self is Passed ==> r@ == "Passed"@,
            self is Failed ==> r@ == "Failed"@,
    {
        match self {
            FilterMode::All => "All",
            FilterMode::Passed => "Passed",
            FilterMode::Failed => "Failed",
        }
    }

    /// The keyboard shortcut of this filter.
    pub fn shortcut(self) -> (r: char)
        ensures
            self is All ==> r == '1',
            self is Passed ==> r == '2',
            self is Failed ==> r == '3',
    {
        match self {
            FilterMode::All => '1',
            FilterMode::Passed => '2',
            FilterMode::Failed => '3',
        }
    }
}

/// The panel holding focus.
#[derive(Debug, Clone, Copy, PartialEq, Eq, Structural)]
pub enum ActivePanel {
    /// The results list.
    Results,
    /// The detail pane of the selected result.
    Details,
    /// The statistics pane.
    Stats,
}

impl Default for ActivePanel {
    fn default() -> (r: Self)
        ensures
            r == ActivePanel::Results,
    {
        ActivePanel::Results
    }
}

impl ActivePanel {
    /// The panel after this one.
    pub open spec fn spec_next(self) -> Self {
        match self {
            ActivePanel::Results => ActivePanel::Details,
            ActivePanel::Details => ActivePanel::Stats,
            ActivePanel::Stats => ActivePanel::Results,
        }
    }

    /// The panel before this one.
    pub open spec fn spec_prev(self) -> Self {
        match self {
            ActivePanel::Results => ActivePanel::Stats,
            ActivePanel::Details => ActivePanel::Results,
            ActivePanel::Stats => ActivePanel::Details,
        }
    }

    /// The panel after this one.
    pub fn next(self) -> (r: Self)
        ensures
            r == self.spec_next(),
    {
        match self {
            ActivePanel::Results => ActivePanel::Details,
            ActivePanel::Details => ActivePanel::Stats,
            ActivePanel::Stats => ActivePanel::Results,
        }
    }

    /// The panel before this one.
    pub fn prev(self) -> (r: Self)
        ensures
            r == self.spec_prev(),
    {
        match self {
            ActivePanel::Results => ActivePanel::Stats,
            ActivePanel::Details => ActivePanel::Results,
            ActivePanel::Stats => ActivePanel::Details,
        }
    }
}

/// A display color of the results list; the front-end maps each to its
/// terminal color.
#[derive(Debug, Clone, Copy, PartialEq, Eq, Structural)]
pub enum Color {
    Blue,
    Yellow,
    Magenta,
    Cyan,
    Green,
    White,
}

/// The length of the part of `s` before its first dot, or of all of `s`
/// without one.
pub open spec fn before_dot_len(s: Seq<char>) -> int
    decreases s.len(),
{
    if s.len() > 0 && s[0] != '.' {
        1 + before_dot_len(s.skip(1))
    } else {
        0
    }
}

/// The category of a qualified case name: the part before the first dot.
pub open spec fn category_of(s: Seq<char>) -> Seq<char> {
    s.take(before_dot_len(s))
}

/// The display color of a category.
pub open spec fn spec_category_color(s: Seq<char>) -> Color {
    let cat = category_of(s);
    if cat == "math"@ || cat == "aggregation"@ {
        Color::Blue
    } else if cat == "text"@ {
        Color::Yellow
    } else if cat == "date"@ {
        Color::Magenta
    } else if cat == "logical"@ {
        Color::Cyan
    } else if cat == "lookup"@ {
        Color::Green
    } else {
        Color::White
    }
}

proof fn lemma_before_dot_unique(s: Seq<char>, d: int)
    requires
        0 <= d <= s.len(),
        forall|j: int| 0 <= j < d ==> s[j] != '.',
        d < s.len() ==> s[d] == '.',
    ensures
        before_dot_len(s) == d,
    decreases s.len(),
{
    if s.len() > 0 && s[0] != '.' {
        assert(d > 0);
        let t = s.skip(1);
        assert(forall|j: int| 0 <= j < d - 1 ==> t[j] == s[j + 1] && s[j + 1] != '.');
        assert(d - 1 < t.len() ==> t[d - 1] == s[d]);
        lemma_before_dot_unique(t, d - 1);
    } else {
        assert(d == 0);
    }
}

/// Finds the first dot of `cs`, or its length without one.
fn before_dot(cs: &Vec<char>) -> (r: usize)
    ensures
        r == before_dot_len(cs@),
        r <= cs@.len(),
        r < cs@.len() ==> cs@[r as int] == '.',
        forall|j: int| 0 <= j < r ==> cs@[j] != '.',
{
    let n = cs.len();
    let mut i: usize = 0;
    while i < n && cs[i] != '.'
        invariant
            0 <= i <= n,
            n == cs@.len(),
            forall|j: int| 0 <= j < i ==> cs@[j] != '.',
        decreases n - i,
    {
        i = i + 1;
    }
    proof {
        lemma_before_dot_unique(cs@, i as int);
    }
    i
}

/// The first `n` characters of `cs`.
fn take_chars(cs: &Vec<char>, n: usize) -> (r: Vec<char>)
    requires
        n <= cs@.len(),
    ensures
        r@ == cs@.take(n as int),
{
    let mut out: Vec<char> = Vec::new();
    let mut i: usize = 0;
    while i < n
        invariant
            0 <= i <= n,
            n <= cs@.len(),
            out@ == cs@.take(n as int).take(i as int),
        decreases n - i,
    {
        proof {
            assert(cs@.take(n as int).take(i + 1) =~= cs@.take(n as int).take(i as int).push(
                cs@[i as int],
            ));
        }
        out.push(cs[i]);
        i = i + 1;
    }
    proof {
        assert(cs@.take(n as int).take(n as int) =~= cs@.take(n as int));
    }
    out
}

/// The display color of a case name, decided by its category.
pub fn category_color(name: &str) -> (c: Color)
    ensures
        c == spec_category_color(name@),
{
    let cs = chars_of(name);
    let d = before_dot(&cs);
    let cat = take_chars(&cs, d);
    if eq_chars(&cat, &chars_of("math")) || eq_chars(&cat, &chars_of("aggregation")) {
        Color::Blue
    } else if eq_chars(&cat, &chars_of("text")) {
        Color::Yellow
    } else if eq_chars(&cat, &chars_of("date")) {
        Color::Magenta
    } else if eq_chars(&cat, &chars_of("logical")) {
        Color::Cyan
    } else if eq_chars(&cat, &chars_of("lookup")) {
        Color::Green
    } else {
        Color::White
    }
}

/// The selection state of the results list.
#[derive(Debug, Clone, Copy, PartialEq, Eq, Structural)]
pub struct ListCursor {
    pub sel: Option<usize>,
}

impl ListCursor {
    /// An empty selection.
    pub fn new() -> (r: Self)
        ensures
            r.sel is None,
    {
        ListCursor { sel: None }
    }

    /// The selected position, if any.
    pub fn selected(&self) -> (r: Option<usize>)
        ensures
            r == self.sel,
    {
        self.sel
    }

    /// Moves the selection.
    pub fn select(&mut self, s: Option<usize>)
        ensures
            final(self).sel == s,
    {
        self.sel = s;
    }
}

/// Whether a result passes the list filter.
pub open spec fn passes_filter(r: TestResult, m: FilterMode) -> bool {
    match m {
        FilterMode::All => true,
        FilterMode::Passed => r is Pass,
        FilterMode::Failed => r is Fail,
    }
}

/// Whether a result passes the search query: an empty query always, else
/// a case-folded substring match on the name.
pub open spec fn passes_search(r: TestResult, q: Seq<char>) -> bool {
    q.len() == 0 || spec_contains(lower_seq(spec_result_name(r)), lower_seq(q))
}

/// Whether a result is shown under the filter and query.
pub open spec fn shown(r: TestResult, m: FilterMode, q: Seq<char>) -> bool {
    passes_filter(r, m) && passes_search(r, q)
}

/// The contribution of index `i`: itself when shown, nothing otherwise.
pub open spec fn contribution(results: Seq<TestResult>, m: FilterMode, q: Seq<char>, i: int) -> Seq<
    usize,
> {
    if shown(results[i], m, q) {
        seq![i as usize]
    } else {
        Seq::<usize>::empty()
    }
}

/// The shown indices among `lo..hi`, most recent first.
pub open spec fn filtered_range(
    results: Seq<TestResult>,
    m: FilterMode,
    q: Seq<char>,
    lo: int,
    hi: int,
) -> Seq<usize>
    decreases hi - lo,
{
    if hi <= lo {
        Seq::<usize>::empty()
    } else {
        contribution(results, m, q, hi - 1) + filtered_range(results, m, q, lo, hi - 1)
    }
}

/// The shown indices of a run, most recent first.
pub open spec fn spec_filtered(results: Seq<TestResult>, m: FilterMode, q: Seq<char>) -> Seq<
    usize,
> {
    filtered_range(results, m, q, 0, results.len() as int)
}

pub proof fn lemma_filtered_range_split(
    results: Seq<TestResult>,
    m: FilterMode,
    q: Seq<char>,
    lo: int,
    hi: int,
)
    requires
        lo < hi,
    ensures
        filtered_range(results, m, q, lo, hi) == filtered_range(results, m, q, lo + 1, hi)
            + contribution(results, m, q, lo),
    decreases hi - lo,
{
    if lo + 1 < hi {
        lemma_filtered_range_split(results, m, q, lo, hi - 1);
        assert(filtered_range(results, m, q, lo, hi) == contribution(results, m, q, hi - 1)
            + filtered_range(results, m, q, lo, hi - 1));
        assert(filtered_range(results, m, q, lo + 1, hi) == contribution(results, m, q, hi - 1)
            + filtered_range(results, m, q, lo + 1, hi - 1));
        assert(filtered_range(results, m, q, lo, hi) =~= filtered_range(results, m, q, lo + 1, hi)
            + contribution(results, m, q, lo));
    } else {
        assert(hi == lo + 1);
        assert(filtered_range(results, m, q, lo, lo) =~= Seq::<usize>::empty());
        assert(filtered_range(results, m, q, lo + 1, hi) =~= Seq::<usize>::empty());
        assert(filtered_range(results, m, q, lo, hi) == contribution(results, m, q, lo)
            + filtered_range(results, m, q, lo, lo));
        assert(filtered_range(results, m, q, lo, hi) =~= filtered_range(results, m, q, lo + 1, hi)
            + contribution(results, m, q, lo));
    }
}

/// Every shown index lies inside the run.
pub proof fn lemma_filtered_in_range(
    results: Seq<TestResult>,
    m: FilterMode,
    q: Seq<char>,
    lo: int,
    hi: int,
)
    requires
        0 <= lo,
        hi <= results.len(),
        hi <= usize::MAX,
    ensures
        ({
            let f = filtered_range(results, m, q, lo, hi);
            forall|k: int| #![auto] 0 <= k < f.len() ==> lo <= f[k] && f[k] < hi
        }),
    decreases hi - lo,
{
    if lo < hi {
        lemma_filtered_in_range(results, m, q, lo, hi - 1);
        let f = filtered_range(results, m, q, lo, hi);
        let c = contribution(results, m, q, hi - 1);
        let rest = filtered_range(results, m, q, lo, hi - 1);
        assert(f == c + rest);
        assert forall|k: int| 0 <= k < f.len() implies lo <= f[k] && f[k] < hi by {
            if k < c.len() {
                assert(f[k] == c[k]);
                assert(c[k] == (hi - 1) as usize);
            } else {
                assert(f[k] == rest[k - c.len()]);
            }
        }
    }
}

/// Whether one result is shown, executable; the query is handed over
/// already case-folded.
fn shown_exec(r: &TestResult, m: FilterMode, q_lower: &Vec<char>, Ghost(q): Ghost<Seq<char>>) -> (
    b: bool)
    requires
        q_lower@ == lower_seq(q),
        q_lower@.len() == q.len(),
    ensures
        b == shown(*r, m, q),
{
    let pf = match m {
        FilterMode::All => true,
        FilterMode::Passed => r.is_pass(),
        FilterMode::Failed => r.is_fail(),
    };
    if !pf {
        return false;
    }
    if q_lower.len() == 0 {
        return true;
    }
    let name_chars = chars_of(r.name());
    let name_lower = lower_chars(&name_chars);
    contains_chars(&name_lower, q_lower)
}

/// Computes the shown indices of a run, exactly per `spec_filtered`.
fn compute_filtered(results: &Vec<TestResult>, m: FilterMode, query: &String) -> (r: Vec<usize>)
    ensures
        r@ == spec_filtered(results@, m, query@),
{
    let qc = chars_of(query.as_str());
    let q_lower = lower_chars(&qc);
    let n = results.len();
    let mut out: Vec<usize> = Vec::new();
    let mut i: usize = n;
    proof {
        assert(out@ =~= filtered_range(results@, m, query@, n as int, n as int));
    }
    while i > 0
        invariant
            0 <= i <= n,
            n == results@.len(),
            q_lower@ == lower_seq(query@),
            out@ == filtered_range(results@, m, query@, i as int, n as int),
        decreases i,
    {
        i = i - 1;
        let s = shown_exec(&results[i], m, &q_lower, Ghost(query@));
        proof {
            lemma_filtered_range_split(results@, m, query@, i as int, n as int);
        }
        if s {
            out.push(i);
            proof {
                assert(out@ =~= filtered_range(results@, m, query@, i as int, n as int));
            }
        } else {
            proof {
                assert(out@ =~= filtered_range(results@, m, query@, i as int, n as int));
            }
        }
    }
    out
}

/// One category's tested functions.
pub struct CoverageEntry {
    pub category: String,
    pub functions: Vec<String>,
}

/// The total number of tracked function names across all categories.
pub open spec fn coverage_total(entries: Seq<CoverageEntry>) -> int
    decreases entries.len(),
{
    if entries.len() == 0 {
        0
    } else {
        coverage_total(entries.drop_last()) + entries.last().functions@.len()
    }
}

pub proof fn lemma_coverage_total_nonneg(entries: Seq<CoverageEntry>)
    ensures
        0 <= coverage_total(entries),
    decreases entries.len(),
{
    if entries.len() > 0 {
        lemma_coverage_total_nonneg(entries.drop_last());
    }
}

pub proof fn lemma_coverage_total_update(entries: Seq<CoverageEntry>, k: int, e: CoverageEntry)
    requires
        0 <= k < entries.len(),
    ensures
        coverage_total(entries.update(k, e)) == coverage_total(entries) - entries[k].functions@.len()
            + e.functions@.len(),
    decreases entries.len(),
{
    if k == entries.len() - 1 {
        assert(entries.update(k, e).drop_last() =~= entries.drop_last());
        assert(entries.update(k, e).last() == e);
    } else {
        lemma_coverage_total_update(entries.drop_last(), k, e);
        assert(entries.update(k, e).drop_last() =~= entries.drop_last().update(k, e));
        assert(entries.update(k, e).last() == entries.last());
    }
}

/// The first entry of the coverage table holding `category`, or the
/// table's length when none does.
pub open spec fn cov_find(entries: Seq<CoverageEntry>, category: Seq<char>) -> int
    decreases entries.len(),
{
    if entries.len() == 0 {
        0
    } else if entries[0].category@ == category {
        0
    } else {
        1 + cov_find(entries.skip(1), category)
    }
}

pub proof fn lemma_cov_find_range(entries: Seq<CoverageEntry>, category: Seq<char>)
    ensures
        0 <= cov_find(entries, category) <= entries.len(),
        cov_find(entries, category) < entries.len() ==> entries[cov_find(
            entries,
            category,
        )].category@ == category,
        forall|j: int| 0 <= j < cov_find(entries, category) ==> entries[j].category@ != category,
    decreases entries.len(),
{
    if entries.len() > 0 && entries[0].category@ != category {
        let t = entries.skip(1);
        lemma_cov_find_range(t, category);
        let f = cov_find(entries, category);
        assert(f == 1 + cov_find(t, category));
        if f < entries.len() {
            assert(t[f - 1] == entries[f]);
        }
        assert forall|j: int| 0 <= j < f implies entries[j].category@ != category by {
            if j > 0 {
                assert(t[j - 1] == entries[j]);
            }
        }
    }
}

proof fn lemma_cov_find_at(entries: Seq<CoverageEntry>, category: Seq<char>, i: int)
    requires
        0 <= i <= entries.len(),
        forall|j: int| 0 <= j < i ==> entries[j].category@ != category,
        i < entries.len() ==> entries[i].category@ == category,
    ensures
        cov_find(entries, category) == i,
    decreases entries.len(),
{
    if entries.len() == 0 {
        assert(i == 0);
    } else if entries[0].category@ == category {
        assert(i == 0) by {
            if i > 0 {
                assert(entries[0].category@ != category);
            }
        }
    } else {
        assert(i > 0);
        let t = entries.skip(1);
        assert forall|j: int| 0 <= j < i - 1 implies t[j].category@ != category by {
            assert(t[j] == entries[j + 1]);
        }
        assert(i - 1 < t.len() ==> t[i - 1] == entries[i]);
        lemma_cov_find_at(t, category, i - 1);
    }
}

/// How one recorded name changes the coverage table: an undotted name
/// changes nothing; a dotted name appends its function part to its
/// category's entry, first come first placed, or opens a new entry at the
/// end.
pub open spec fn coverage_tracked(
    before: Seq<CoverageEntry>,
    after: Seq<CoverageEntry>,
    name: Seq<char>,
) -> bool {
    &&& (before_dot_len(name) >= name.len() ==> after == before)
    &&& (before_dot_len(name) < name.len() ==> ({
        let cat = name.take(before_dot_len(name));
        let func = name.skip(before_dot_len(name) + 1);
        let i = cov_find(before, cat);
        &&& (i < before.len() ==> {
            &&& after.len() == before.len()
            &&& (forall|j: int| 0 <= j < before.len() && j != i ==> after[j] == before[j])
            &&& after[i].category == before[i].category
            &&& after[i].functions@.len() == before[i].functions@.len() + 1
            &&& after[i].functions@.drop_last() == before[i].functions@
            &&& after[i].functions@.last()@ == func
        })
        &&& (i == before.len() ==> {
            &&& after.len() == before.len() + 1
            &&& after.drop_last() == before
            &&& after.last().category@ == cat
            &&& after.last().functions@.len() == 1
            &&& after.last().functions@[0]@ == func
        })
    })
    )
}

/// Records one case name in the coverage table, exactly per
/// `coverage_tracked`.
fn track_coverage(entries: &mut Vec<CoverageEntry>, name: &str)
    ensures
        coverage_total(old(entries)@) <= coverage_total(final(entries)@),
        coverage_total(final(entries)@) <= coverage_total(old(entries)@) + 1,
        coverage_tracked(old(entries)@, final(entries)@, name@),
{
    let cs = chars_of(name);
    let d = before_dot(&cs);
    if d >= cs.len() {
        return ;
    }
    let category = crate::text::string_of(&take_chars(&cs, d));
    let function = crate::text::string_of(&skip_chars(&cs, d + 1));
    let n = entries.len();
    let mut k: usize = 0;
    proof {
        lemma_coverage_total_nonneg(entries@);
    }
    while k < n
        invariant
            0 <= k <= n,
            n == entries@.len(),
            entries@ == old(entries)@,
            cs@ == name@,
            d == before_dot_len(name@),
            d < name@.len(),
            category@ == name@.take(d as int),
            function@ == name@.skip(d + 1),
            forall|j: int| 0 <= j < k ==> entries@[j].category@ != category@,
        decreases n - k,
    {
        if entries[k].category == category {
            proof {
                lemma_cov_find_at(entries@, category@, k as int);
            }
            let mut entry = entries.remove(k);
            entry.functions.push(function);
            let ghost new_entry = entry;
            entries.insert(k, entry);
            proof {
                assert(entries@ =~= old(entries)@.update(k as int, new_entry));
                lemma_coverage_total_update(old(entries)@, k as int, new_entry);
                assert(new_entry.functions@ == old(entries)@[k as int].functions@.push(function));
                assert(new_entry.functions@.drop_last() =~= old(entries)@[k as int].functions@);
                assert(cov_find(old(entries)@, name@.take(before_dot_len(name@))) == k as int);
            }
            return ;
        }
        k = k + 1;
    }
    proof {
        lemma_cov_find_at(entries@, category@, n as int);
    }
    let entry = CoverageEntry { category, functions: vec![function] };
    let ghost prev = entries@;
    entries.push(entry);
    proof {
        assert(entries@.drop_last() =~= prev);
    }
}

/// The interactive state: the collected results, progress counters, panel
/// focus, list filter, search query, selection and coverage table.
pub struct App {
    pub results: Vec<TestResult>,
    pub current_test: usize,
    pub total_tests: usize,
    pub running: bool,
    pub done: bool,
    pub passed: usize,
    pub failed: usize,
    pub skipped: usize,
    pub active_panel: ActivePanel,
    pub filter_mode: FilterMode,
    pub list_state: ListCursor,
    pub filtered_indices: Vec<usize>,
    pub input_mode: InputMode,
    pub search_query: String,
    pub function_coverage: Vec<CoverageEntry>,
    pub comparison_mode: bool,
}

impl App {
    /// The state's internal consistency: counters count the results, the
    /// shown indices are the filter's, and the coverage table holds at
    /// most one record per result.
    pub open spec fn wf(self) -> bool {
        &&& self.current_test == self.results@.len()
        &&& self.passed == count_passed(self.results@)
        &&& self.failed == count_failed(self.results@)
        &&& self.skipped == count_skipped(self.results@)
        &&& self.filtered_indices@ == spec_filtered(
            self.results@,
            self.filter_mode,
            self.search_query@,
        )
        &&& coverage_total(self.function_coverage@) <= self.results@.len()
    }

    /// A fresh state expecting `total` results.
    pub fn new(total: usize) -> (r: Self)
        ensures
            r.wf(),
            r.results@.len() == 0,
            r.current_test == 0,
            r.total_tests == total,
            r.running,
            !r.done,
            r.passed == 0,
            r.failed == 0,
            r.skipped == 0,
            r.active_panel == ActivePanel::Results,
            r.filter_mode == FilterMode::All,
            r.list_state.sel is None,
            r.filtered_indices@.len() == 0,
            r.input_mode == InputMode::Normal,
            r.search_query@.len() == 0,
            r.function_coverage@.len() == 0,
            !r.comparison_mode,
    {
        let r = App {
            results: Vec::new(),
            current_test: 0,
            total_tests: total,
            running: true,
            done: false,
            passed: 0,
            failed: 0,
            skipped: 0,
            active_panel: ActivePanel::Results,
            filter_mode: FilterMode::All,
            list_state: ListCursor::new(),
            filtered_indices: Vec::new(),
            input_mode: InputMode::Normal,
            search_query: String::new(),
            function_coverage: Vec::new(),
            comparison_mode: false,
        };
        proof {
            assert(r.filtered_indices@ =~= spec_filtered(
                r.results@,
                r.filter_mode,
                r.search_query@,
            ));
        }
        r
    }

    /// Adds one result: counts it, records its coverage, refilters the
    /// list, and selects the newest entry when nothing was selected.
    pub fn add_result(&mut self, result: TestResult)
        requires
            old(self).wf(),
            old(self).results@.len() < usize::MAX,
        ensures
            final(self).wf(),
            final(self).results@ == old(self).results@.push(result),
            final(self).current_test == old(self).current_test + 1,
            final(self).passed == old(self).passed + (if result is Pass {
                1int
            } else {
                0int
            }),
            final(self).failed == old(self).failed + (if result is Fail {
                1int
            } else {
                0int
            }),
            final(self).skipped == old(self).skipped + (if result is Skip {
                1int
            } else {
                0int
            }),
            final(self).total_tests == old(self).total_tests,
            final(self).running == old(self).running,
            final(self).done == old(self).done,
            final(self).active_panel == old(self).active_panel,
            final(self).filter_mode == old(self).filter_mode,
            final(self).input_mode == old(self).input_mode,
            final(self).search_query@ == old(self).search_query@,
            final(self).comparison_mode == old(self).comparison_mode,
            final(self).filtered_indices@ == spec_filtered(
                final(self).results@,
                final(self).filter_mode,
                final(self).search_query@,
            ),
            coverage_tracked(
                old(self).function_coverage@,
                final(self).function_coverage@,
                spec_result_name(result),
            ),
            final(self).list_state.sel == (if old(self).list_state.sel is None && final(self).filtered_indices@.len() > 0 {
                Some(0usize)
            } else {
                old(self).list_state.sel
            }),
    {
        proof {
            crate::runner::lemma_counts_partition(self.results@);
        }
        if result.is_pass() {
            self.passed = self.passed + 1;
        } else if result.is_fail() {
            self.failed = self.failed + 1;
        } else {
            self.skipped = self.skipped + 1;
        }
        track_coverage(&mut self.function_coverage, result.name());
        let ghost prev_results = self.results@;
        self.results.push(result);
        proof {
            assert(self.results@.drop_last() =~= prev_results);
            assert(self.results@.last() == result);
        }
        self.current_test = self.current_test + 1;
        let filtered = compute_filtered(&self.results, self.filter_mode, &self.search_query);
        self.filtered_indices = filtered;
        let sel = self.list_state.selected();
        if sel.is_none() && self.filtered_indices.len() > 0 {
            self.list_state.select(Some(0));
        }
    }

    /// Marks the run as finished.
    pub fn mark_done(&mut self)
        ensures
            *final(self) == (App { running: false, done: true, ..*old(self) }),
    {
        self.running = false;
        self.done = true;
    }

    /// Enters search mode.
    pub fn enter_search_mode(&mut self)
        ensures
            *final(self) == (App { input_mode: InputMode::Search, ..*old(self) }),
    {
        self.input_mode = InputMode::Search;
    }

    /// Leaves search mode, clears the query, refilters, and selects the
    /// newest entry when any is shown.
    pub fn exit_search_mode(&mut self)
        requires
            old(self).wf(),
        ensures
            final(self).wf(),
            final(self).input_mode == InputMode::Normal,
            final(self).search_query@.len() == 0,
            final(self).results@ == old(self).results@,
            final(self).filter_mode == old(self).filter_mode,
            final(self).filtered_indices@ == spec_filtered(
                old(self).results@,
                old(self).filter_mode,
                Seq::<char>::empty(),
            ),
            final(self).list_state.sel == (if final(self).filtered_indices@.len() > 0 {
                Some(0usize)
            } else {
                old(self).list_state.sel
            }),
            final(self).running == old(self).running,
            final(self).done == old(self).done,
            final(self).current_test == old(self).current_test,
            final(self).total_tests == old(self).total_tests,
            final(self).passed == old(self).passed,
            final(self).failed == old(self).failed,
            final(self).skipped == old(self).skipped,
            final(self).active_panel == old(self).active_panel,
            final(self).comparison_mode == old(self).comparison_mode,
            final(self).function_coverage@ == old(self).function_coverage@,
    {
        self.input_mode = InputMode::Normal;
        self.search_query = String::new();
        let filtered = compute_filtered(&self.results, self.filter_mode, &self.search_query);
        self.filtered_indices = filtered;
        if self.filtered_indices.len() > 0 {
            self.list_state.select(Some(0));
        }
    }

    /// Appends one character to the query, refilters, and selects the
    /// newest entry or clears the selection when nothing is shown.
    pub fn search_push(&mut self, c: char)
        requires
            old(self).wf(),
        ensures
            final(self).wf(),
            final(self).search_query@ == old(self).search_query@.push(c),
            final(self).results@ == old(self).results@,
            final(self).filter_mode == old(self).filter_mode,
            final(self).input_mode == old(self).input_mode,
            final(self).filtered_indices@ == spec_filtered(
                old(self).results@,
                old(self).filter_mode,
                old(self).search_query@.push(c),
            ),
            final(self).list_state.sel == (if final(self).filtered_indices@.len() == 0 {
                None::<usize>
            } else {
                Some(0usize)
            }),
            final(self).running == old(self).running,
            final(self).done == old(self).done,
            final(self).current_test == old(self).current_test,
            final(self).total_tests == old(self).total_tests,
            final(self).passed == old(self).passed,
            final(self).failed == old(self).failed,
            final(self).skipped == old(self).skipped,
            final(self).active_panel == old(self).active_panel,
            final(self).comparison_mode == old(self).comparison_mode,
            final(self).function_coverage@ == old(self).function_coverage@,
    {
        crate::text::push_char(&mut self.search_query, c);
        let filtered = compute_filtered(&self.results, self.filter_mode, &self.search_query);
        self.filtered_indices = filtered;
        if self.filtered_indices.len() == 0 {
            self.list_state.select(None);
        } else {
            self.list_state.select(Some(0));
        }
    }

    /// Removes the last character of the query, refilters, and selects the
    /// newest entry when any is shown.
    pub fn search_pop(&mut self)
        requires
            old(self).wf(),
        ensures
            final(self).wf(),
            final(self).search_query@ == (if old(self).search_query@.len() == 0 {
                old(self).search_query@
            } else {
                old(self).search_query@.drop_last()
            }),
            final(self).results@ == old(self).results@,
            final(self).filter_mode == old(self).filter_mode,
            final(self).input_mode == old(self).input_mode,
            final(self).filtered_indices@ == spec_filtered(
                old(self).results@,
                old(self).filter_mode,
                final(self).search_query@,
            ),
            final(self).list_state.sel == (if final(self).filtered_indices@.len() > 0 {
                Some(0usize)
            } else {
                old(self).list_state.sel
            }),
            final(self).running == old(self).running,
            final(self).done == old(self).done,
            final(self).current_test == old(self).current_test,
            final(self).total_tests == old(self).total_tests,
            final(self).passed == old(self).passed,
            final(self).failed == old(self).failed,
            final(self).skipped == old(self).skipped,
            final(self).active_panel == old(self).active_panel,
            final(self).comparison_mode == old(self).comparison_mode,
            final(self).function_coverage@ == old(self).function_coverage@,
    {
        crate::text::pop_char(&mut self.search_query);
        let filtered = compute_filtered(&self.results, self.filter_mode, &self.search_query);
        self.filtered_indices = filtered;
        if self.filtered_indices.len() > 0 {
            self.list_state.select(Some(0));
        }
    }

    /// Applies a filter: a changed mode refilters and resets the selection
    /// to the newest entry, or clears it when nothing is shown.
    pub fn set_filter(&mut self, mode: FilterMode)
        requires
            old(self).wf(),
        ensures
            final(self).wf(),
            final(self).filter_mode == mode,
            final(self).results@ == old(self).results@,
            final(self).search_query@ == old(self).search_query@,
            final(self).input_mode == old(self).input_mode,
            final(self).filtered_indices@ == spec_filtered(
                old(self).results@,
                mode,
                old(self).search_query@,
            ),
            old(self).filter_mode == mode ==> final(self).list_state.sel == old(self).list_state.sel,
            old(self).filter_mode != mode ==> final(self).list_state.sel == (if final(self).filtered_indices@.len() == 0 {
                None::<usize>
            } else {
                Some(0usize)
            }),
            final(self).running == old(self).running,
            final(self).done == old(self).done,
            final(self).current_test == old(self).current_test,
            final(self).total_tests == old(self).total_tests,
            final(self).passed == old(self).passed,
            final(self).failed == old(self).failed,
            final(self).skipped == old(self).skipped,
            final(self).active_panel == old(self).active_panel,
            final(self).comparison_mode == old(self).comparison_mode,
            final(self).function_coverage@ == old(self).function_coverage@,
    {
        if self.filter_mode != mode {
            self.filter_mode = mode;
            let filtered = compute_filtered(&self.results, self.filter_mode, &self.search_query);
            self.filtered_indices = filtered;
            if self.filtered_indices.len() == 0 {
                self.list_state.select(None);
            } else {
                self.list_state.select(Some(0));
            }
        }
    }

    /// Moves the selection one entry up, towards the newest.
    pub fn select_previous(&mut self)
        ensures
            old(self).filtered_indices@.len() == 0 ==> *final(self) == *old(self),
            old(self).filtered_indices@.len() > 0 ==> *final(self) == (App {
                list_state: ListCursor {
                    sel: Some(
                        (match old(self).list_state.sel {
                            None => 0usize,
                            Some(i) => if i == 0 {
                                0usize
                            } else {
                                (i - 1) as usize
                            },
                        }),
                    ),
                },
                ..*old(self)
            }),
    {
        if self.filtered_indices.len() == 0 {
            return ;
        }
        let i = match self.list_state.selected() {
            None => 0,
            Some(i) => if i == 0 {
                0
            } else {
                i - 1
            },
        };
        self.list_state.select(Some(i));
    }

    /// Moves the selection one entry down, towards the oldest shown.
    pub fn select_next(&mut self)
        ensures
            old(self).filtered_indices@.len() == 0 ==> *final(self) == *old(self),
            old(self).filtered_indices@.len() > 0 ==> *final(self) == (App {
                list_state: ListCursor {
                    sel: Some(
                        (match old(self).list_state.sel {
                            None => 0usize,
                            Some(i) => if i + 1 < old(self).filtered_indices@.len() {
                                (i + 1) as usize
                            } else {
                                (old(self).filtered_indices@.len() - 1) as usize
                            },
                        }),
                    ),
                },
                ..*old(self)
            }),
    {
        if self.filtered_indices.len() == 0 {
            return ;
        }
        let max_idx = self.filtered_indices.len() - 1;
        let i = match self.list_state.selected() {
            None => 0,
            Some(i) => if i < max_idx {
                i + 1
            } else {
                max_idx
            },
        };
        self.list_state.select(Some(i));
    }

    /// The selected result, when the selection points at a shown entry.
    pub fn selected_result(&self) -> (r: Option<&TestResult>)
        ensures
            r is Some <==> (self.list_state.sel is Some && self.list_state.sel->0
                < self.filtered_indices@.len() && self.filtered_indices@[self.list_state.sel->0 as int]
                < self.results@.len()),
            r is Some ==> *r->0 == self.results@[self.filtered_indices@[self.list_state.sel->0 as int] as int],
    {
        match self.list_state.selected() {
            None => None,
            Some(i) => {
                if i < self.filtered_indices.len() {
                    let idx = self.filtered_indices[i];
                    if idx < self.results.len() {
                        Some(&self.results[idx])
                    } else {
                        None
                    }
                } else {
                    None
                }
            },
        }
    }

    /// The shown results, most recent first.
    pub fn filtered_results(&self) -> (r: Vec<&TestResult>)
        requires
            self.wf(),
        ensures
            r@.len() == self.filtered_indices@.len(),
            forall|k: int|
                0 <= k < r@.len() ==> *(#[trigger] r@[k])
                    == self.results@[self.filtered_indices@[k] as int],
    {
        proof {
            lemma_filtered_in_range(
                self.results@,
                self.filter_mode,
                self.search_query@,
                0,
                self.results@.len() as int,
            );
        }
        let n = self.filtered_indices.len();
        let mut out: Vec<&TestResult> = Vec::new();
        let mut k: usize = 0;
        while k < n
            invariant
                0 <= k <= n,
                n == self.filtered_indices@.len(),
                forall|j: int|
                    0 <= j < n ==> #[trigger] self.filtered_indices@[j] < self.results@.len(),
                out@.len() == k,
                forall|j: int|
                    0 <= j < k ==> *(#[trigger] out@[j])
                        == self.results@[self.filtered_indices@[j] as int],
            decreases n - k,
        {
            let idx = self.filtered_indices[k];
            out.push(&self.results[idx]);
            k = k + 1;
        }
        out
    }

    /// Gives the next panel the focus.
    pub fn next_panel(&mut self)
        ensures
            *final(self) == (App { active_panel: old(self).active_panel.spec_next(), ..*old(self) }),
    {
        self.active_panel = self.active_panel.next();
    }

    /// Gives the previous panel the focus.
    pub fn prev_panel(&mut self)
        ensures
            *final(self) == (App { active_panel: old(self).active_panel.spec_prev(), ..*old(self) }),
    {
        self.active_panel = self.active_panel.prev();
    }

    /// The run's progress, in whole percent, capped at one hundred.
    pub fn progress_percent(&self) -> (r: u16)
        ensures
            r as int == self.spec_progress(),
    {
        if self.total_tests > 0 {
            let scaled: u128 = (self.current_test as u128) * 100;
            let p = scaled / (self.total_tests as u128);
            if p > 100 {
                100
            } else {
                p as u16
            }
        } else {
            0
        }
    }

    /// The run's progress, in whole percent, capped at one hundred.
    pub open spec fn spec_progress(self) -> int {
        if self.total_tests > 0 {
            let p = (self.current_test * 100) / (self.total_tests as int);
            if p > 100 {
                100
            } else {
                p
            }
        } else {
            0
        }
    }

    /// Flips the side-by-side comparison mode.
    pub fn toggle_comparison_mode(&mut self)
        ensures
            *final(self) == (App { comparison_mode: !old(self).comparison_mode, ..*old(self) }),
    {
        self.comparison_mode = !self.comparison_mode;
    }

    /// How many function names the coverage table records.
    pub fn unique_functions_tested(&self) -> (r: usize)
        requires
            self.wf(),
        ensures
            r == coverage_total(self.function_coverage@),
    {
        let n = self.function_coverage.len();
        let bound = self.results.len();
        let mut total: usize = 0;
        let mut k: usize = 0;
        proof {
            assert(coverage_total(self.function_coverage@.take(0)) == 0);
        }
        while k < n
            invariant
                0 <= k <= n,
                n == self.function_coverage@.len(),
                bound == self.results@.len(),
                self.wf(),
                total == coverage_total(self.function_coverage@.take(k as int)),
            decreases n - k,
        {
            proof {
                assert(self.function_coverage@.take(k + 1).drop_last() =~= self.function_coverage@.take(k as int));
                assert(self.function_coverage@.take(k + 1).last() == self.function_coverage@[k as int]);
                lemma_coverage_total_split(self.function_coverage@, k as int);
                lemma_coverage_rest_nonneg(self.function_coverage@, k + 1);
                assert(coverage_rest(self.function_coverage@, k as int) == self.function_coverage@[k as int].functions@.len() + coverage_rest(self.function_coverage@, k + 1));
            }
            total = total + self.function_coverage[k].functions.len();
            k = k + 1;
        }
        proof {
            assert(self.function_coverage@.take(n as int) =~= self.function_coverage@);
        }
        total
    }

    /// The coverage table's entries, in first-seen category order.
    pub fn coverage_entries(&self) -> (r: &Vec<CoverageEntry>)
        ensures
            r@ == self.function_coverage@,
    {
        &self.function_coverage
    }
}

/// Splitting the coverage total at `k`: the prefix total plus the rest is
/// the whole, and both parts are nonnegative.
pub proof fn lemma_coverage_total_split(entries: Seq<CoverageEntry>, k: int)
    requires
        0 <= k <= entries.len(),
    ensures
        coverage_total(entries.take(k)) + coverage_rest(entries, k) == coverage_total(entries),
        0 <= coverage_total(entries.take(k)),
        0 <= coverage_rest(entries, k),
    decreases entries.len() - k,
{
    lemma_coverage_total_nonneg(entries.take(k));
    lemma_coverage_rest_nonneg(entries, k);
    if k == entries.len() {
        assert(entries.take(k) =~= entries);
    } else {
        lemma_coverage_total_split(entries, k + 1);
        assert(entries.take(k + 1).drop_last() =~= entries.take(k));
        assert(entries.take(k + 1).last() == entries[k]);
    }
}

/// The total of the entries from `k` on.
pub open spec fn coverage_rest(entries: Seq<CoverageEntry>, k: int) -> int
    decreases entries.len() - k,
{
    if k < 0 || k >= entries.len() {
        0
    } else {
        entries[k].functions@.len() + coverage_rest(entries, k + 1)
    }
}

pub proof fn lemma_coverage_rest_nonneg(entries: Seq<CoverageEntry>, k: int)
    ensures
        0 <= coverage_rest(entries, k),
    decreases entries.len() - k,
{
    if 0 <= k < entries.len() {
        lemma_coverage_rest_nonneg(entries, k + 1);
    }
}

/// The category names of the coverage table, each with its tested-function
/// count.
pub open spec fn coverage_pairs(entries: Seq<CoverageEntry>) -> Seq<(String, usize)> {
    entries.map_values(|e: CoverageEntry| (e.category, e.functions@.len() as usize))
}

impl App {
    /// The coverage table as category/count pairs, largest count first:
    /// the same pairs the table holds, reordered.
    pub fn coverage_by_category(&self) -> (r: Vec<(String, usize)>)
        ensures
            r@.to_multiset() == coverage_pairs(self.function_coverage@).to_multiset(),
            forall|i: int, j: int| 0 <= i < j < r@.len() ==> (#[trigger] r@[i]).1 >= (#[trigger] r@[j]).1,
    {
        let n = self.function_coverage.len();
        let mut pairs: Vec<(String, usize)> = Vec::new();
        let mut k: usize = 0;
        while k < n
            invariant
                0 <= k <= n,
                n == self.function_coverage@.len(),
                pairs@.len() == k,
                forall|j: int|
                    0 <= j < k ==> #[trigger] pairs@[j] == (
                        self.function_coverage@[j].category,
                        self.function_coverage@[j].functions@.len() as usize,
                    ),
            decreases n - k,
        {
            let e = &self.function_coverage[k];
            pairs.push((e.category.clone(), e.functions.len()));
            k = k + 1;
        }
        proof {
            assert(pairs@ =~= coverage_pairs(self.function_coverage@));
        }
        let ghost orig = pairs@;
        let mut out: Vec<(String, usize)> = Vec::new();
        proof {
            broadcast use vstd::seq_lib::group_to_multiset_ensures;

            assert(out@.to_multiset().add(pairs@.to_multiset()) =~= orig.to_multiset());
        }
        while pairs.len() > 0
            invariant
                out@.to_multiset().add(pairs@.to_multiset()) == orig.to_multiset(),
                forall|i: int, j: int|
                    0 <= i < j < out@.len() ==> (#[trigger] out@[i]).1 >= (#[trigger] out@[j]).1,
                forall|i: int, j: int|
                    0 <= i < out@.len() && 0 <= j < pairs@.len() ==> (#[trigger] out@[i]).1 >= (
                    #[trigger] pairs@[j]).1,
            decreases pairs@.len(),
        {
            let len = pairs.len();
            let mut m: usize = 0;
            let mut t: usize = 1;
            while t < len
                invariant
                    0 <= m < t <= len || (t <= 1 && m == 0),
                    m < len,
                    len == pairs@.len(),
                    forall|j: int| 0 <= j < t ==> (#[trigger] pairs@[j]).1 <= pairs@[m as int].1,
                decreases len - t,
            {
                if pairs[t].1 > pairs[m].1 {
                    m = t;
                }
                t = t + 1;
            }
            let ghost pairs0 = pairs@;
            let ghost out0 = out@;
            let p = pairs.remove(m);
            out.push(p);
            proof {
                broadcast use vstd::seq_lib::group_to_multiset_ensures;

                assert(p == pairs0[m as int]);
                assert(pairs@ == pairs0.remove(m as int));
                assert(pairs@.to_multiset() == pairs0.to_multiset().remove(p));
                assert(out@.to_multiset() == out0.to_multiset().insert(p));
                assert(pairs0.to_multiset().count(p) >= 1) by {
                    assert(pairs0.contains(p));
                }
                assert(out@.to_multiset().add(pairs@.to_multiset()) =~= orig.to_multiset());
                assert(forall|j: int|
                    0 <= j < pairs@.len() ==> #[trigger] pairs@[j] == (if j < m {
                        pairs0[j]
                    } else {
                        pairs0[j + 1]
                    }));
            }
        }
        out
    }
}

} // verus!
