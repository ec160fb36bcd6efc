use forge_e2e::num::Num;
use forge_e2e::types::TestResult;
use forge_e2e::ui::ActivePanel;
use forge_e2e::ui::App;
use forge_e2e::ui::Color;
use forge_e2e::ui::FilterMode;
use forge_e2e::ui::InputMode;
use forge_e2e::ui::category_color;

fn make_pass_result(name: &str) -> TestResult {
    TestResult::Pass {
        name: name.to_string(),
        formula: "=TEST()".to_string(),
        expected: Num::from_int(42),
        actual: Num::from_int(42),
    }
}

fn make_fail_result(name: &str) -> TestResult {
    TestResult::Fail {
        name: name.to_string(),
        formula: "=FAIL()".to_string(),
        expected: Num::from_int(42),
        actual: Some(Num::from_int(0)),
        error: None,
    }
}

fn make_skip_result(name: &str) -> TestResult {
    TestResult::Skip {
        name: name.to_string(),
        reason: "not implemented".to_string(),
    }
}

#[test]
fn tui_filter_mode_labels() {
    assert_eq!(FilterMode::All.label(), "All");
    assert_eq!(FilterMode::Passed.label(), "Passed");
    assert_eq!(FilterMode::Failed.label(), "Failed");
}

#[test]
fn tui_filter_mode_shortcuts() {
    assert_eq!(FilterMode::All.shortcut(), '1');
    assert_eq!(FilterMode::Passed.shortcut(), '2');
    assert_eq!(FilterMode::Failed.shortcut(), '3');
}

#[test]
fn tui_filter_mode_default() {
    assert_eq!(FilterMode::default(), FilterMode::All);
}

#[test]
fn tui_active_panel_next_cycles() {
    assert_eq!(ActivePanel::Results.next(), ActivePanel::Details);
    assert_eq!(ActivePanel::Details.next(), ActivePanel::Stats);
    assert_eq!(ActivePanel::Stats.next(), ActivePanel::Results);
}

#[test]
fn tui_active_panel_prev_cycles() {
    assert_eq!(ActivePanel::Results.prev(), ActivePanel::Stats);
    assert_eq!(ActivePanel::Details.prev(), ActivePanel::Results);
    assert_eq!(ActivePanel::Stats.prev(), ActivePanel::Details);
}

#[test]
fn tui_active_panel_default() {
    assert_eq!(ActivePanel::default(), ActivePanel::Results);
}

#[test]
fn tui_app_new_initializes_correctly() {
    let app = App::new(10);
    assert_eq!(app.total_tests, 10);
    assert_eq!(app.current_test, 0);
    assert_eq!(app.passed, 0);
    assert_eq!(app.failed, 0);
    assert_eq!(app.skipped, 0);
    assert!(!app.done);
    assert!(app.running);
    assert!(app.results.is_empty());
}

#[test]
fn tui_app_add_result_updates_counts() {
    let mut app = App::new(5);

    app.add_result(make_pass_result("test1"));
    assert_eq!(app.passed, 1);
    assert_eq!(app.failed, 0);
    assert_eq!(app.current_test, 1);

    app.add_result(make_fail_result("test2"));
    assert_eq!(app.passed, 1);
    assert_eq!(app.failed, 1);
    assert_eq!(app.current_test, 2);

    app.add_result(make_skip_result("test3"));
    assert_eq!(app.skipped, 1);
    assert_eq!(app.current_test, 3);
}

#[test]
fn tui_app_mark_done() {
    let mut app = App::new(1);
    assert!(!app.done);
    app.mark_done();
    assert!(app.done);
    assert!(!app.running);
}

#[test]
fn tui_app_progress_percent() {
    let mut app = App::new(4);
    assert_eq!(app.progress_percent(), 0);

    app.add_result(make_pass_result("test1"));
    assert_eq!(app.progress_percent(), 25);

    app.add_result(make_pass_result("test2"));
    assert_eq!(app.progress_percent(), 50);

    app.add_result(make_pass_result("test3"));
    assert_eq!(app.progress_percent(), 75);

    app.add_result(make_pass_result("test4"));
    assert_eq!(app.progress_percent(), 100);
}

#[test]
fn app_progress_percent_zero_total() {
    let app = App::new(0);
    assert_eq!(app.progress_percent(), 0);
}

#[test]
fn tui_app_filter_all() {
    let mut app = App::new(3);
    app.add_result(make_pass_result("test1"));
    app.add_result(make_fail_result("test2"));
    app.add_result(make_skip_result("test3"));

    app.set_filter(FilterMode::All);
    assert_eq!(app.filtered_results().len(), 3);
}

#[test]
fn tui_app_filter_passed() {
    let mut app = App::new(3);
    app.add_result(make_pass_result("test1"));
    app.add_result(make_fail_result("test2"));
    app.add_result(make_pass_result("test3"));

    app.set_filter(FilterMode::Passed);
    let filtered = app.filtered_results();
    assert_eq!(filtered.len(), 2);
    assert!(filtered.iter().all(|r| r.is_pass()));
}

#[test]
fn app_filter_failed() {
    let mut app = App::new(3);
    app.add_result(make_pass_result("test1"));
    app.add_result(make_fail_result("test2"));
    app.add_result(make_fail_result("test3"));

    app.set_filter(FilterMode::Failed);
    let filtered = app.filtered_results();
    assert_eq!(filtered.len(), 2);
    assert!(filtered.iter().all(|r| r.is_fail()));
}

#[test]
fn tui_app_navigation() {
    let mut app = App::new(3);
    app.add_result(make_pass_result("test1"));
    app.add_result(make_pass_result("test2"));
    app.add_result(make_pass_result("test3"));

    assert_eq!(app.list_state.selected(), Some(0));

    app.select_next();
    assert_eq!(app.list_state.selected(), Some(1));

    app.select_next();
    assert_eq!(app.list_state.selected(), Some(2));

    app.select_next();
    assert_eq!(app.list_state.selected(), Some(2));

    app.select_previous();
    assert_eq!(app.list_state.selected(), Some(1));

    app.select_previous();
    assert_eq!(app.list_state.selected(), Some(0));

    app.select_previous();
    assert_eq!(app.list_state.selected(), Some(0));
}

#[test]
fn app_navigation_empty() {
    let mut app = App::new(0);
    app.select_next();
    assert_eq!(app.list_state.selected(), None);
    app.select_previous();
    assert_eq!(app.list_state.selected(), None);
}

#[test]
fn tui_app_panel_switching() {
    let mut app = App::new(0);
    assert_eq!(app.active_panel, ActivePanel::Results);

    app.next_panel();
    assert_eq!(app.active_panel, ActivePanel::Details);

    app.next_panel();
    assert_eq!(app.active_panel, ActivePanel::Stats);

    app.next_panel();
    assert_eq!(app.active_panel, ActivePanel::Results);

    app.prev_panel();
    assert_eq!(app.active_panel, ActivePanel::Stats);
}

#[test]
fn app_selected_result() {
    let mut app = App::new(2);
    assert!(app.selected_result().is_none());

    app.add_result(make_pass_result("test1"));
    let selected = app.selected_result();
    assert!(selected.is_some());
    assert_eq!(selected.unwrap().name(), "test1");
}

#[test]
fn app_filter_resets_selection() {
    let mut app = App::new(3);
    app.add_result(make_pass_result("test1"));
    app.add_result(make_fail_result("test2"));
    app.add_result(make_pass_result("test3"));

    app.select_next();
    app.select_next();

    app.set_filter(FilterMode::Passed);
    assert_eq!(app.list_state.selected(), Some(0));
}

#[test]
fn app_filter_empty_clears_selection() {
    let mut app = App::new(2);
    app.add_result(make_pass_result("test1"));
    app.add_result(make_pass_result("test2"));

    app.set_filter(FilterMode::Failed);
    assert_eq!(app.list_state.selected(), None);
    assert!(app.filtered_results().is_empty());
}

#[test]
fn app_search_mode_enter_exit() {
    let mut app = App::new(0);
    assert_eq!(app.input_mode, InputMode::Normal);

    app.enter_search_mode();
    assert_eq!(app.input_mode, InputMode::Search);

    app.exit_search_mode();
    assert_eq!(app.input_mode, InputMode::Normal);
}

#[test]
fn app_search_push_pop() {
    let mut app = App::new(0);
    app.enter_search_mode();

    app.search_push('t');
    assert_eq!(app.search_query, "t");

    app.search_push('e');
    app.search_push('s');
    app.search_push('t');
    assert_eq!(app.search_query, "test");

    app.search_pop();
    assert_eq!(app.search_query, "tes");
}

#[test]
fn app_search_filters_results() {
    let mut app = App::new(3);
    app.add_result(make_pass_result("math.ABS"));
    app.add_result(make_pass_result("text.CONCAT"));
    app.add_result(make_pass_result("math.SQRT"));

    assert_eq!(app.filtered_results().len(), 3);

    app.search_push('m');
    app.search_push('a');
    app.search_push('t');
    app.search_push('h');

    let filtered = app.filtered_results();
    assert_eq!(filtered.len(), 2);
    assert!(filtered.iter().all(|r| r.name().contains("math")));
}

#[test]
fn app_search_case_insensitive() {
    let mut app = App::new(2);
    app.add_result(make_pass_result("Math.ABS"));
    app.add_result(make_pass_result("text.concat"));

    app.search_push('M');
    app.search_push('A');
    app.search_push('T');
    app.search_push('H');

    assert_eq!(app.filtered_results().len(), 1);
}

#[test]
fn app_search_exit_clears_query() {
    let mut app = App::new(2);
    app.add_result(make_pass_result("test1"));
    app.add_result(make_pass_result("test2"));

    app.enter_search_mode();
    app.search_push('1');
    assert_eq!(app.filtered_results().len(), 1);

    app.exit_search_mode();
    assert!(app.search_query.is_empty());
    assert_eq!(app.filtered_results().len(), 2);
}

#[test]
fn tui_category_colors() {
    assert_eq!(category_color("math.ABS"), Color::Blue);
    assert_eq!(category_color("aggregation.SUM"), Color::Blue);
    assert_eq!(category_color("text.CONCAT"), Color::Yellow);
    assert_eq!(category_color("date.TODAY"), Color::Magenta);
    assert_eq!(category_color("logical.IF"), Color::Cyan);
    assert_eq!(category_color("lookup.CHOOSE"), Color::Green);
    assert_eq!(category_color("unknown.TEST"), Color::White);
}

#[test]
fn tui_input_mode_default() {
    assert_eq!(InputMode::default(), InputMode::Normal);
}

#[test]
fn state_filter_mode_labels() {
    assert_eq!(FilterMode::All.label(), "All");
    assert_eq!(FilterMode::Passed.label(), "Passed");
    assert_eq!(FilterMode::Failed.label(), "Failed");
}

#[test]
fn state_filter_mode_shortcuts() {
    assert_eq!(FilterMode::All.shortcut(), '1');
    assert_eq!(FilterMode::Passed.shortcut(), '2');
    assert_eq!(FilterMode::Failed.shortcut(), '3');
}

#[test]
fn state_filter_mode_default() {
    assert_eq!(FilterMode::default(), FilterMode::All);
}

#[test]
fn state_active_panel_next_cycles() {
    assert_eq!(ActivePanel::Results.next(), ActivePanel::Details);
    assert_eq!(ActivePanel::Details.next(), ActivePanel::Stats);
    assert_eq!(ActivePanel::Stats.next(), ActivePanel::Results);
}

#[test]
fn state_active_panel_prev_cycles() {
    assert_eq!(ActivePanel::Results.prev(), ActivePanel::Stats);
    assert_eq!(ActivePanel::Details.prev(), ActivePanel::Results);
    assert_eq!(ActivePanel::Stats.prev(), ActivePanel::Details);
}

#[test]
fn state_active_panel_default() {
    assert_eq!(ActivePanel::default(), ActivePanel::Results);
}

#[test]
fn state_input_mode_default() {
    assert_eq!(InputMode::default(), InputMode::Normal);
}

#[test]
fn state_category_colors() {
    assert_eq!(category_color("math.ABS"), Color::Blue);
    assert_eq!(category_color("aggregation.SUM"), Color::Blue);
    assert_eq!(category_color("text.CONCAT"), Color::Yellow);
    assert_eq!(category_color("date.TODAY"), Color::Magenta);
    assert_eq!(category_color("logical.IF"), Color::Cyan);
    assert_eq!(category_color("lookup.CHOOSE"), Color::Green);
    assert_eq!(category_color("unknown.TEST"), Color::White);
}

#[test]
fn app_app_new_initializes_correctly() {
    let app = App::new(10);
    assert_eq!(app.total_tests, 10);
    assert_eq!(app.current_test, 0);
    assert!(!app.done);
}

#[test]
fn app_app_add_result_updates_counts() {
    let mut app = App::new(5);
    app.add_result(make_pass_result("test1"));
    assert_eq!(app.passed, 1);
    app.add_result(make_fail_result("test2"));
    assert_eq!(app.failed, 1);
    app.add_result(make_skip_result("test3"));
    assert_eq!(app.skipped, 1);
}

#[test]
fn app_app_progress_percent() {
    let mut app = App::new(4);
    assert_eq!(app.progress_percent(), 0);
    app.add_result(make_pass_result("test1"));
    assert_eq!(app.progress_percent(), 25);
}

#[test]
fn app_app_filter_all() {
    let mut app = App::new(3);
    app.add_result(make_pass_result("t1"));
    app.add_result(make_fail_result("t2"));
    app.set_filter(FilterMode::All);
    assert_eq!(app.filtered_results().len(), 2);
}

#[test]
fn app_app_filter_passed() {
    let mut app = App::new(2);
    app.add_result(make_pass_result("t1"));
    app.add_result(make_fail_result("t2"));
    app.set_filter(FilterMode::Passed);
    assert_eq!(app.filtered_results().len(), 1);
}

#[test]
fn app_app_navigation() {
    let mut app = App::new(3);
    app.add_result(make_pass_result("t1"));
    app.add_result(make_pass_result("t2"));
    app.select_next();
    assert_eq!(app.list_state.selected(), Some(1));
    app.select_previous();
    assert_eq!(app.list_state.selected(), Some(0));
}

#[test]
fn app_app_panel_switching() {
    let mut app = App::new(0);
    app.next_panel();
    assert_eq!(app.active_panel, ActivePanel::Details);
}

#[test]
fn app_search_mode() {
    let mut app = App::new(2);
    app.add_result(make_pass_result("math.ABS"));
    app.add_result(make_pass_result("text.CONCAT"));
    app.enter_search_mode();
    app.search_push('m');
    assert_eq!(app.filtered_results().len(), 1);
    app.exit_search_mode();
    assert_eq!(app.filtered_results().len(), 2);
}

#[test]
fn app_coverage() {
    let mut app = App::new(3);
    app.add_result(make_pass_result("math.ABS"));
    app.add_result(make_pass_result("math.SQRT"));
    app.add_result(make_pass_result("text.CONCAT"));
    assert_eq!(app.unique_functions_tested(), 3);
}

#[test]
fn app_comparison_mode() {
    let mut app = App::new(0);
    assert!(!app.comparison_mode);
    app.toggle_comparison_mode();
    assert!(app.comparison_mode);
}

#[test]
fn app_coverage_groups_by_category() {
    let mut app = App::new(4);
    app.add_result(make_pass_result("math.ABS"));
    app.add_result(make_pass_result("math.SQRT"));
    app.add_result(make_pass_result("text.CONCAT"));
    app.add_result(make_pass_result("undotted"));
    let entries = app.coverage_entries();
    assert_eq!(entries.len(), 2);
    assert_eq!(entries[0].category, "math");
    assert_eq!(entries[0].functions, vec!["ABS".to_string(), "SQRT".to_string()]);
    assert_eq!(entries[1].category, "text");
    assert_eq!(entries[1].functions, vec!["CONCAT".to_string()]);
    assert_eq!(app.unique_functions_tested(), 3);
}

#[test]
fn app_coverage_by_category_sorts_descending() {
    let mut app = App::new(5);
    app.add_result(make_pass_result("text.CONCAT"));
    app.add_result(make_pass_result("math.ABS"));
    app.add_result(make_pass_result("math.SQRT"));
    app.add_result(make_pass_result("math.SUM"));
    app.add_result(make_pass_result("date.TODAY"));
    let cats = app.coverage_by_category();
    assert_eq!(cats.len(), 3);
    assert_eq!(cats[0], ("math".to_string(), 3));
    assert_eq!(cats[1].1, 1);
    assert_eq!(cats[2].1, 1);
    let names: Vec<&str> = cats.iter().map(|(c, _)| c.as_str()).collect();
    assert!(names.contains(&"text"));
    assert!(names.contains(&"date"));
}
