use gtv::parser::{extract_from_text, ParserEvent};
use gtv::ui::{Config, TestCase, TestState, TestSuite, Ui};

fn config(only_failed: bool) -> Config {
    Config { enable_ui: true, only_failed }
}

#[test]
fn new_ui_is_empty() {
    let ui = Ui::new(config(false));
    assert_eq!(ui.iteration.num_cases, 0);
    assert_eq!(ui.iteration.num_suites, 0);
    assert!(ui.iteration.suites.is_empty());
}

#[test]
fn init_iteration_records_counts() {
    let mut ui = Ui::new(config(false));
    ui.init_iteration(7, 3);
    assert_eq!(ui.iteration.num_cases, 7);
    assert_eq!(ui.iteration.num_suites, 3);
}

#[test]
fn add_suite_and_case_build_the_tree() {
    let mut ui = Ui::new(config(false));
    ui.add_suite(TestSuite::new(String::from("Foo")));
    ui.add_case(TestCase::new(String::from("Bar"), 3, TestState::Passed));
    ui.add_case(TestCase::new(
        String::from("Baz"),
        1,
        TestState::Failed(String::new()),
    ));
    assert_eq!(ui.iteration.suites.len(), 1);
    let suite = &ui.iteration.suites[0];
    assert_eq!(suite.name, "Foo");
    assert_eq!(suite.cases.len(), 2);
    assert_eq!(suite.cases[0].name, "Bar");
    assert_eq!(suite.cases[0].duration, 3);
    assert_eq!(suite.cases[0].state, TestState::Passed);
    assert_eq!(suite.cases[1].name, "Baz");
    assert_eq!(suite.cases[1].state, TestState::Failed(String::new()));
}

#[test]
fn cases_go_to_the_most_recent_suite() {
    let mut ui = Ui::new(config(false));
    ui.add_suite(TestSuite::new(String::from("First")));
    ui.add_suite(TestSuite::new(String::from("Second")));
    ui.add_case(TestCase::new(String::from("Only"), 2, TestState::Passed));
    assert_eq!(ui.iteration.suites[0].cases.len(), 0);
    assert_eq!(ui.iteration.suites[1].cases.len(), 1);
}

#[test]
fn apply_event_builds_the_model_from_a_stream() {
    let input = "[==========] Running 2 tests from 1 test suites.\n[----------] Global test environment set-up.\n[----------] 2 tests from Foo\n[ RUN      ] Foo.Bar\n[       OK ] Foo.Bar (3 ms)\n[ RUN      ] Foo.Baz\n[  FAILED  ] Foo.Baz (1 ms)\n";
    let mut ui = Ui::new(config(false));
    let mut done = false;
    for event in extract_from_text(input) {
        assert!(!done);
        done = ui.apply_event(event);
    }
    assert!(done);
    assert_eq!(ui.iteration.num_cases, 2);
    assert_eq!(ui.iteration.num_suites, 1);
    assert_eq!(ui.iteration.suites.len(), 1);
    let suite = &ui.iteration.suites[0];
    assert_eq!(suite.name, "Foo");
    assert_eq!(suite.cases.len(), 2);
    assert_eq!(suite.cases[0].state, TestState::Passed);
    assert_eq!(suite.cases[1].state, TestState::Failed(String::new()));
}

#[test]
fn apply_event_is_done_only_on_the_sentinel() {
    let mut ui = Ui::new(config(false));
    assert!(!ui.apply_event(ParserEvent::IterationStarted { case_count: 1, suite_count: 1 }));
    assert!(!ui.apply_event(ParserEvent::RunSummary { passed_count: 1 }));
    assert!(!ui.apply_event(ParserEvent::CaseStarted { name: String::from("x") }));
    assert!(ui.apply_event(ParserEvent::StreamEnded));
}

#[test]
fn visible_case_indices_show_everything_by_default() {
    let mut suite = TestSuite::new(String::from("Foo"));
    suite.cases.push(TestCase::new(String::from("a"), 1, TestState::Passed));
    suite.cases.push(TestCase::new(
        String::from("b"),
        2,
        TestState::Failed(String::new()),
    ));
    suite.cases.push(TestCase::new(String::from("c"), 3, TestState::Passed));
    assert_eq!(suite.visible_case_indices(false), vec![0, 1, 2]);
}

#[test]
fn visible_case_indices_can_keep_only_failures() {
    let mut suite = TestSuite::new(String::from("Foo"));
    suite.cases.push(TestCase::new(String::from("a"), 1, TestState::Passed));
    suite.cases.push(TestCase::new(
        String::from("b"),
        2,
        TestState::Failed(String::new()),
    ));
    suite.cases.push(TestCase::new(String::from("c"), 3, TestState::Passed));
    suite.cases.push(TestCase::new(
        String::from("d"),
        4,
        TestState::Failed(String::from("boom")),
    ));
    assert_eq!(suite.visible_case_indices(true), vec![1, 3]);
    let empty = TestSuite::new(String::from("Empty"));
    assert_eq!(empty.visible_case_indices(true), Vec::<usize>::new());
}
