use gtv::parser::{extract_from_text, parse, split_lines, ParseError, Parser, ParserEvent};

const SCENARIO_A: &str = "[==========] Running 2 tests from 1 test suites.\n[----------] Global test environment set-up.\n[----------] 2 tests from Foo\n[ RUN      ] Foo.Bar\n[       OK ] Foo.Bar (3 ms)\n[ RUN      ] Foo.Baz\n[  FAILED  ] Foo.Baz (1 ms)\n[----------] 2 tests from Foo (4 ms total)\n[----------] Global test environment tear-down\n[==========] 2 tests from 1 test suites ran.\n[  PASSED  ] 1 test.\n";

fn scenario_a_events() -> Vec<ParserEvent> {
    vec![
        ParserEvent::IterationStarted { case_count: 2, suite_count: 1 },
        ParserEvent::SuiteStarted { case_count: 2, name: String::from("Foo") },
        ParserEvent::CaseStarted { name: String::from("Bar") },
        ParserEvent::CasePassed { name: String::from("Bar"), duration_ms: 3 },
        ParserEvent::CaseStarted { name: String::from("Baz") },
        ParserEvent::CaseFailed {
            name: String::from("Baz"),
            duration_ms: 1,
            reason: String::new(),
        },
        ParserEvent::RunSummary { passed_count: 1 },
        ParserEvent::StreamEnded,
    ]
}

#[test]
fn full_run_emits_expected_events() {
    assert_eq!(extract_from_text(SCENARIO_A), scenario_a_events());
}

#[test]
fn unparseable_iteration_header_aborts_with_sentinel_only() {
    let events = extract_from_text("[==========] garbage\n");
    assert_eq!(events, vec![ParserEvent::StreamEnded]);
}

#[test]
fn stray_log_line_between_run_and_ok_is_ignored() {
    let input = "[==========] Running 1 tests from 1 test suites.\n[----------] Global test environment set-up.\n[----------] 1 tests from Foo\n[ RUN      ] Foo.Bar\nsome stray log output\n[       OK ] Foo.Bar (3 ms)\n";
    let events = extract_from_text(input);
    assert_eq!(
        events,
        vec![
            ParserEvent::IterationStarted { case_count: 1, suite_count: 1 },
            ParserEvent::SuiteStarted { case_count: 1, name: String::from("Foo") },
            ParserEvent::CaseStarted { name: String::from("Bar") },
            ParserEvent::CasePassed { name: String::from("Bar"), duration_ms: 3 },
            ParserEvent::StreamEnded,
        ]
    );
}

#[test]
fn same_input_twice_gives_identical_event_sequences() {
    let first = extract_from_text(SCENARIO_A);
    let second = extract_from_text(SCENARIO_A);
    assert_eq!(first, second);
}

#[test]
fn sentinel_is_emitted_exactly_once_and_last() {
    for input in [
        SCENARIO_A,
        "",
        "[==========] garbage\n",
        "no marks at all\njust noise\n",
    ] {
        let events = extract_from_text(input);
        let count = events
            .iter()
            .filter(|e| matches!(e, ParserEvent::StreamEnded))
            .count();
        assert_eq!(count, 1);
        assert_eq!(events.last(), Some(&ParserEvent::StreamEnded));
    }
}

#[test]
fn empty_input_yields_only_the_sentinel() {
    assert_eq!(extract_from_text(""), vec![ParserEvent::StreamEnded]);
}

#[test]
fn split_keeps_line_breaks_and_partial_final_line() {
    let lines = split_lines("a\nb\nc");
    assert_eq!(lines, vec!["a\n".to_string(), "b\n".to_string(), "c".to_string()]);
    let lines = split_lines("a\nb\n");
    assert_eq!(lines, vec!["a\n".to_string(), "b\n".to_string()]);
    assert_eq!(split_lines(""), Vec::<String>::new());
}

#[test]
fn partial_final_line_is_handled_identically_across_runs() {
    let input = "[==========] Running 1 tests from 1 test suites.\n[----------] Global test environment set-up.\n[----------] 1 tests from Foo\n[ RUN      ] Foo.Bar";
    let first = extract_from_text(input);
    let second = extract_from_text(input);
    assert_eq!(first, second);
    assert_eq!(
        first,
        vec![
            ParserEvent::IterationStarted { case_count: 1, suite_count: 1 },
            ParserEvent::SuiteStarted { case_count: 1, name: String::from("Foo") },
            ParserEvent::CaseStarted { name: String::from("Bar") },
            ParserEvent::StreamEnded,
        ]
    );
}

#[test]
fn process_line_reports_the_structural_failure() {
    let mut parser = Parser::new();
    let r = parser.process_line("[==========] garbage\n");
    assert_eq!(r, Err(ParseError::BadIterationHeader));
}

#[test]
fn process_line_ignores_unmarked_lines_when_inactive() {
    let mut parser = Parser::new();
    assert_eq!(parser.process_line("hello\n"), Ok(None));
    let r = parser.process_line("[==========] Running 2 tests from 1 test suites.\n");
    assert_eq!(
        r,
        Ok(Some(ParserEvent::IterationStarted { case_count: 2, suite_count: 1 }))
    );
}

#[test]
fn finalize_returns_the_sentinel() {
    let mut parser = Parser::new();
    assert_eq!(parser.finalize(), ParserEvent::StreamEnded);
}

#[test]
fn parse_runs_over_explicit_lines() {
    let lines: Vec<String> = SCENARIO_A.split_inclusive('\n').map(String::from).collect();
    assert_eq!(parse(&lines), scenario_a_events());
}

#[test]
fn oversized_iteration_count_is_a_structural_failure() {
    let events =
        extract_from_text("[==========] Running 99999999999999999999 tests from 1 test suites.\n");
    assert_eq!(events, vec![ParserEvent::StreamEnded]);
}

#[test]
fn teardown_suite_line_is_not_a_suite_start() {
    let input = "[==========] Running 0 tests from 0 test suites.\n[----------] Global test environment set-up.\n[----------] Global test environment tear-down\n[==========] 0 tests from 0 test suites ran.\n[  PASSED  ] 0 tests.\n";
    let events = extract_from_text(input);
    assert_eq!(
        events,
        vec![
            ParserEvent::IterationStarted { case_count: 0, suite_count: 0 },
            ParserEvent::RunSummary { passed_count: 0 },
            ParserEvent::StreamEnded,
        ]
    );
}

#[test]
fn mark_must_be_a_strict_prefix() {
    // A line no longer than the mark carries no mark at all, so the
    // extractor stays inactive; with its line break kept, a bare mark does
    // exceed the mark width and its empty body is a structural failure.
    let mut parser = Parser::new();
    assert_eq!(parser.process_line("[==========]"), Ok(None));
    assert_eq!(
        parser.process_line("[==========]\n"),
        Err(ParseError::BadIterationHeader)
    );
}
