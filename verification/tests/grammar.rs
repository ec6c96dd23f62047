use gtv::grammar::{
    parse_case_result, parse_num_tests, parse_run_name, parse_test_count, parse_test_suite,
};
use gtv::parser::{match_mark, strip_mark};

#[test]
fn iteration_header_counts() {
    assert_eq!(
        parse_test_count("Running 2 tests from 1 test suites."),
        Some((2, 1))
    );
    assert_eq!(
        parse_test_count("Running 240 tests from 12 test suites."),
        Some((240, 12))
    );
    assert_eq!(parse_test_count("Running 2 tests from 1 test suites"), None);
    assert_eq!(parse_test_count("Running tests from 1 test suites."), None);
    assert_eq!(parse_test_count("garbage"), None);
    assert_eq!(
        parse_test_count("Running 2 tests from 1 test suites. extra"),
        None
    );
}

#[test]
fn iteration_header_count_overflow_is_rejected() {
    assert_eq!(
        parse_test_count("Running 18446744073709551615 tests from 1 test suites."),
        Some((u64::MAX, 1))
    );
    assert_eq!(
        parse_test_count("Running 18446744073709551616 tests from 1 test suites."),
        None
    );
}

#[test]
fn suite_heading_forms() {
    assert_eq!(
        parse_test_suite("2 tests from Foo"),
        Some((2, String::from("Foo")))
    );
    assert_eq!(
        parse_test_suite("1 test from Foo"),
        Some((1, String::from("Foo")))
    );
    assert_eq!(
        parse_test_suite("3 tests from _Bar9"),
        Some((3, String::from("_Bar9")))
    );
    assert_eq!(
        parse_test_suite("3 tests from $Gen"),
        Some((3, String::from("$Gen")))
    );
    assert_eq!(parse_test_suite("Global test environment tear-down"), None);
    assert_eq!(parse_test_suite("2 tests from Foo (4 ms total)"), None);
    assert_eq!(parse_test_suite("2 tests from 9Foo"), None);
    assert_eq!(parse_test_suite("tests from Foo"), None);
}

#[test]
fn summary_body_forms() {
    assert_eq!(parse_num_tests("1 test."), Some(1));
    assert_eq!(parse_num_tests("12 tests."), Some(12));
    assert_eq!(parse_num_tests("12 tests"), None);
    assert_eq!(parse_num_tests("tests."), None);
    assert_eq!(parse_num_tests("12 tests. and more"), None);
}

#[test]
fn finished_case_body_forms() {
    assert_eq!(
        parse_case_result("Foo.Bar (3 ms)"),
        Some((String::from("Bar"), 3))
    );
    assert_eq!(
        parse_case_result("Deeply.Nested.Name (120 ms)"),
        Some((String::from("Name"), 120))
    );
    assert_eq!(
        parse_case_result("Foo.$dollar (0 ms)"),
        Some((String::from("$dollar"), 0))
    );
    assert_eq!(parse_case_result("NoDotName (3 ms)"), None);
    assert_eq!(parse_case_result("Foo.Bar (ms)"), None);
    assert_eq!(parse_case_result("Foo.Bar (3 ms"), None);
    assert_eq!(parse_case_result("Foo.Bar 3 ms)"), None);
    assert_eq!(parse_case_result("Foo.9bad (3 ms)"), None);
}

#[test]
fn run_line_case_name() {
    assert_eq!(parse_run_name("Foo.Bar"), "Bar");
    assert_eq!(parse_run_name("A.B.C"), "C");
    assert_eq!(parse_run_name("NoDotHere"), "NoDotHere");
}

#[test]
fn marks_match_by_exact_prefix_only() {
    assert!(match_mark("[==========] body", "[==========]"));
    assert!(!match_mark("[==========]", "[==========]"));
    assert!(!match_mark(" [==========] body", "[==========]"));
    assert!(!match_mark("[=========x] body", "[==========]"));
    assert!(match_mark("[----------] 2 tests from Foo", "[----------]"));
}

#[test]
fn body_is_trimmed_after_the_mark() {
    assert_eq!(strip_mark("[==========]   spaced body  \n"), "spaced body");
    assert_eq!(strip_mark("[==========] x"), "x");
    assert_eq!(strip_mark("[==========] \t \r\n"), "");
}
