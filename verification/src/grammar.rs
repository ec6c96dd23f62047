//! The body grammars of the protocol: what may follow a mark, after trimming.
//!
//! Each grammar is a spec function over the trimmed body, and each executable
//! parser is proved to return exactly what its grammar says.  A numeric field
//! counts as parsed only when its value fits in a `u64`; a larger count is
//! treated as a body that does not match.
use crate::text::{
    digit_run_end, digit_run_start, digits_val, ident_run_start, is_ident_range, is_ident_start,
    lemma_digit_run_end_bounds, lemma_digit_run_start_bounds, lemma_ident_run_start_bounds,
    lit_at, match_lit_at, parse_u64_range, scan_digits_end, scan_digits_start,
    scan_ident_run_start, spec_is_digit, spec_is_ident, spec_is_ident_continue,
    spec_is_ident_start,
};
use vstd::prelude::*;
use vstd::string::*;

verus! {

/// The largest count or duration a parsed body may carry.
pub open spec fn fits_u64(n: nat) -> bool {
    n <= u64::MAX
}

/// `Running <N> tests from <M> test suites.` — the iteration header.
pub open spec fn iteration_counts_raw(s: Seq<char>) -> Option<(nat, nat)> {
    let p = "Running "@;
    let mid = " tests from "@;
    let suf = " test suites."@;
    if !lit_at(s, 0, p) {
        None
    } else {
        let i0 = p.len() as int;
        let j0 = digit_run_end(s, i0);
        if j0 == i0 {
            None
        } else if !lit_at(s, j0, mid) {
            None
        } else {
            let i1 = j0 + mid.len();
            let j1 = digit_run_end(s, i1);
            if j1 == i1 {
                None
            } else if lit_at(s, j1, suf) && j1 + suf.len() == s.len() {
                Some((digits_val(s.subrange(i0, j0)), digits_val(s.subrange(i1, j1))))
            } else {
                None
            }
        }
    }
}

/// The iteration header with both counts fitting in a `u64`.
pub open spec fn iteration_counts(s: Seq<char>) -> Option<(u64, u64)> {
    match iteration_counts_raw(s) {
        Some((n, m)) => if fits_u64(n) && fits_u64(m) {
            Some((n as u64, m as u64))
        } else {
            None
        },
        None => None,
    }
}

/// `<N> test(s) from <SUITE_NAME>` — the suite heading.
pub open spec fn suite_heading_raw(s: Seq<char>) -> Option<(nat, Seq<char>)> {
    let plural = " tests from "@;
    let singular = " test from "@;
    let j0 = digit_run_end(s, 0);
    if j0 == 0 {
        None
    } else if lit_at(s, j0, plural) {
        let i1 = j0 + plural.len();
        if spec_is_ident(s.subrange(i1, s.len() as int)) {
            Some((digits_val(s.subrange(0, j0)), s.subrange(i1, s.len() as int)))
        } else {
            None
        }
    } else if lit_at(s, j0, singular) {
        let i1 = j0 + singular.len();
        if spec_is_ident(s.subrange(i1, s.len() as int)) {
            Some((digits_val(s.subrange(0, j0)), s.subrange(i1, s.len() as int)))
        } else {
            None
        }
    } else {
        None
    }
}

/// The suite heading with its count fitting in a `u64`.
pub open spec fn suite_heading(s: Seq<char>) -> Option<(u64, Seq<char>)> {
    match suite_heading_raw(s) {
        Some((n, name)) => if fits_u64(n) {
            Some((n as u64, name))
        } else {
            None
        },
        None => None,
    }
}

/// `<N> test(s).` — the run summary body.
pub open spec fn summary_count_raw(s: Seq<char>) -> Option<nat> {
    let plural = " tests."@;
    let singular = " test."@;
    let j0 = digit_run_end(s, 0);
    if j0 == 0 {
        None
    } else if lit_at(s, j0, plural) && j0 + plural.len() == s.len() {
        Some(digits_val(s.subrange(0, j0)))
    } else if lit_at(s, j0, singular) && j0 + singular.len() == s.len() {
        Some(digits_val(s.subrange(0, j0)))
    } else {
        None
    }
}

/// The run summary count when it fits in a `u64`.
pub open spec fn summary_count(s: Seq<char>) -> Option<u64> {
    match summary_count_raw(s) {
        Some(n) => if fits_u64(n) {
            Some(n as u64)
        } else {
            None
        },
        None => None,
    }
}

/// The case identifier that ends at position `e` and is preceded by a dot:
/// the `<CASE_NAME>` of `<...>.<CASE_NAME>`.
pub open spec fn name_before(s: Seq<char>, e: int) -> Option<Seq<char>>
    recommends
        0 <= e <= s.len(),
{
    let b = ident_run_start(s, e);
    if b < e && spec_is_ident_start(s[b]) && b >= 1 && s[b - 1] == '.' {
        Some(s.subrange(b, e))
    } else if b >= 1 && s[b - 1] == '$' && b >= 2 && s[b - 2] == '.' {
        Some(s.subrange(b - 1, e))
    } else {
        None
    }
}

/// `<...>.<CASE_NAME>` — the body of a case-start line, when it parses.
pub open spec fn case_title(s: Seq<char>) -> Option<Seq<char>> {
    name_before(s, s.len() as int)
}

/// The name a case-start line reports: its `<CASE_NAME>` when the body has
/// the qualified shape, otherwise the whole trimmed body.
pub open spec fn run_case_name(s: Seq<char>) -> Seq<char> {
    match case_title(s) {
        Some(name) => name,
        None => s,
    }
}

/// `<...>.<CASE_NAME> (<D> ms)` — the body of a finished-case line.
pub open spec fn case_result_raw(s: Seq<char>) -> Option<(Seq<char>, nat)> {
    let suf = " ms)"@;
    let mid = " ("@;
    if s.len() < suf.len() || !lit_at(s, s.len() - suf.len(), suf) {
        None
    } else {
        let dend = s.len() - suf.len();
        let dstart = digit_run_start(s, dend);
        if dstart == dend {
            None
        } else if dstart < mid.len() || !lit_at(s, dstart - mid.len(), mid) {
            None
        } else {
            match name_before(s, dstart - mid.len()) {
                Some(name) => Some((name, digits_val(s.subrange(dstart, dend)))),
                None => None,
            }
        }
    }
}

/// The finished-case body with its duration fitting in a `u64`.
pub open spec fn case_result(s: Seq<char>) -> Option<(Seq<char>, u64)> {
    match case_result_raw(s) {
        Some((name, d)) => if fits_u64(d) {
            Some((name, d as u64))
        } else {
            None
        },
        None => None,
    }
}

/// A body the finished-case grammar accepts really has the documented
/// shape: an arbitrary qualifier, a dot, the case identifier, and the
/// parenthesised duration in milliseconds — and the parsed fields are read
/// off that decomposition.
pub proof fn lemma_case_result_shape(s: Seq<char>, name: Seq<char>, d: nat)
    requires
        case_result_raw(s) == Some((name, d)),
    ensures
        spec_is_ident(name),
        exists|p: int|
            {
                &&& 0 <= p
                &&& p + 1 + name.len() + 2 + 1 <= s.len() - 4
                &&& s == (#[trigger] s.subrange(0, p)) + seq!['.'] + name + " ("@ + s.subrange(
                    p + 1 + name.len() + 2,
                    s.len() - 4,
                ) + " ms)"@
                &&& (forall|k: int|
                    p + 1 + name.len() + 2 <= k < s.len() - 4 ==> spec_is_digit(#[trigger] s[k]))
                &&& digits_val(s.subrange(p + 1 + name.len() + 2, s.len() - 4)) == d
            },
{
    reveal_strlit(" (");
    reveal_strlit(" ms)");
    let suf = " ms)"@;
    let mid = " ("@;
    let dend = s.len() - suf.len();
    let dstart = digit_run_start(s, dend);
    let e = dstart - mid.len();
    lemma_digit_run_start_bounds(s, dend as int);
    let b = ident_run_start(s, e);
    lemma_ident_run_start_bounds(s, e);
    assert forall|t: int| 0 <= t < 2 implies s[e + t] == mid[t] by {
        assert(s.subrange(e, e + 2)[t] == s[e + t]);
    }
    assert forall|t: int| 0 <= t < 4 implies s[dend + t] == suf[t] by {
        assert(s.subrange(dend as int, dend + 4)[t] == s[dend + t]);
    }
    if b < e && spec_is_ident_start(s[b]) && b >= 1 && s[b - 1] == '.' {
        let p = b - 1;
        assert forall|t: int| 1 <= t < name.len() implies spec_is_ident_continue(
            #[trigger] name[t],
        ) by {
            assert(name[t] == s[b + t]);
        }
        assert(s == s.subrange(0, p) + seq!['.'] + name + " ("@ + s.subrange(
            p + 1 + name.len() + 2,
            s.len() - 4,
        ) + " ms)"@) by {
            assert(s =~= s.subrange(0, p) + seq!['.'] + name + " ("@ + s.subrange(
                p + 1 + name.len() + 2,
                s.len() - 4,
            ) + " ms)"@);
        }
    } else {
        let p = b - 2;
        assert forall|t: int| 1 <= t < name.len() implies spec_is_ident_continue(
            #[trigger] name[t],
        ) by {
            assert(name[t] == s[b - 1 + t]);
        }
        assert(s == s.subrange(0, p) + seq!['.'] + name + " ("@ + s.subrange(
            p + 1 + name.len() + 2,
            s.len() - 4,
        ) + " ms)"@) by {
            assert(s =~= s.subrange(0, p) + seq!['.'] + name + " ("@ + s.subrange(
                p + 1 + name.len() + 2,
                s.len() - 4,
            ) + " ms)"@);
        }
    }
}

/// Reads the iteration header's two counts out of a trimmed body.
pub fn parse_test_count(body: &str) -> (r: Option<(u64, u64)>)
    ensures
        r == iteration_counts(body@),
{
    let n = body.unicode_len();
    if !match_lit_at(body, 0, "Running ") {
        return None;
    }
    let i0 = "Running ".unicode_len();
    let j0 = scan_digits_end(body, i0);
    if j0 == i0 {
        return None;
    }
    if !match_lit_at(body, j0, " tests from ") {
        return None;
    }
    let i1 = j0 + " tests from ".unicode_len();
    let j1 = scan_digits_end(body, i1);
    if j1 == i1 {
        return None;
    }
    if !match_lit_at(body, j1, " test suites.") {
        return None;
    }
    if j1 + " test suites.".unicode_len() != n {
        return None;
    }
    proof {
        lemma_digit_run_end_bounds(body@, i0 as int);
        lemma_digit_run_end_bounds(body@, i1 as int);
    }
    let a = parse_u64_range(body, i0, j0);
    let b = parse_u64_range(body, i1, j1);
    match (a, b) {
        (Some(x), Some(y)) => Some((x, y)),
        _ => None,
    }
}

/// Reads a suite heading's count and suite name out of a trimmed body.
pub fn parse_test_suite(body: &str) -> (r: Option<(u64, String)>)
    ensures
        (match r {
            Some(p) => suite_heading(body@) == Some((p.0, p.1@)),
            None => suite_heading(body@) is None,
        }),
{
    let n = body.unicode_len();
    let j0 = scan_digits_end(body, 0);
    if j0 == 0 {
        return None;
    }
    proof {
        lemma_digit_run_end_bounds(body@, 0);
    }
    if match_lit_at(body, j0, " tests from ") {
        let i1 = j0 + " tests from ".unicode_len();
        if is_ident_range(body, i1, n) {
            match parse_u64_range(body, 0, j0) {
                Some(x) => Some((x, body.substring_char(i1, n).to_owned())),
                None => None,
            }
        } else {
            None
        }
    } else if match_lit_at(body, j0, " test from ") {
        let i1 = j0 + " test from ".unicode_len();
        if is_ident_range(body, i1, n) {
            match parse_u64_range(body, 0, j0) {
                Some(x) => Some((x, body.substring_char(i1, n).to_owned())),
                None => None,
            }
        } else {
            None
        }
    } else {
        None
    }
}

/// Reads the passed-test count out of a trimmed summary body.
pub fn parse_num_tests(body: &str) -> (r: Option<u64>)
    ensures
        r == summary_count(body@),
{
    let n = body.unicode_len();
    let j0 = scan_digits_end(body, 0);
    if j0 == 0 {
        return None;
    }
    proof {
        lemma_digit_run_end_bounds(body@, 0);
    }
    if match_lit_at(body, j0, " tests.") && j0 + " tests.".unicode_len() == n {
        parse_u64_range(body, 0, j0)
    } else if match_lit_at(body, j0, " test.") && j0 + " test.".unicode_len() == n {
        parse_u64_range(body, 0, j0)
    } else {
        None
    }
}

/// Reads the dot-preceded case identifier that ends at position `e`.
fn parse_name_before(body: &str, e: usize) -> (r: Option<String>)
    requires
        e <= body@.len(),
    ensures
        (match r {
            Some(name) => name_before(body@, e as int) == Some(name@),
            None => name_before(body@, e as int) is None,
        }),
{
    let b = scan_ident_run_start(body, e);
    if b < e && is_ident_start(body.get_char(b)) && b >= 1 && body.get_char(b - 1) == '.' {
        Some(body.substring_char(b, e).to_owned())
    } else if b >= 1 && body.get_char(b - 1) == '$' && b >= 2 && body.get_char(b - 2) == '.' {
        Some(body.substring_char(b - 1, e).to_owned())
    } else {
        None
    }
}

/// The name a case-start line reports for its trimmed body.
pub fn parse_run_name(body: &str) -> (r: String)
    ensures
        r@ == run_case_name(body@),
{
    let n = body.unicode_len();
    match parse_name_before(body, n) {
        Some(name) => name,
        None => body.to_owned(),
    }
}

/// Reads a finished case's name and duration out of a trimmed body.
pub fn parse_case_result(body: &str) -> (r: Option<(String, u64)>)
    ensures
        (match r {
            Some(p) => case_result(body@) == Some((p.0@, p.1)),
            None => case_result(body@) is None,
        }),
{
    let n = body.unicode_len();
    let sw = " ms)".unicode_len();
    if n < sw {
        return None;
    }
    if !match_lit_at(body, n - sw, " ms)") {
        return None;
    }
    let dend = n - sw;
    let dstart = scan_digits_start(body, dend);
    if dstart == dend {
        return None;
    }
    let mw = " (".unicode_len();
    if dstart < mw {
        return None;
    }
    if !match_lit_at(body, dstart - mw, " (") {
        return None;
    }
    proof {
        lemma_digit_run_start_bounds(body@, dend as int);
    }
    match parse_name_before(body, dstart - mw) {
        Some(name) => match parse_u64_range(body, dstart, dend) {
            Some(d) => Some((name, d)),
            None => None,
        },
        None => None,
    }
}

} // verus!
