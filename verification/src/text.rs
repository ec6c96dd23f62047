//! Character classes and low-level scanning over lines of protocol text.
//!
//! Everything here is stated over `Seq<char>` views; the executable scanners
//! are proved equal to the spec-level scans they implement.
use vstd::prelude::*;
use vstd::string::*;

verus! {

/// A decimal digit.
pub open spec fn spec_is_digit(c: char) -> bool {
    48 <= c as u32 <= 57
}

/// A character that may open an identifier: a letter, `_`, or `$`.
pub open spec fn spec_is_ident_start(c: char) -> bool {
    (65 <= c as u32 <= 90) || (97 <= c as u32 <= 122) || c == '_' || c == '$'
}

/// A character that may continue an identifier: a letter, a digit, or `_`.
pub open spec fn spec_is_ident_continue(c: char) -> bool {
    (65 <= c as u32 <= 90) || (97 <= c as u32 <= 122) || spec_is_digit(c) || c == '_'
}

/// An identifier: one opening character followed by continuing characters.
pub open spec fn spec_is_ident(s: Seq<char>) -> bool {
    &&& s.len() > 0
    &&& spec_is_ident_start(s[0])
    &&& forall|k: int| 1 <= k < s.len() ==> spec_is_ident_continue(#[trigger] s[k])
}

/// Whitespace stripped from a body before structured parsing.
pub open spec fn spec_is_ws(c: char) -> bool {
    c == ' ' || c == '\t' || c == '\n' || c == '\r' || c == '\u{c}'
}

/// First index at or after `i` holding a non-whitespace character.
pub open spec fn ws_prefix_end(s: Seq<char>, i: int) -> int
    recommends
        0 <= i <= s.len(),
    decreases s.len() - i when 0 <= i <= s.len()
{
    if i < s.len() && spec_is_ws(s[i]) {
        ws_prefix_end(s, i + 1)
    } else {
        i
    }
}

/// Where the whitespace run ending at `j` starts.
pub open spec fn ws_suffix_start(s: Seq<char>, j: int) -> int
    recommends
        0 <= j <= s.len(),
    decreases j when 0 <= j <= s.len()
{
    if j > 0 && spec_is_ws(s[j - 1]) {
        ws_suffix_start(s, j - 1)
    } else {
        j
    }
}

/// The sequence with surrounding whitespace removed.
pub open spec fn spec_trim(s: Seq<char>) -> Seq<char> {
    let a = ws_prefix_end(s, 0);
    let b = ws_suffix_start(s, s.len() as int);
    if a <= b {
        s.subrange(a, b)
    } else {
        Seq::empty()
    }
}

/// End (exclusive) of the run of digits starting at `i`.
pub open spec fn digit_run_end(s: Seq<char>, i: int) -> int
    recommends
        0 <= i <= s.len(),
    decreases s.len() - i when 0 <= i <= s.len()
{
    if i < s.len() && spec_is_digit(s[i]) {
        digit_run_end(s, i + 1)
    } else {
        i
    }
}

/// Start of the run of digits ending (exclusive) at `j`.
pub open spec fn digit_run_start(s: Seq<char>, j: int) -> int
    recommends
        0 <= j <= s.len(),
    decreases j when 0 <= j <= s.len()
{
    if j > 0 && spec_is_digit(s[j - 1]) {
        digit_run_start(s, j - 1)
    } else {
        j
    }
}

/// Start of the run of identifier-continuing characters ending at `j`.
pub open spec fn ident_run_start(s: Seq<char>, j: int) -> int
    recommends
        0 <= j <= s.len(),
    decreases j when 0 <= j <= s.len()
{
    if j > 0 && spec_is_ident_continue(s[j - 1]) {
        ident_run_start(s, j - 1)
    } else {
        j
    }
}

/// The literal `lit` occurs in `s` at position `i`.
pub open spec fn lit_at(s: Seq<char>, i: int, lit: Seq<char>) -> bool {
    &&& 0 <= i
    &&& i + lit.len() <= s.len()
    &&& s.subrange(i, i + lit.len() as int) == lit
}

/// Numeric value of a sequence of decimal digits.
pub open spec fn digits_val(s: Seq<char>) -> nat
    decreases s.len(),
{
    if s.len() == 0 {
        0
    } else {
        (digits_val(s.drop_last()) * 10 + (s.last() as u32 - 48)) as nat
    }
}

pub proof fn lemma_digit_run_end_bounds(s: Seq<char>, i: int)
    requires
        0 <= i <= s.len(),
    ensures
        i <= digit_run_end(s, i) <= s.len(),
        forall|k: int| i <= k < digit_run_end(s, i) ==> spec_is_digit(#[trigger] s[k]),
    decreases s.len() - i,
{
    if i < s.len() && spec_is_digit(s[i]) {
        lemma_digit_run_end_bounds(s, i + 1);
    }
}

pub proof fn lemma_digit_run_start_bounds(s: Seq<char>, j: int)
    requires
        0 <= j <= s.len(),
    ensures
        0 <= digit_run_start(s, j) <= j,
        forall|k: int| digit_run_start(s, j) <= k < j ==> spec_is_digit(#[trigger] s[k]),
    decreases j,
{
    if j > 0 && spec_is_digit(s[j - 1]) {
        lemma_digit_run_start_bounds(s, j - 1);
    }
}

pub proof fn lemma_ident_run_start_bounds(s: Seq<char>, j: int)
    requires
        0 <= j <= s.len(),
    ensures
        0 <= ident_run_start(s, j) <= j,
        forall|k: int| ident_run_start(s, j) <= k < j ==> spec_is_ident_continue(#[trigger] s[k]),
    decreases j,
{
    if j > 0 && spec_is_ident_continue(s[j - 1]) {
        lemma_ident_run_start_bounds(s, j - 1);
    }
}

pub proof fn lemma_digits_val_step(s: Seq<char>, i: int, k: int)
    requires
        0 <= i <= k < s.len(),
        spec_is_digit(s[k]),
    ensures
        digits_val(s.subrange(i, k + 1)) == digits_val(s.subrange(i, k)) * 10 + (s[k] as u32
            - 48),
{
    let w = s.subrange(i, k + 1);
    assert(w.drop_last() =~= s.subrange(i, k));
    assert(w.last() == s[k]);
}

#[verifier::when_used_as_spec(spec_is_digit)]
pub fn is_digit(c: char) -> (r: bool)
    ensures
        r == spec_is_digit(c),
{
    let u = c as u32;
    48 <= u && u <= 57
}

#[verifier::when_used_as_spec(spec_is_ident_start)]
pub fn is_ident_start(c: char) -> (r: bool)
    ensures
        r == spec_is_ident_start(c),
{
    let u = c as u32;
    (65 <= u && u <= 90) || (97 <= u && u <= 122) || c == '_' || c == '$'
}

#[verifier::when_used_as_spec(spec_is_ident_continue)]
pub fn is_ident_continue(c: char) -> (r: bool)
    ensures
        r == spec_is_ident_continue(c),
{
    let u = c as u32;
    (65 <= u && u <= 90) || (97 <= u && u <= 122) || is_digit(c) || c == '_'
}

#[verifier::when_used_as_spec(spec_is_ws)]
pub fn is_ws(c: char) -> (r: bool)
    ensures
        r == spec_is_ws(c),
{
    c == ' ' || c == '\t' || c == '\n' || c == '\r' || c == '\u{c}'
}

/// Does the literal `lit` occur in `s` at character position `i`?
pub fn match_lit_at(s: &str, i: usize, lit: &str) -> (r: bool)
    ensures
        r == lit_at(s@, i as int, lit@),
{
    let n = s.unicode_len();
    let m = lit.unicode_len();
    if i > n || m > n - i {
        return false;
    }
    let mut j: usize = 0;
    while j < m
        invariant
            i + m <= n,
            j <= m,
            forall|k: int| 0 <= k < j ==> s@[i + k] == lit@[k],
        decreases m - j,
    {
        if s.get_char(i + j) != lit.get_char(j) {
            assert(s@.subrange(i as int, i + m) != lit@) by {
                assert(s@.subrange(i as int, i + m)[j as int] == s@[i + j]);
            }
            return false;
        }
        j += 1;
    }
    assert(s@.subrange(i as int, i + m) =~= lit@);
    true
}

/// Walks forward over digits from `i`.
pub fn scan_digits_end(s: &str, i: usize) -> (j: usize)
    requires
        i <= s@.len(),
    ensures
        j == digit_run_end(s@, i as int),
        i <= j <= s@.len(),
{
    let n = s.unicode_len();
    let mut j = i;
    while j < n && is_digit(s.get_char(j))
        invariant
            i <= j <= n,
            digit_run_end(s@, i as int) == digit_run_end(s@, j as int),
        decreases n - j,
    {
        j += 1;
    }
    j
}

/// Walks backwards over digits from `j`.
pub fn scan_digits_start(s: &str, j: usize) -> (i: usize)
    requires
        j <= s@.len(),
    ensures
        i == digit_run_start(s@, j as int),
        i <= j,
{
    let mut i = j;
    while i > 0 && is_digit(s.get_char(i - 1))
        invariant
            i <= j,
            digit_run_start(s@, j as int) == digit_run_start(s@, i as int),
        decreases i,
    {
        i -= 1;
    }
    i
}

/// Walks backwards over identifier-continuing characters from `j`.
pub fn scan_ident_run_start(s: &str, j: usize) -> (i: usize)
    requires
        j <= s@.len(),
    ensures
        i == ident_run_start(s@, j as int),
        i <= j,
{
    let mut i = j;
    while i > 0 && is_ident_continue(s.get_char(i - 1))
        invariant
            i <= j,
            ident_run_start(s@, j as int) == ident_run_start(s@, i as int),
        decreases i,
    {
        i -= 1;
    }
    i
}

/// Is `s.subrange(i, j)` an identifier?
pub fn is_ident_range(s: &str, i: usize, j: usize) -> (r: bool)
    requires
        i <= j <= s@.len(),
    ensures
        r == spec_is_ident(s@.subrange(i as int, j as int)),
{
    if i == j {
        return false;
    }
    if !is_ident_start(s.get_char(i)) {
        assert(s@.subrange(i as int, j as int)[0] == s@[i as int]);
        return false;
    }
    let mut k: usize = i + 1;
    while k < j
        invariant
            i + 1 <= k <= j,
            forall|t: int| 1 <= t < k - i ==> spec_is_ident_continue(
                #[trigger] s@.subrange(i as int, j as int)[t],
            ),
        decreases j - k,
    {
        if !is_ident_continue(s.get_char(k)) {
            assert(s@.subrange(i as int, j as int)[k - i] == s@[k as int]);
            return false;
        }
        assert(s@.subrange(i as int, j as int)[k - i] == s@[k as int]);
        k += 1;
    }
    assert(s@.subrange(i as int, j as int)[0] == s@[i as int]);
    true
}

/// Value of the digit run `s.subrange(i, j)` when it fits in a `u64`.
pub fn parse_u64_range(s: &str, i: usize, j: usize) -> (r: Option<u64>)
    requires
        i <= j <= s@.len(),
        forall|k: int| i <= k < j ==> spec_is_digit(#[trigger] s@[k]),
    ensures
        (match r {
            Some(v) => digits_val(s@.subrange(i as int, j as int)) == v,
            None => digits_val(s@.subrange(i as int, j as int)) > u64::MAX,
        }),
{
    let mut val: u64 = 0;
    let mut over = false;
    let mut k = i;
    assert(s@.subrange(i as int, i as int) =~= Seq::<char>::empty());
    while k < j
        invariant
            i <= k <= j,
            !over ==> val == digits_val(s@.subrange(i as int, k as int)),
            over ==> digits_val(s@.subrange(i as int, k as int)) > u64::MAX,
        decreases j - k,
    {
        let c = s.get_char(k);
        let d = (c as u32 - 48) as u64;
        proof {
            lemma_digits_val_step(s@, i as int, k as int);
        }
        if !over {
            match val.checked_mul(10) {
                Some(v10) => {
                    match v10.checked_add(d) {
                        Some(v) => {
                            val = v;
                        },
                        None => {
                            over = true;
                        },
                    }
                },
                None => {
                    over = true;
                },
            }
        } else {
            proof {
                let prev = digits_val(s@.subrange(i as int, k as int));
                assert(prev * 10 >= prev) by (nonlinear_arith)
                    requires
                        prev >= 0,
                ;
            }
        }
        k += 1;
    }
    if over {
        None
    } else {
        Some(val)
    }
}

/// The string with surrounding whitespace removed, as `str::trim` strips
/// the blank characters these lines can carry.
pub fn trim_str(s: &str) -> (r: &str)
    ensures
        r@ == spec_trim(s@),
{
    let n = s.unicode_len();
    let mut a: usize = 0;
    while a < n && is_ws(s.get_char(a))
        invariant
            a <= n,
            ws_prefix_end(s@, 0) == ws_prefix_end(s@, a as int),
        decreases n - a,
    {
        a += 1;
    }
    if a == n {
        let r = s.substring_char(n, n);
        proof {
            lemma_ws_suffix_bounds(s@, s@.len() as int);
            assert(r@ =~= spec_trim(s@));
        }
        return r;
    }
    let mut b: usize = n;
    while b > a && is_ws(s.get_char(b - 1))
        invariant
            a < n,
            a < b <= n,
            !spec_is_ws(s@[a as int]),
            ws_suffix_start(s@, s@.len() as int) == ws_suffix_start(s@, b as int),
        decreases b,
    {
        b -= 1;
    }
    s.substring_char(a, b)
}

pub proof fn lemma_ws_suffix_bounds(s: Seq<char>, j: int)
    requires
        0 <= j <= s.len(),
    ensures
        0 <= ws_suffix_start(s, j) <= j,
    decreases j,
{
    if j > 0 && spec_is_ws(s[j - 1]) {
        lemma_ws_suffix_bounds(s, j - 1);
    }
}

} // verus!
