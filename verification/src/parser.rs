//! The streaming event extractor: one line in, at most one event out.
//!
//! `Parser` consumes lines one at a time and never looks ahead; `parse` runs
//! a fresh extractor over a whole line sequence; `split_lines` cuts raw text
//! into the lines a buffered reader would deliver, the partial final line
//! included.
use crate::grammar::{
    parse_case_result, parse_num_tests, parse_run_name, parse_test_count, parse_test_suite,
};
use crate::machine::{
    extracted_events, line_body, mark_matches, run_model, spec_step, EventModel, ParserState,
    MARK_SIZE,
};
use crate::text::match_lit_at;
use crate::text::trim_str;
use vstd::prelude::*;
use vstd::string::*;

verus! {

/// One structured event, in emission order.  Counts and durations are the
/// non-negative integers the line carried; a failed case's `reason` is empty,
/// since the protocol puts no detail on the failure line itself.
#[derive(Clone, Debug, PartialEq, Eq)]
pub enum ParserEvent {
    IterationStarted { case_count: u64, suite_count: u64 },
    SuiteStarted { case_count: u64, name: String },
    CaseStarted { name: String },
    CasePassed { name: String, duration_ms: u64 },
    CaseFailed { name: String, duration_ms: u64, reason: String },
    RunSummary { passed_count: u64 },
    StreamEnded,
}

impl View for ParserEvent {
    type V = EventModel;

    open spec fn view(&self) -> EventModel {
        match self {
            ParserEvent::IterationStarted { case_count, suite_count } => {
                EventModel::IterationStarted {
                    case_count: *case_count,
                    suite_count: *suite_count,
                }
            },
            ParserEvent::SuiteStarted { case_count, name } => {
                EventModel::SuiteStarted { case_count: *case_count, name: name@ }
            },
            ParserEvent::CaseStarted { name } => EventModel::CaseStarted { name: name@ },
            ParserEvent::CasePassed { name, duration_ms } => {
                EventModel::CasePassed { name: name@, duration_ms: *duration_ms }
            },
            ParserEvent::CaseFailed { name, duration_ms, reason } => {
                EventModel::CaseFailed {
                    name: name@,
                    duration_ms: *duration_ms,
                    reason: reason@,
                }
            },
            ParserEvent::RunSummary { passed_count } => {
                EventModel::RunSummary { passed_count: *passed_count }
            },
            ParserEvent::StreamEnded => EventModel::StreamEnded,
        }
    }
}

impl DeepView for ParserEvent {
    type V = EventModel;

    open spec fn deep_view(&self) -> EventModel {
        self.view()
    }
}

/// The one unrecoverable input fault: an iteration header whose mandatory
/// body does not parse.
#[derive(Clone, Copy, Debug, PartialEq, Eq)]
pub enum ParseError {
    BadIterationHeader,
}

/// Does `line` carry `mark`: strictly longer than the mark and opening with
/// it, character for character, with no trimming first?
pub fn match_mark(line: &str, mark: &str) -> (r: bool)
    ensures
        r == mark_matches(line@, mark@),
{
    let n = line.unicode_len();
    let m = mark.unicode_len();
    n > m && match_lit_at(line, 0, mark)
}

/// The trimmed body after the fixed-width mark.
pub fn strip_mark(line: &str) -> (r: &str)
    requires
        line@.len() > MARK_SIZE,
    ensures
        r@ == line_body(line@),
{
    let n = line.unicode_len();
    let rest = line.substring_char(MARK_SIZE, n);
    proof {
        assert(rest@ =~= line@.skip(MARK_SIZE as int));
    }
    trim_str(rest)
}

/// Each mark is exactly `MARK_SIZE` characters wide.
pub proof fn lemma_mark_widths()
    ensures
        crate::machine::iteration_mark().len() == MARK_SIZE,
        crate::machine::barrier_mark().len() == MARK_SIZE,
        crate::machine::run_mark().len() == MARK_SIZE,
        crate::machine::ok_mark().len() == MARK_SIZE,
        crate::machine::failed_mark().len() == MARK_SIZE,
        crate::machine::passed_mark().len() == MARK_SIZE,
{
    reveal_strlit("[==========]");
    reveal_strlit("[----------]");
    reveal_strlit("[ RUN      ]");
    reveal_strlit("[       OK ]");
    reveal_strlit("[  FAILED  ]");
    reveal_strlit("[  PASSED  ]");
}

/// The streaming extractor.  Its state is the only thing it keeps between
/// lines: it holds no line and no event.
pub struct Parser {
    state: ParserState,
}

impl View for Parser {
    type V = ParserState;

    closed spec fn view(&self) -> ParserState {
        self.state
    }
}

impl Parser {
    /// A fresh extractor, inactive until it sees an iteration header.
    pub fn new() -> (p: Parser)
        ensures
            p@ == ParserState::Inactive,
    {
        Parser { state: ParserState::Inactive }
    }

    /// Feeds one line: advances the state machine as the transition table
    /// says and hands back the event the line emits, if any.  `Err` is the
    /// structural failure that makes further progress impossible; it emits
    /// nothing and leaves the state unchanged.
    pub fn process_line(&mut self, line: &str) -> (r: Result<Option<ParserEvent>, ParseError>)
        ensures
            ({
                let st = spec_step(old(self)@, line@);
                match r {
                    Ok(ev) => !st.failed && final(self)@ == st.next && ev.deep_view() == st.emit,
                    Err(e) => st.failed && final(self)@ == old(self)@ && e
                        == ParseError::BadIterationHeader,
                }
            }),
    {
        proof {
            lemma_mark_widths();
        }
        let state = self.state;
        match state {
            ParserState::Inactive => {
                if match_mark(line, "[==========]") {
                    let body = strip_mark(line);
                    match parse_test_count(body) {
                        Some((n, m)) => {
                            self.state = ParserState::IterationStarted;
                            Ok(
                                Some(
                                    ParserEvent::IterationStarted {
                                        case_count: n,
                                        suite_count: m,
                                    },
                                ),
                            )
                        },
                        None => Err(ParseError::BadIterationHeader),
                    }
                } else {
                    Ok(None)
                }
            },
            ParserState::IterationStarted => {
                if match_mark(line, "[----------]") {
                    self.state = ParserState::SetupStarted;
                }
                Ok(None)
            },
            ParserState::SetupStarted | ParserState::SuiteEnded => {
                if match_mark(line, "[----------]") {
                    let body = strip_mark(line);
                    match parse_test_suite(body) {
                        Some((n, name)) => {
                            self.state = ParserState::SuiteStarted;
                            Ok(Some(ParserEvent::SuiteStarted { case_count: n, name }))
                        },
                        None => {
                            self.state = ParserState::SetupEnded;
                            Ok(None)
                        },
                    }
                } else {
                    Ok(None)
                }
            },
            ParserState::SetupEnded => {
                if match_mark(line, "[==========]") {
                    self.state = ParserState::IterationEnded;
                }
                Ok(None)
            },
            ParserState::IterationEnded => {
                if match_mark(line, "[  PASSED  ]") {
                    let body = strip_mark(line);
                    match parse_num_tests(body) {
                        Some(n) => Ok(Some(ParserEvent::RunSummary { passed_count: n })),
                        None => Ok(None),
                    }
                } else {
                    Ok(None)
                }
            },
            ParserState::SuiteStarted | ParserState::CaseEnded => {
                if match_mark(line, "[ RUN      ]") {
                    let body = strip_mark(line);
                    let name = parse_run_name(body);
                    self.state = ParserState::CaseStarted;
                    Ok(Some(ParserEvent::CaseStarted { name }))
                } else if match_mark(line, "[----------]") {
                    self.state = ParserState::SuiteEnded;
                    Ok(None)
                } else {
                    Ok(None)
                }
            },
            ParserState::CaseStarted => {
                if match_mark(line, "[       OK ]") {
                    let body = strip_mark(line);
                    match parse_case_result(body) {
                        Some((name, d)) => {
                            self.state = ParserState::CaseEnded;
                            Ok(Some(ParserEvent::CasePassed { name, duration_ms: d }))
                        },
                        None => Ok(None),
                    }
                } else if match_mark(line, "[  FAILED  ]") {
                    let body = strip_mark(line);
                    match parse_case_result(body) {
                        Some((name, d)) => {
                            self.state = ParserState::CaseEnded;
                            Ok(
                                Some(
                                    ParserEvent::CaseFailed {
                                        name,
                                        duration_ms: d,
                                        reason: String::new(),
                                    },
                                ),
                            )
                        },
                        None => Ok(None),
                    }
                } else {
                    Ok(None)
                }
            },
        }
    }

    /// The sentinel that closes every extraction, however the stream ended.
    pub fn finalize(&mut self) -> (r: ParserEvent)
        ensures
            final(self)@ == old(self)@,
            r@ == EventModel::StreamEnded,
    {
        ParserEvent::StreamEnded
    }
}

/// Runs a fresh extractor over `lines` and returns every event it emits, in
/// order, closed by the sentinel — whether the input ended cleanly or a
/// mandatory body failed to parse.
pub fn parse(lines: &Vec<String>) -> (events: Vec<ParserEvent>)
    ensures
        events.deep_view() == extracted_events(lines.deep_view()),
        events@.len() >= 1,
        events.deep_view().last() == EventModel::StreamEnded,
        forall|k: int|
            0 <= k < events@.len() - 1 ==> #[trigger] events.deep_view()[k]
                != EventModel::StreamEnded,
{
    proof {
        crate::machine::lemma_sentinel_once_and_last(lines.deep_view());
    }
    let ghost gl: Seq<Seq<char>> = lines.deep_view();
    let n = lines.len();
    let mut parser = Parser::new();
    let mut events: Vec<ParserEvent> = Vec::new();
    let mut i: usize = 0;
    let mut failed = false;
    proof {
        assert(gl.skip(0) =~= gl);
    }
    while i < n && !failed
        invariant
            i <= n,
            n == lines@.len(),
            gl == lines.deep_view(),
            !failed ==> run_model(ParserState::Inactive, gl).events == events.deep_view()
                + run_model(parser@, gl.skip(i as int)).events,
            failed ==> run_model(ParserState::Inactive, gl).events == events.deep_view(),
        decreases n - i + (if failed { 0int } else { 1int }),
    {
        let line: &String = &lines[i];
        let ghost pre = parser@;
        let ghost suffix = gl.skip(i as int);
        proof {
            assert(suffix[0] == gl[i as int]);
            assert(gl[i as int] == lines@[i as int]@);
            assert(suffix.drop_first() =~= gl.skip(i as int + 1));
        }
        match parser.process_line(line.as_str()) {
            Ok(ev_opt) => {
                let ghost st = spec_step(pre, suffix[0]);
                proof {
                    assert(run_model(pre, suffix).events == crate::machine::emit_seq(st.emit)
                        + run_model(st.next, suffix.drop_first()).events);
                }
                match ev_opt {
                    Some(ev) => {
                        let ghost before = events.deep_view();
                        events.push(ev);
                        proof {
                            assert(events.deep_view() =~= before.push(ev.deep_view()));
                            assert(before.push(ev.deep_view()) =~= before + crate::machine::emit_seq(
                                st.emit,
                            ));
                        }
                    },
                    None => {
                    },
                }
                i += 1;
            },
            Err(_) => {
                proof {
                    assert(run_model(pre, suffix).events =~= Seq::<EventModel>::empty());
                }
                failed = true;
            },
        }
    }
    proof {
        if !failed {
            assert(gl.skip(n as int) =~= Seq::<Seq<char>>::empty());
        }
    }
    let done = parser.finalize();
    let ghost before = events.deep_view();
    events.push(done);
    proof {
        assert(events.deep_view() =~= before.push(EventModel::StreamEnded));
    }
    events
}

/// Index of the first line break at or after `i`, or the text's length if
/// none remains.
pub open spec fn nl_pos(s: Seq<char>, i: int) -> int
    recommends
        0 <= i <= s.len(),
    decreases s.len() - i when 0 <= i <= s.len()
{
    if i < s.len() && s[i] != '\n' {
        nl_pos(s, i + 1)
    } else {
        i
    }
}

pub proof fn lemma_nl_pos_bounds(s: Seq<char>, i: int)
    requires
        0 <= i <= s.len(),
    ensures
        i <= nl_pos(s, i) <= s.len(),
        forall|k: int| i <= k < nl_pos(s, i) ==> s[k] != '\n',
        nl_pos(s, i) < s.len() ==> s[nl_pos(s, i)] == '\n',
    decreases s.len() - i,
{
    if i < s.len() && s[i] != '\n' {
        lemma_nl_pos_bounds(s, i + 1);
    }
}

pub proof fn lemma_nl_pos_value(s: Seq<char>, i: int, j: int)
    requires
        0 <= i <= j <= s.len(),
        forall|k: int| i <= k < j ==> s[k] != '\n',
        j == s.len() || s[j] == '\n',
    ensures
        nl_pos(s, i) == j,
    decreases j - i,
{
    if i < j {
        lemma_nl_pos_value(s, i + 1, j);
    }
}

/// How raw text falls into lines: each line keeps its terminating break, and
/// a final run of text without one is still a line.  This is the shape a
/// buffered reader delivers, the partial final line of a stream that closes
/// mid-line included.
pub open spec fn spec_split_lines(s: Seq<char>) -> Seq<Seq<char>>
    decreases s.len() via spec_split_lines_decreases
{
    if s.len() == 0 {
        Seq::empty()
    } else {
        let e = nl_pos(s, 0);
        if e < s.len() {
            seq![s.subrange(0, e + 1)] + spec_split_lines(s.skip(e + 1))
        } else {
            seq![s]
        }
    }
}

#[via_fn]
proof fn spec_split_lines_decreases(s: Seq<char>) {
    if s.len() > 0 {
        lemma_nl_pos_bounds(s, 0);
    }
}

/// Splits raw text into the lines the extractor is fed.
pub fn split_lines(text: &str) -> (r: Vec<String>)
    ensures
        r.deep_view() == spec_split_lines(text@),
{
    let n = text.unicode_len();
    let mut r: Vec<String> = Vec::new();
    let mut start: usize = 0;
    let mut i: usize = 0;
    proof {
        assert(text@.skip(0) =~= text@);
    }
    while i < n
        invariant
            start <= i <= n,
            n == text@.len(),
            forall|k: int| start <= k < i ==> text@[k] != '\n',
            spec_split_lines(text@) == r.deep_view() + spec_split_lines(
                text@.skip(start as int),
            ),
        decreases n - i,
    {
        if text.get_char(i) == '\n' {
            let line = text.substring_char(start, i + 1).to_owned();
            let ghost before = r.deep_view();
            let ghost tail = text@.skip(start as int);
            r.push(line);
            proof {
                assert forall|k: int| 0 <= k < i - start implies tail[k] != '\n' by {
                    assert(tail[k] == text@[start + k]);
                }
                assert(tail[i - start] == text@[i as int]);
                lemma_nl_pos_value(tail, 0, i - start);
                assert(tail.subrange(0, i - start + 1) =~= text@.subrange(
                    start as int,
                    i + 1,
                ));
                assert(tail.skip(i - start + 1) =~= text@.skip(i + 1));
                assert(spec_split_lines(tail) == seq![text@.subrange(start as int, i + 1)]
                    + spec_split_lines(text@.skip(i + 1)));
                assert(r.deep_view() =~= before.push(line@));
                assert(before.push(line@) =~= before + seq![text@.subrange(start as int, i + 1)]);
            }
            start = i + 1;
        }
        i += 1;
    }
    if start < n {
        let line = text.substring_char(start, n).to_owned();
        let ghost before = r.deep_view();
        let ghost tail = text@.skip(start as int);
        r.push(line);
        proof {
            assert forall|k: int| 0 <= k < tail.len() implies tail[k] != '\n' by {
                assert(tail[k] == text@[start + k]);
            }
            lemma_nl_pos_value(tail, 0, tail.len() as int);
            assert(spec_split_lines(tail) == seq![tail]);
            assert(tail =~= text@.subrange(start as int, n as int));
            assert(r.deep_view() =~= before.push(line@));
            assert(before.push(line@) =~= before + seq![tail]);
        }
    } else {
        proof {
            assert(text@.skip(start as int) =~= Seq::<char>::empty());
            assert(spec_split_lines(text@.skip(start as int)) =~= Seq::<Seq<char>>::empty());
        }
    }
    r
}

/// Runs a fresh extractor over raw text: the text is split into lines and
/// every emitted event is returned in order, the closing sentinel last.
pub fn extract_from_text(text: &str) -> (events: Vec<ParserEvent>)
    ensures
        events.deep_view() == extracted_events(spec_split_lines(text@)),
        events@.len() >= 1,
        events.deep_view().last() == EventModel::StreamEnded,
        forall|k: int|
            0 <= k < events@.len() - 1 ==> #[trigger] events.deep_view()[k]
                != EventModel::StreamEnded,
{
    let lines = split_lines(text);
    parse(&lines)
}

/// A stream that closes mid-line still hands the extractor the partial text
/// as one final, completed line: appending break-free text to
/// break-terminated text adds exactly one line, so two runs over the same
/// bytes see the same lines.
pub proof fn lemma_partial_final_line(text: Seq<char>, partial: Seq<char>)
    requires
        text.len() == 0 || text.last() == '\n',
        partial.len() > 0,
        forall|k: int| 0 <= k < partial.len() ==> partial[k] != '\n',
    ensures
        spec_split_lines(text + partial) == spec_split_lines(text).push(partial),
    decreases text.len(),
{
    let s = text + partial;
    if text.len() == 0 {
        assert(s =~= partial);
        lemma_nl_pos_value(partial, 0, partial.len() as int);
        assert(spec_split_lines(partial) == seq![partial]);
        assert(spec_split_lines(text).push(partial) =~= seq![partial]);
    } else {
        lemma_nl_pos_bounds(text, 0);
        let e = nl_pos(text, 0);
        assert(e < text.len()) by {
            if e == text.len() {
                assert(text[text.len() - 1] != '\n');
            }
        }
        assert forall|k: int| 0 <= k < e implies s[k] != '\n' by {
            assert(s[k] == text[k]);
        }
        assert(s[e] == text[e]);
        lemma_nl_pos_value(s, 0, e);
        assert(s.subrange(0, e + 1) =~= text.subrange(0, e + 1));
        let trest = text.skip(e + 1);
        assert(s.skip(e + 1) =~= trest + partial);
        if trest.len() > 0 {
            assert(trest.last() == text.last());
        }
        lemma_partial_final_line(trest, partial);
        assert(spec_split_lines(s) == seq![text.subrange(0, e + 1)] + spec_split_lines(
            trest,
        ).push(partial));
        assert(spec_split_lines(text) == seq![text.subrange(0, e + 1)] + spec_split_lines(trest));
        assert(seq![text.subrange(0, e + 1)] + spec_split_lines(trest).push(partial) =~= (
        seq![text.subrange(0, e + 1)] + spec_split_lines(trest)).push(partial));
    }
}

} // verus!
