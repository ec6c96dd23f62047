//! The extractor's state machine: which mark is meaningful in which state,
//! which event a line emits, and what a whole run over a line sequence yields.
use crate::grammar::{
    case_result, iteration_counts, run_case_name, suite_heading, summary_count,
};
use crate::text::spec_trim;
use vstd::prelude::*;

verus! {

/// Width in characters of every protocol mark.
pub const MARK_SIZE: usize = 12;

/// The extractor's only mutable state: which part of the protocol it is in.
#[derive(Clone, Copy, PartialEq, Eq, Structural, Debug)]
pub enum ParserState {
    Inactive,
    IterationStarted,
    IterationEnded,
    SetupStarted,
    SetupEnded,
    SuiteStarted,
    SuiteEnded,
    CaseStarted,
    CaseEnded,
}

/// Mathematical form of an emitted event: names as character sequences.
pub enum EventModel {
    IterationStarted { case_count: u64, suite_count: u64 },
    SuiteStarted { case_count: u64, name: Seq<char> },
    CaseStarted { name: Seq<char> },
    CasePassed { name: Seq<char>, duration_ms: u64 },
    CaseFailed { name: Seq<char>, duration_ms: u64, reason: Seq<char> },
    RunSummary { passed_count: u64 },
    StreamEnded,
}

/// What one line does to the machine: the state after it, the event it
/// emits, and whether it is an unrecoverable parse failure.
pub struct StepModel {
    pub next: ParserState,
    pub emit: Option<EventModel>,
    pub failed: bool,
}

/// Iteration boundary mark.
pub open spec fn iteration_mark() -> Seq<char> {
    "[==========]"@
}

/// Setup and suite boundaries share one literal; state and body content
/// disambiguate them.
pub open spec fn barrier_mark() -> Seq<char> {
    "[----------]"@
}

/// Case-start mark.
pub open spec fn run_mark() -> Seq<char> {
    "[ RUN      ]"@
}

/// Case-passed mark.
pub open spec fn ok_mark() -> Seq<char> {
    "[       OK ]"@
}

/// Case-failed mark.
pub open spec fn failed_mark() -> Seq<char> {
    "[  FAILED  ]"@
}

/// Summary mark.
pub open spec fn passed_mark() -> Seq<char> {
    "[  PASSED  ]"@
}

/// A line matches a mark exactly when it is strictly longer than the mark
/// and starts with it, character for character, with no trimming first.
pub open spec fn mark_matches(line: Seq<char>, mark: Seq<char>) -> bool {
    line.len() > mark.len() && line.subrange(0, mark.len() as int) == mark
}

/// The body of a marked line: everything after the mark, trimmed.
pub open spec fn line_body(line: Seq<char>) -> Seq<char>
    recommends
        line.len() > MARK_SIZE,
{
    spec_trim(line.skip(MARK_SIZE as int))
}

/// A step that only moves to `next`.
pub open spec fn step_to(next: ParserState) -> StepModel {
    StepModel { next, emit: None, failed: false }
}

/// A step that moves to `next` and emits `ev`.
pub open spec fn step_emit(next: ParserState, ev: EventModel) -> StepModel {
    StepModel { next, emit: Some(ev), failed: false }
}

/// The transition table: what one line does in state `s`.  A line carrying
/// no mark the state cares about changes nothing.
pub open spec fn spec_step(s: ParserState, line: Seq<char>) -> StepModel {
    let body = line_body(line);
    match s {
        ParserState::Inactive => if mark_matches(line, iteration_mark()) {
            match iteration_counts(body) {
                Some((n, m)) => step_emit(
                    ParserState::IterationStarted,
                    EventModel::IterationStarted { case_count: n, suite_count: m },
                ),
                None => StepModel { next: s, emit: None, failed: true },
            }
        } else {
            step_to(s)
        },
        ParserState::IterationStarted => if mark_matches(line, barrier_mark()) {
            step_to(ParserState::SetupStarted)
        } else {
            step_to(s)
        },
        ParserState::SetupStarted | ParserState::SuiteEnded => if mark_matches(
            line,
            barrier_mark(),
        ) {
            match suite_heading(body) {
                Some((n, name)) => step_emit(
                    ParserState::SuiteStarted,
                    EventModel::SuiteStarted { case_count: n, name },
                ),
                None => step_to(ParserState::SetupEnded),
            }
        } else {
            step_to(s)
        },
        ParserState::SetupEnded => if mark_matches(line, iteration_mark()) {
            step_to(ParserState::IterationEnded)
        } else {
            step_to(s)
        },
        ParserState::IterationEnded => if mark_matches(line, passed_mark()) {
            match summary_count(body) {
                Some(n) => step_emit(
                    ParserState::IterationEnded,
                    EventModel::RunSummary { passed_count: n },
                ),
                None => step_to(s),
            }
        } else {
            step_to(s)
        },
        ParserState::SuiteStarted | ParserState::CaseEnded => if mark_matches(line, run_mark()) {
            step_emit(
                ParserState::CaseStarted,
                EventModel::CaseStarted { name: run_case_name(body) },
            )
        } else if mark_matches(line, barrier_mark()) {
            step_to(ParserState::SuiteEnded)
        } else {
            step_to(s)
        },
        ParserState::CaseStarted => if mark_matches(line, ok_mark()) {
            match case_result(body) {
                Some((name, d)) => step_emit(
                    ParserState::CaseEnded,
                    EventModel::CasePassed { name, duration_ms: d },
                ),
                None => step_to(s),
            }
        } else if mark_matches(line, failed_mark()) {
            match case_result(body) {
                Some((name, d)) => step_emit(
                    ParserState::CaseEnded,
                    EventModel::CaseFailed { name, duration_ms: d, reason: Seq::empty() },
                ),
                None => step_to(s),
            }
        } else {
            step_to(s)
        },
    }
}

/// What a whole run over `lines` from state `s` yields: the final state, the
/// emitted events in order, and whether it stopped on a parse failure.  A
/// failing line emits nothing and ends the run.
pub struct RunModel {
    pub state: ParserState,
    pub events: Seq<EventModel>,
    pub failed: bool,
}

/// The events of one step as a sequence.
pub open spec fn emit_seq(e: Option<EventModel>) -> Seq<EventModel> {
    match e {
        Some(ev) => seq![ev],
        None => Seq::empty(),
    }
}

pub open spec fn run_model(s: ParserState, lines: Seq<Seq<char>>) -> RunModel
    decreases lines.len(),
{
    if lines.len() == 0 {
        RunModel { state: s, events: Seq::empty(), failed: false }
    } else {
        let st = spec_step(s, lines[0]);
        if st.failed {
            RunModel { state: s, events: Seq::empty(), failed: true }
        } else {
            let rest = run_model(st.next, lines.drop_first());
            RunModel {
                state: rest.state,
                events: emit_seq(st.emit) + rest.events,
                failed: rest.failed,
            }
        }
    }
}

/// Everything extraction hands the consumer for `lines`: the events of the
/// run from the inactive state, closed by the sentinel — whether the run
/// ended cleanly or on a parse failure.
pub open spec fn extracted_events(lines: Seq<Seq<char>>) -> Seq<EventModel> {
    run_model(ParserState::Inactive, lines).events.push(EventModel::StreamEnded)
}

/// Does the transition table list a transition out of `s` that produces an
/// event of `ev`'s variant?
pub open spec fn table_lists(s: ParserState, ev: EventModel) -> bool {
    match ev {
        EventModel::IterationStarted { .. } => s is Inactive,
        EventModel::SuiteStarted { .. } => s is SetupStarted || s is SuiteEnded,
        EventModel::CaseStarted { .. } => s is SuiteStarted || s is CaseEnded,
        EventModel::CasePassed { .. } => s is CaseStarted,
        EventModel::CaseFailed { .. } => s is CaseStarted,
        EventModel::RunSummary { .. } => s is IterationEnded,
        EventModel::StreamEnded => false,
    }
}

/// A step emits an event only when the table lists that event's variant for
/// the current state; in particular no step ever emits the sentinel.
pub proof fn lemma_step_obeys_table(s: ParserState, line: Seq<char>)
    ensures
        (match spec_step(s, line).emit {
            Some(ev) => table_lists(s, ev),
            None => true,
        }),
        spec_step(s, line).emit != Some(EventModel::StreamEnded),
{
}

/// No event of a run is the sentinel: only closing the stream emits it.
pub proof fn lemma_run_never_emits_sentinel(s: ParserState, lines: Seq<Seq<char>>)
    ensures
        forall|k: int|
            0 <= k < run_model(s, lines).events.len() ==> #[trigger] run_model(
                s,
                lines,
            ).events[k] != EventModel::StreamEnded,
    decreases lines.len(),
{
    if lines.len() > 0 {
        let st = spec_step(s, lines[0]);
        if !st.failed {
            lemma_run_never_emits_sentinel(st.next, lines.drop_first());
            lemma_step_obeys_table(s, lines[0]);
            let rest = run_model(st.next, lines.drop_first());
            assert forall|k: int|
                0 <= k < run_model(s, lines).events.len() implies #[trigger] run_model(
                s,
                lines,
            ).events[k] != EventModel::StreamEnded by {
                let head = emit_seq(st.emit);
                if k >= head.len() {
                    assert(run_model(s, lines).events[k] == rest.events[k - head.len()]);
                }
            }
        }
    }
}

/// For every input, exactly one sentinel is emitted, and it is the last
/// event of the extracted sequence.
pub proof fn lemma_sentinel_once_and_last(lines: Seq<Seq<char>>)
    ensures
        extracted_events(lines).len() >= 1,
        extracted_events(lines).last() == EventModel::StreamEnded,
        forall|k: int|
            0 <= k < extracted_events(lines).len() - 1 ==> #[trigger] extracted_events(
                lines,
            )[k] != EventModel::StreamEnded,
{
    lemma_run_never_emits_sentinel(ParserState::Inactive, lines);
    let run = run_model(ParserState::Inactive, lines);
    assert forall|k: int|
        0 <= k < extracted_events(lines).len() - 1 implies #[trigger] extracted_events(
        lines,
    )[k] != EventModel::StreamEnded by {
        assert(extracted_events(lines)[k] == run.events[k]);
    }
}

/// Every event of a run was emitted by some step of the run, from a state
/// for which the table lists it.
pub proof fn lemma_run_events_listed(s: ParserState, lines: Seq<Seq<char>>)
    ensures
        forall|k: int|
            #![trigger run_model(s, lines).events[k]]
            0 <= k < run_model(s, lines).events.len() ==> exists|t: ParserState, j: int|
                0 <= j < lines.len() && (#[trigger] spec_step(t, lines[j])).emit == Some(
                    run_model(s, lines).events[k],
                ) && table_lists(t, run_model(s, lines).events[k]),
    decreases lines.len(),
{
    if lines.len() > 0 {
        let st = spec_step(s, lines[0]);
        if !st.failed {
            lemma_run_events_listed(st.next, lines.drop_first());
            lemma_step_obeys_table(s, lines[0]);
            let tail = lines.drop_first();
            let rest = run_model(st.next, tail);
            let head = emit_seq(st.emit);
            assert forall|k: int|
                #![trigger run_model(s, lines).events[k]]
                0 <= k < run_model(s, lines).events.len() implies exists|
                t: ParserState,
                j: int,
            |
                0 <= j < lines.len() && (#[trigger] spec_step(t, lines[j])).emit == Some(
                    run_model(s, lines).events[k],
                ) && table_lists(t, run_model(s, lines).events[k]) by {
                let ev = run_model(s, lines).events[k];
                if k < head.len() {
                    assert(ev == st.emit->Some_0);
                    assert(spec_step(s, lines[0]).emit == Some(ev) && table_lists(s, ev));
                } else {
                    assert(ev == rest.events[k - head.len()]);
                    let (t0, j0): (ParserState, int) = choose|t: ParserState, j: int|
                        0 <= j < tail.len() && (#[trigger] spec_step(t, tail[j])).emit == Some(
                            rest.events[k - head.len()],
                        ) && table_lists(t, rest.events[k - head.len()]);
                    assert(tail[j0] == lines[j0 + 1]);
                    assert(spec_step(t0, lines[j0 + 1]).emit == Some(ev) && table_lists(t0, ev));
                }
            }
        }
    }
}

/// The states in which a suite is open: every one of them is first reached
/// by emitting a suite-start event.
pub open spec fn in_suite_region(s: ParserState) -> bool {
    s is SuiteStarted || s is CaseStarted || s is CaseEnded || s is SuiteEnded
}

/// An event about a single case.
pub open spec fn is_case_event(ev: EventModel) -> bool {
    ev is CaseStarted || ev is CasePassed || ev is CaseFailed
}

/// Case events are emitted only while a suite is open, and the only way a
/// step opens the suite region from outside it is by emitting a
/// suite-start event.
pub proof fn lemma_step_suite_region(s: ParserState, line: Seq<char>)
    ensures
        (match spec_step(s, line).emit {
            Some(ev) => is_case_event(ev) ==> in_suite_region(s),
            None => true,
        }),
        (!spec_step(s, line).failed && in_suite_region(spec_step(s, line).next)
            && !in_suite_region(s)) ==> (match spec_step(s, line).emit {
            Some(ev) => ev is SuiteStarted,
            None => false,
        }),
{
}

/// In any run begun outside the suite region, every case event is preceded
/// by a suite-start event: the consumer always sees the suite opened before
/// any of its cases.
pub proof fn lemma_case_events_follow_a_suite(s: ParserState, lines: Seq<Seq<char>>)
    ensures
        forall|k: int|
            0 <= k < run_model(s, lines).events.len() && is_case_event(
                #[trigger] run_model(s, lines).events[k],
            ) ==> in_suite_region(s) || exists|j: int|
                0 <= j < k && (#[trigger] run_model(s, lines).events[j]) is SuiteStarted,
    decreases lines.len(),
{
    if lines.len() > 0 {
        let st = spec_step(s, lines[0]);
        if !st.failed {
            lemma_case_events_follow_a_suite(st.next, lines.drop_first());
            lemma_step_suite_region(s, lines[0]);
            let rest = run_model(st.next, lines.drop_first());
            let head = emit_seq(st.emit);
            assert forall|k: int|
                0 <= k < run_model(s, lines).events.len() && is_case_event(
                    #[trigger] run_model(s, lines).events[k],
                ) implies in_suite_region(s) || exists|j: int|
                0 <= j < k && (#[trigger] run_model(s, lines).events[j]) is SuiteStarted by {
                if !in_suite_region(s) {
                    let ev = run_model(s, lines).events[k];
                    if k < head.len() {
                        assert(in_suite_region(s));
                    } else {
                        assert(ev == rest.events[k - head.len()]);
                        if in_suite_region(st.next) {
                            assert(run_model(s, lines).events[0] == st.emit->Some_0);
                            assert(0 < k && run_model(s, lines).events[0] is SuiteStarted);
                        } else {
                            let j0 = choose|j: int|
                                0 <= j < k - head.len() && (#[trigger] rest.events[j])
                                    is SuiteStarted;
                            assert(run_model(s, lines).events[j0 + head.len()]
                                is SuiteStarted);
                            assert(0 <= j0 + head.len() < k);
                        }
                    }
                }
            }
        }
    }
}

/// From a fresh start, no case event precedes its suite's start event in
/// the extracted sequence.
pub proof fn lemma_no_case_before_its_suite(lines: Seq<Seq<char>>)
    ensures
        forall|k: int|
            0 <= k < extracted_events(lines).len() && is_case_event(
                #[trigger] extracted_events(lines)[k],
            ) ==> exists|j: int|
                0 <= j < k && (#[trigger] extracted_events(lines)[j]) is SuiteStarted,
{
    lemma_case_events_follow_a_suite(ParserState::Inactive, lines);
    let run = run_model(ParserState::Inactive, lines);
    assert forall|k: int|
        0 <= k < extracted_events(lines).len() && is_case_event(
            #[trigger] extracted_events(lines)[k],
        ) implies exists|j: int|
        0 <= j < k && (#[trigger] extracted_events(lines)[j]) is SuiteStarted by {
        assert(k < run.events.len());
        assert(extracted_events(lines)[k] == run.events[k]);
        let j0 = choose|j: int| 0 <= j < k && (#[trigger] run.events[j]) is SuiteStarted;
        assert(extracted_events(lines)[j0] == run.events[j0]);
    }
}

/// Extraction is a function of the input alone: two byte-identical inputs
/// fed to two fresh extractors yield identical event sequences.
pub proof fn lemma_extraction_deterministic(a: Seq<Seq<char>>, b: Seq<Seq<char>>)
    requires
        a == b,
    ensures
        extracted_events(a) == extracted_events(b),
{
}

/// The only structural failure is the mandatory iteration header failing
/// its body grammar; no other line can abort extraction, and a failing
/// line emits nothing and leaves the state as it was.
pub proof fn lemma_only_the_iteration_header_fails(s: ParserState, line: Seq<char>)
    ensures
        spec_step(s, line).failed <==> (s is Inactive && mark_matches(line, iteration_mark())
            && iteration_counts(line_body(line)) is None),
        spec_step(s, line).failed ==> spec_step(s, line) == (StepModel {
            next: s,
            emit: None,
            failed: true,
        }),
{
}

/// A line carrying no mark is ignored silently, whatever the state: no
/// state change, no event, no failure.
pub proof fn lemma_unrecognized_line_is_ignored(s: ParserState, line: Seq<char>)
    requires
        !mark_matches(line, iteration_mark()),
        !mark_matches(line, barrier_mark()),
        !mark_matches(line, run_mark()),
        !mark_matches(line, ok_mark()),
        !mark_matches(line, failed_mark()),
        !mark_matches(line, passed_mark()),
    ensures
        spec_step(s, line) == step_to(s),
{
}

/// Until the iteration header is seen the machine stays inactive, so
/// whenever a run emits anything at all, its first event opens the
/// iteration.
pub proof fn lemma_first_event_opens_iteration(lines: Seq<Seq<char>>)
    ensures
        run_model(ParserState::Inactive, lines).events.len() > 0 ==> run_model(
            ParserState::Inactive,
            lines,
        ).events[0] is IterationStarted,
    decreases lines.len(),
{
    if lines.len() > 0 {
        let st = spec_step(ParserState::Inactive, lines[0]);
        if !st.failed && st.emit is None {
            lemma_first_event_opens_iteration(lines.drop_first());
        }
    }
}

} // verus!
