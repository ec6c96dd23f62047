//! The aggregated model a display layer builds from the event stream: one
//! iteration holding suites in arrival order, each holding its finished
//! cases in arrival order, with the filter a render applies.
//!
//! Rendering itself (terminal control, styling) is presentation and lives
//! outside the library; everything that decides what the model holds and
//! which cases a render shows is here.
use crate::parser::ParserEvent;
use vstd::prelude::*;

verus! {

/// Outcome of a finished case; a failure carries its reason, which the
/// protocol leaves empty on the failure line itself.
#[derive(Debug, PartialEq, Eq)]
pub enum TestState {
    Passed,
    Failed(String),
}

/// One finished case.
#[derive(Debug)]
pub struct TestCase {
    pub name: String,
    pub duration: u64,
    pub state: TestState,
}

impl TestCase {
    pub fn new(name: String, duration: u64, state: TestState) -> (r: TestCase)
        ensures
            r.name == name,
            r.duration == duration,
            r.state == state,
    {
        TestCase { name, duration, state }
    }
}

/// A named suite and its finished cases, in arrival order.
#[derive(Debug)]
pub struct TestSuite {
    pub name: String,
    pub cases: Vec<TestCase>,
}

impl TestSuite {
    pub fn new(name: String) -> (r: TestSuite)
        ensures
            r.name == name,
            r.cases@ == Seq::<TestCase>::empty(),
    {
        TestSuite { name, cases: Vec::new() }
    }

    /// Indices, in order, of the cases a render should show under the
    /// given filter: exactly the displayable ones, each exactly once.
    pub fn visible_case_indices(&self, only_failed: bool) -> (r: Vec<usize>)
        ensures
            forall|a: int|
                0 <= a < r@.len() ==> r@[a] < self.cases@.len() && spec_should_display(
                    self.cases@[r@[a] as int],
                    only_failed,
                ),
            forall|a: int, b: int| 0 <= a < b < r@.len() ==> r@[a] < r@[b],
            forall|i: int|
                0 <= i < self.cases@.len() && spec_should_display(self.cases@[i], only_failed)
                    ==> r@.contains(i as usize),
    {
        let n = self.cases.len();
        let mut r: Vec<usize> = Vec::new();
        let mut j: usize = 0;
        while j < n
            invariant
                j <= n,
                n == self.cases@.len(),
                forall|a: int|
                    0 <= a < r@.len() ==> r@[a] < j && spec_should_display(
                        self.cases@[r@[a] as int],
                        only_failed,
                    ),
                forall|a: int, b: int| 0 <= a < b < r@.len() ==> r@[a] < r@[b],
                forall|i: int|
                    0 <= i < j && spec_should_display(self.cases@[i], only_failed)
                        ==> r@.contains(i as usize),
            decreases n - j,
        {
            let ghost old_r = r@;
            if should_display(&self.cases[j], only_failed) {
                r.push(j);
            }
            proof {
                assert forall|i: int|
                    0 <= i < j + 1 && spec_should_display(self.cases@[i], only_failed)
                        implies r@.contains(i as usize) by {
                    if i < j {
                        let a = choose|a: int| 0 <= a < old_r.len() && old_r[a] == i as usize;
                        assert(r@[a] == i as usize);
                    } else {
                        assert(r@[r@.len() - 1] == i as usize);
                    }
                }
            }
            j += 1;
        }
        r
    }
}

/// Should this case appear in a render that may be restricted to failures?
pub open spec fn spec_should_display(c: TestCase, only_failed: bool) -> bool {
    !only_failed || c.state is Failed
}

pub fn should_display(c: &TestCase, only_failed: bool) -> (r: bool)
    ensures
        r == spec_should_display(*c, only_failed),
{
    !only_failed || (match &c.state {
        TestState::Failed(_) => true,
        TestState::Passed => false,
    })
}

/// One full run of the test runner: its self-reported counts and its suites
/// in arrival order.
#[derive(Debug)]
pub struct TestIteration {
    pub num_suites: u64,
    pub num_cases: u64,
    pub suites: Vec<TestSuite>,
}

impl TestIteration {
    pub fn new() -> (r: TestIteration)
        ensures
            r.num_suites == 0,
            r.num_cases == 0,
            r.suites@ == Seq::<TestSuite>::empty(),
    {
        TestIteration { num_suites: 0, num_cases: 0, suites: Vec::new() }
    }
}

/// What the display layer was asked to do.
#[derive(Clone, Copy, Debug, PartialEq, Eq, Structural)]
pub struct Config {
    pub enable_ui: bool,
    pub only_failed: bool,
}

/// The display layer's whole state: its configuration and the aggregated
/// model of the current iteration.
#[derive(Debug)]
pub struct Ui {
    pub config: Config,
    pub iteration: TestIteration,
}

/// `post` is `pre` with the iteration header's counts recorded and nothing
/// else touched.
pub open spec fn spec_counts_set(pre: Ui, post: Ui, num_cases: u64, num_suites: u64) -> bool {
    &&& post.iteration.num_cases == num_cases
    &&& post.iteration.num_suites == num_suites
    &&& post.iteration.suites == pre.iteration.suites
    &&& post.config == pre.config
}

/// `post` is `pre` with one fresh, empty suite of the given name opened
/// after the existing ones, and nothing else touched.
pub open spec fn spec_suite_added(pre: Ui, post: Ui, name: String) -> bool {
    let ps = pre.iteration.suites@;
    let qs = post.iteration.suites@;
    &&& qs.len() == ps.len() + 1
    &&& (forall|i: int| 0 <= i < ps.len() ==> qs[i] == ps[i])
    &&& qs.last().name == name
    &&& qs.last().cases@ == Seq::<TestCase>::empty()
    &&& post.iteration.num_cases == pre.iteration.num_cases
    &&& post.iteration.num_suites == pre.iteration.num_suites
    &&& post.config == pre.config
}

/// `post` is `pre` with one finished case of the given fields appended to
/// the open suite, and nothing else touched.
pub open spec fn spec_case_added(
    pre: Ui,
    post: Ui,
    name: String,
    duration: u64,
    state: TestState,
) -> bool {
    let ps = pre.iteration.suites@;
    let qs = post.iteration.suites@;
    &&& ps.len() > 0
    &&& qs.len() == ps.len()
    &&& (forall|i: int| 0 <= i < ps.len() - 1 ==> qs[i] == ps[i])
    &&& qs.last().name == ps.last().name
    &&& qs.last().cases@.len() == ps.last().cases@.len() + 1
    &&& (forall|i: int| 0 <= i < ps.last().cases@.len() ==> qs.last().cases@[i]
        == ps.last().cases@[i])
    &&& qs.last().cases@.last().name == name
    &&& qs.last().cases@.last().duration == duration
    &&& qs.last().cases@.last().state == state
    &&& post.iteration.num_cases == pre.iteration.num_cases
    &&& post.iteration.num_suites == pre.iteration.num_suites
    &&& post.config == pre.config
}

impl Ui {
    pub fn new(config: Config) -> (r: Ui)
        ensures
            r.config == config,
            r.iteration.num_suites == 0,
            r.iteration.num_cases == 0,
            r.iteration.suites@ == Seq::<TestSuite>::empty(),
    {
        Ui { config, iteration: TestIteration::new() }
    }

    /// Records the iteration header's self-reported counts.
    pub fn init_iteration(&mut self, num_cases: u64, num_suites: u64)
        ensures
            final(self).iteration.num_cases == num_cases,
            final(self).iteration.num_suites == num_suites,
            final(self).iteration.suites == old(self).iteration.suites,
            final(self).config == old(self).config,
    {
        self.iteration.num_cases = num_cases;
        self.iteration.num_suites = num_suites;
    }

    /// Opens a new suite after the ones already seen.
    pub fn add_suite(&mut self, suite: TestSuite)
        ensures
            final(self).iteration.suites@ == old(self).iteration.suites@.push(suite),
            final(self).iteration.num_cases == old(self).iteration.num_cases,
            final(self).iteration.num_suites == old(self).iteration.num_suites,
            final(self).config == old(self).config,
    {
        self.iteration.suites.push(suite)
    }

    /// Appends a finished case to the currently open suite — the last one
    /// added.  Calling this with no open suite is a caller fault, ruled out
    /// here rather than discovered on an empty collection.
    pub fn add_case(&mut self, case: TestCase)
        requires
            old(self).iteration.suites@.len() > 0,
        ensures
            final(self).iteration.suites@.len() == old(self).iteration.suites@.len(),
            forall|i: int| 0 <= i < old(self).iteration.suites@.len() - 1 ==> final(self).iteration.suites@[i] == old(self).iteration.suites@[i],
            final(self).iteration.suites@.last().name == old(self).iteration.suites@.last().name,
            final(self).iteration.suites@.last().cases@ == old(self).iteration.suites@.last().cases@.push(case),
            final(self).iteration.num_cases == old(self).iteration.num_cases,
            final(self).iteration.num_suites == old(self).iteration.num_suites,
            final(self).config == old(self).config,
    {
        let mut suite = self.iteration.suites.pop().unwrap();
        suite.cases.push(case);
        self.iteration.suites.push(suite);
    }

    /// Applies one extractor event to the model and says whether it was the
    /// closing sentinel, after which no further event arrives.  A finished
    /// case may only arrive once a suite is open.
    pub fn apply_event(&mut self, event: ParserEvent) -> (done: bool)
        requires
            old(self).iteration.suites@.len() == 0 ==> !(event is CasePassed
                || event is CaseFailed),
        ensures
            done == (event is StreamEnded),
            (match event {
                ParserEvent::IterationStarted { case_count, suite_count } => spec_counts_set(*old(self), *final(self), case_count, suite_count),
                ParserEvent::SuiteStarted { case_count: _, name } => spec_suite_added(*old(self), *final(self), name),
                ParserEvent::CasePassed { name, duration_ms } => spec_case_added(*old(self), *final(self), name, duration_ms, TestState::Passed),
                ParserEvent::CaseFailed { name, duration_ms, reason } => spec_case_added(*old(self), *final(self), name, duration_ms, TestState::Failed(reason)),
                _ => *final(self) == *old(self),
            }),
    {
        match event {
            ParserEvent::IterationStarted { case_count, suite_count } => {
                self.init_iteration(case_count, suite_count);
                false
            },
            ParserEvent::SuiteStarted { case_count: _, name } => {
                self.add_suite(TestSuite::new(name));
                false
            },
            ParserEvent::CaseStarted { name: _ } => false,
            ParserEvent::CasePassed { name, duration_ms } => {
                self.add_case(TestCase::new(name, duration_ms, TestState::Passed));
                false
            },
            ParserEvent::CaseFailed { name, duration_ms, reason } => {
                self.add_case(TestCase::new(name, duration_ms, TestState::Failed(reason)));
                false
            },
            ParserEvent::RunSummary { passed_count: _ } => false,
            ParserEvent::StreamEnded => true,
        }
    }
}

} // verus!
