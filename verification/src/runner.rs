//! Running a batch of requests: the outcomes that a request can reach, and the books
//! that are kept while the tasks of a batch report in.

use std::sync::Arc;
use vstd::prelude::*;

use crate::api::http_request::{
    HttpRequest, HttpRequestBuilder, HttpRequestBuilderView, HttpRequestView,
};
use crate::batch::{
    all_completed, all_finished, fresh, is_reported, lemma_batch_reports, lemma_cancel_first_wf,
    lemma_one_run_per_report, lemma_replay_completed, lemma_replay_wf, lemma_report_wf,
    lemma_schedule_wf, replay, scheduled, scheduled_first, RunnerView, TaskEventView,
};
use crate::context::{Context, ContextView};

verus! {


/// All possible completion states of an HTTP request.
#[derive(Debug, PartialEq, Eq)]
pub enum HttpRequestRunResult {
    /// The request ran to completion. This does not say that it succeeded, only that
    /// there is a response.
    Completed {
        /// The rendered request that was sent.
        request: Option<HttpRequest>,
        /// How long the request took, in milliseconds.
        time_ms: u64,
        /// The status code of the response.
        status_code: u16,
    },
    /// The runner gave up on the request after a timeout.
    Timeout {
        /// How long the runner waited, in milliseconds.
        timeout_ms: u64,
        /// The rendered request that was sent.
        request: Option<HttpRequest>,
    },
    /// One of the hooks of the request failed.
    HookError {},
    /// The request was not run, though it was handed to the runner.
    Skipped {
        /// Why the request was skipped.
        reason: String,
    },
    /// The request was cancelled, by the runner or from outside.
    Cancelled {
        /// Why the request was cancelled.
        reason: String,
    },
}

/// The mathematical value of an [`HttpRequestRunResult`].
pub enum HttpRequestRunResultView {
    Completed { request: Option<HttpRequestView>, time_ms: u64, status_code: u16 },
    Timeout { timeout_ms: u64, request: Option<HttpRequestView> },
    HookError {},
    Skipped { reason: Seq<char> },
    Cancelled { reason: Seq<char> },
}

impl View for HttpRequestRunResult {
    type V = HttpRequestRunResultView;

    open spec fn view(&self) -> HttpRequestRunResultView {
        match self {
            HttpRequestRunResult::Completed { request, time_ms, status_code } => {
                HttpRequestRunResultView::Completed {
                    request: request.deep_view(),
                    time_ms: *time_ms,
                    status_code: *status_code,
                }
            },
            HttpRequestRunResult::Timeout { timeout_ms, request } => {
                HttpRequestRunResultView::Timeout {
                    timeout_ms: *timeout_ms,
                    request: request.deep_view(),
                }
            },
            HttpRequestRunResult::HookError {} => HttpRequestRunResultView::HookError {},
            HttpRequestRunResult::Skipped { reason } => HttpRequestRunResultView::Skipped {
                reason: reason@,
            },
            HttpRequestRunResult::Cancelled { reason } => HttpRequestRunResultView::Cancelled {
                reason: reason@,
            },
        }
    }
}

impl DeepView for HttpRequestRunResult {
    type V = HttpRequestRunResultView;

    open spec fn deep_view(&self) -> HttpRequestRunResultView {
        self.view()
    }
}

/// The result of running a single HTTP request.
#[derive(Debug, PartialEq, Eq)]
pub struct HttpRequestRun {
    /// The builder that specified the request.
    pub builder: Arc<HttpRequestBuilder>,
    /// The context that was provided to the builder.
    pub ctx: Arc<Context>,
    /// How the request ended.
    pub result: HttpRequestRunResult,
}

/// The mathematical value of an [`HttpRequestRun`].
pub struct HttpRequestRunView {
    pub builder: HttpRequestBuilderView,
    pub ctx: ContextView,
    pub result: HttpRequestRunResultView,
}

impl View for HttpRequestRun {
    type V = HttpRequestRunView;

    open spec fn view(&self) -> HttpRequestRunView {
        HttpRequestRunView { builder: self.builder@, ctx: self.ctx@, result: self.result@ }
    }
}

impl DeepView for HttpRequestRun {
    type V = HttpRequestRunView;

    open spec fn deep_view(&self) -> HttpRequestRunView {
        self.view()
    }
}

/// The result of a suite of requests.
#[derive(Debug, PartialEq, Eq)]
pub struct Run {
    /// How long the suite took in total, in milliseconds. The requests may run at the
    /// same time, so this is not the sum of their times.
    pub time_ms: u64,
    /// The runs of the requests of the suite, in the order in which they ended.
    pub runs: Vec<HttpRequestRun>,
}

/// The mathematical value of a [`Run`].
pub struct RunView {
    pub time_ms: u64,
    pub runs: Seq<HttpRequestRunView>,
}

impl View for Run {
    type V = RunView;

    open spec fn view(&self) -> RunView {
        RunView { time_ms: self.time_ms, runs: self.runs.deep_view() }
    }
}

impl DeepView for Run {
    type V = RunView;

    open spec fn deep_view(&self) -> RunView {
        self.view()
    }
}

/// Puts the outcome of a request together with what the request was made from.
pub fn run_request(
    builder: Arc<HttpRequestBuilder>,
    ctx: Arc<Context>,
    result: HttpRequestRunResult,
) -> (run: HttpRequestRun)
    ensures
        run@ == (HttpRequestRunView { builder: builder@, ctx: ctx@, result: result@ }),
{
    HttpRequestRun { builder, ctx, result }
}

/// What whoever drives the tasks has to do next.
#[derive(Debug, Clone, Copy, PartialEq, Eq, Structural)]
pub enum Directive {
    /// Tasks are still out: wait for the next to report.
    Continue,
    /// Every request of the batch has its run: the report can be drawn up.
    Complete,
    /// A task crashed: stop waiting and raise the crash again.
    Reraise,
}

/// What a task of the batch reports when it ends.
#[derive(Debug, PartialEq, Eq)]
pub enum TaskEvent {
    /// The task ran to its end and produced the outcome of its request.
    Finished(HttpRequestRunResult),
    /// The task ended abnormally: it crashed or was aborted.
    Crashed { reason: String },
}

impl View for TaskEvent {
    type V = TaskEventView;

    open spec fn view(&self) -> TaskEventView {
        match self {
            TaskEvent::Finished(result) => TaskEventView::Finished(result@),
            TaskEvent::Crashed { reason } => TaskEventView::Crashed { reason: reason@ },
        }
    }
}

impl DeepView for TaskEvent {
    type V = TaskEventView;

    open spec fn deep_view(&self) -> TaskEventView {
        self.view()
    }
}

/// `Arc::clone`, which makes another pointer to the same value.
#[verifier::external_body]
fn share<T>(pointer: &Arc<T>) -> (other: Arc<T>)
    ensures
        other == *pointer,
{
    Arc::clone(pointer)
}

/// The books of a batch of requests that run as concurrent tasks.
#[derive(Debug)]
pub struct Runner {
    ctx: Arc<Context>,
    builders: Vec<Arc<HttpRequestBuilder>>,
    ids: Vec<Option<u64>>,
    reported: Vec<bool>,
    arrivals: Vec<usize>,
    runs: Vec<HttpRequestRun>,
    aborted: bool,
}

impl View for Runner {
    type V = RunnerView;

    closed spec fn view(&self) -> RunnerView {
        RunnerView {
            ctx: self.ctx@,
            builders: self.builders.deep_view(),
            ids: self.ids@,
            reported: self.reported@,
            arrivals: self.arrivals@.map_values(|index: usize| index as int),
            runs: self.runs.deep_view(),
            aborted: self.aborted,
        }
    }
}

impl Runner {
    #[verifier::type_invariant]
    spec fn books_in_order(&self) -> bool {
        self@.wf()
    }

    /// The books of a batch before any task is scheduled.
    pub fn new(builders: Vec<HttpRequestBuilder>, ctx: Context) -> (runner: Runner)
        ensures
            runner@ == fresh(builders.deep_view(), ctx@),
            runner@.wf(),
    {
        let ghost batch = builders.deep_view();
        let mut shared: Vec<Arc<HttpRequestBuilder>> = Vec::new();
        let mut ids: Vec<Option<u64>> = Vec::new();
        let mut reported: Vec<bool> = Vec::new();
        for builder in it: builders
            invariant
                batch == it.seq().map_values(|b: HttpRequestBuilder| b@),
                shared.deep_view() == batch.take(it.index() as int),
                ids@ == Seq::new(it.index() as nat, |i: int| None::<u64>),
                reported@ == Seq::new(it.index() as nat, |i: int| false),
        {
            let ghost before = shared.deep_view();
            shared.push(Arc::new(builder));
            ids.push(None);
            reported.push(false);
            assert(shared.deep_view() == before.push(builder@));
        }
        let runner = Runner {
            ctx: Arc::new(ctx),
            builders: shared,
            ids,
            reported,
            arrivals: Vec::new(),
            runs: Vec::new(),
            aborted: false,
        };
        assert(runner@ =~= fresh(batch, ctx@));
        runner
    }

    /// The number of requests in the batch.
    pub fn len(&self) -> (n: usize)
        ensures
            n == self@.builders.len(),
            self@.wf(),
    {
        proof {
            use_type_invariant(self);
        }
        self.builders.len()
    }

    /// What the task of the builder `index` is to work on: the builder and the context
    /// of the batch, both shared with these books.
    pub fn task(&self, index: usize) -> (work: Option<(Arc<HttpRequestBuilder>, Arc<Context>)>)
        ensures
            work.deep_view() == if index < self@.builders.len() {
                Some((self@.builders[index as int], self@.ctx))
            } else {
                None
            },
    {
        if index < self.builders.len() {
            Some((share(&self.builders[index]), share(&self.ctx)))
        } else {
            None
        }
    }

    /// What is to be done next.
    pub fn directive(&self) -> (directive: Directive)
        ensures
            directive == self@.directive(),
    {
        if self.aborted {
            Directive::Reraise
        } else if self.runs.len() == self.builders.len() {
            Directive::Complete
        } else {
            Directive::Continue
        }
    }

    fn find(&self, id: u64) -> (found: Option<usize>)
        ensures
            self@.wf(),
            found.is_some() ==> found.unwrap() < self@.builders.len(),
            match found {
                Some(index) => self@.task_of(id) == Some(index as int),
                None => self@.task_of(id).is_none(),
            },
    {
        proof {
            use_type_invariant(self);
        }
        let mut i: usize = 0;
        while i < self.ids.len()
            invariant
                0 <= i <= self.ids.len(),
                self@.wf(),
                forall|j: int| 0 <= j < i ==> self.ids@[j] != Some(id),
            decreases self.ids.len() - i,
        {
            let known = match self.ids[i] {
                Some(known) => known == id,
                None => false,
            };
            if known {
                proof {
                    let chosen = choose|j: int| 0 <= j < self@.ids.len() && self@.ids[j] == Some(id);
                    assert(self@.ids[i as int] == Some(id));
                    assert(chosen == i);
                }
                return Some(i);
            }
            i += 1;
        }
        None
    }

    /// Enters the task of the builder `index` under the identity `id`. Says whether it
    /// did: it does not once a run is recorded, where there is no such builder, where
    /// the builder has a task already, and where another task is known as `id`.
    pub fn schedule(self, index: usize, id: u64) -> (next: (Runner, bool))
        ensures
            next.1 == self@.can_schedule(index as int, id),
            next.0@ == self@.schedule(index as int, id),
            next.0@.wf(),
    {
        proof {
            use_type_invariant(&self);
            lemma_schedule_wf(self@, index as int, id);
        }
        if self.aborted || self.runs.len() > 0 || index >= self.builders.len()
            || self.ids[index].is_some() {
            return (self, false);
        }
        if self.find(id).is_some() {
            return (self, false);
        }
        let ghost before = self@;
        let Runner { ctx, builders, ids, reported, arrivals, runs, aborted } = self;
        let mut ids = ids;
        ids.set(index, Some(id));
        let next = Runner { ctx, builders, ids, reported, arrivals, runs, aborted };
        assert(next@ == before.schedule(index as int, id));
        (next, true)
    }

    /// Takes the report `event` of the task known as `id` and says what is to be done
    /// next. A task that finished leaves a run with its outcome; a task that crashed
    /// leaves a cancelled run with the reason of the crash, and from then on nothing
    /// is recorded any more.
    pub fn report(self, id: u64, event: TaskEvent) -> (next: (Runner, Directive))
        ensures
            next.0@ == self@.report(id, event@),
            next.1 == next.0@.directive(),
            next.0@.wf(),
    {
        proof {
            use_type_invariant(&self);
            lemma_report_wf(self@, id, event@);
        }
        if self.aborted {
            return (self, Directive::Reraise);
        }
        let index = match self.find(id) {
            Some(index) => index,
            None => {
                let directive = self.directive();
                return (self, directive);
            },
        };
        if self.reported[index] {
            let directive = self.directive();
            return (self, directive);
        }
        let ghost before = self@;
        let builder = share(&self.builders[index]);
        let shared_ctx = share(&self.ctx);
        let Runner { ctx, builders, ids, reported, arrivals, runs, aborted: _ } = self;
        let mut reported = reported;
        let mut arrivals = arrivals;
        let mut runs = runs;
        let (result, crashed) = match event {
            TaskEvent::Finished(result) => (result, false),
            TaskEvent::Crashed { reason } => (HttpRequestRunResult::Cancelled { reason }, true),
        };
        let ghost runs_before = runs.deep_view();
        let ghost arrivals_before = arrivals@.map_values(|index: usize| index as int);
        let run = run_request(builder, shared_ctx, result);
        runs.push(run);
        reported.set(index, true);
        arrivals.push(index);
        assert(runs.deep_view() == runs_before.push(run@));
        assert(arrivals@.map_values(|index: usize| index as int) == arrivals_before.push(
            index as int,
        ));
        let next = Runner { ctx, builders, ids, reported, arrivals, runs, aborted: crashed };
        assert(next@ == before.record(index as int, event@));
        let directive = next.directive();
        (next, directive)
    }

    /// Cancels, from outside, whatever has not reported: every builder without a run
    /// gets a cancelled one with the reason `reason`. The runs that are there stay as
    /// they are, and no builder gets a second one.
    pub fn cancel(self, reason: &str) -> (next: Runner)
        ensures
            next@ == self@.cancel(reason@),
            next@.wf(),
    {
        proof {
            use_type_invariant(&self);
        }
        if self.aborted {
            return self;
        }
        let ghost before = self@;
        let Runner { ctx, builders, ids, reported, arrivals, runs, aborted } = self;
        let mut reported = reported;
        let mut arrivals = arrivals;
        let mut runs = runs;
        let mut i: usize = 0;
        while i < builders.len()
            invariant
                0 <= i <= builders.len(),
                before.wf(),
                !before.aborted,
                builders.deep_view() == before.builders,
                before.cancel_first(i as int, reason@) == (RunnerView {
                    ctx: ctx@,
                    builders: builders.deep_view(),
                    ids: ids@,
                    reported: reported@,
                    arrivals: arrivals@.map_values(|index: usize| index as int),
                    runs: runs.deep_view(),
                    aborted: false,
                }),
            decreases builders.len() - i,
        {
            proof {
                lemma_cancel_first_wf(before, i as int, reason@);
            }
            if !reported[i] {
                let ghost runs_before = runs.deep_view();
                let ghost arrivals_before = arrivals@.map_values(|index: usize| index as int);
                let result = HttpRequestRunResult::Cancelled { reason: reason.to_owned() };
                let run = run_request(share(&builders[i]), share(&ctx), result);
                runs.push(run);
                reported.set(i, true);
                arrivals.push(i);
                assert(runs.deep_view() == runs_before.push(run@));
                assert(arrivals@.map_values(|index: usize| index as int) == arrivals_before.push(
                    i as int,
                ));
            }
            i += 1;
        }
        proof {
            lemma_cancel_first_wf(before, i as int, reason@);
        }
        Runner { ctx, builders, ids, reported, arrivals, runs, aborted: false }
    }

    /// Draws up the report of the batch, which took `elapsed_ms` milliseconds: the runs
    /// recorded so far, in the order in which they came.
    pub fn finish(self, elapsed_ms: u64) -> (run: Run)
        ensures
            run@ == (RunView { time_ms: elapsed_ms, runs: self@.runs }),
    {
        Run { time_ms: elapsed_ms, runs: self.runs }
    }
}

/// Keeps the books of a whole batch: the task of each builder is known by the place of
/// the builder in the batch, the reports come in as `reports` says, each with the
/// identity of the task that makes it, and the batch takes `elapsed_ms` milliseconds.
/// Where every task runs to its end and reports, the report has exactly one run for
/// each builder; where every report is of a completed request, every run is a completed
/// one.
pub fn run(
    builders: Vec<HttpRequestBuilder>,
    ctx: Context,
    reports: Vec<(u64, TaskEvent)>,
    elapsed_ms: u64,
) -> (run: Run)
    ensures
        run@ == (RunView {
            time_ms: elapsed_ms,
            runs: replay(scheduled(builders.deep_view(), ctx@), reports.deep_view()).runs,
        }),
        run@.runs.len() <= builders.len(),
        all_finished(reports.deep_view()) && (forall|i: int|
            0 <= i < builders.len() ==> #[trigger] is_reported(reports.deep_view(), i)) ==> run@.runs.len()
            == builders.len(),
        all_completed(reports.deep_view()) ==> forall|k: int|
            0 <= k < run@.runs.len() ==> (#[trigger] run@.runs[k]).result is Completed,
{
    let ghost batch = builders.deep_view();
    let ghost told = reports.deep_view();
    let mut runner = Runner::new(builders, ctx);
    let n = runner.len();
    let mut i: usize = 0;
    while i < n
        invariant
            0 <= i <= n,
            n == batch.len(),
            runner@ == scheduled_first(batch, ctx@, i as int),
        decreases n - i,
    {
        assert(runner@.can_schedule(i as int, i as u64));
        let (next, _) = runner.schedule(i, i as u64);
        runner = next;
        assert(runner@ =~= scheduled_first(batch, ctx@, i + 1));
        i += 1;
    }
    let ghost start = runner@;
    for report in it: reports
        invariant
            told == it.seq().map_values(|report: (u64, TaskEvent)| report.deep_view()),
            runner@ == replay(start, told.take(it.index() as int)),
    {
        proof {
            assert(told.take(it.index() + 1).drop_last() == told.take(it.index() as int));
        }
        let (next, _) = runner.report(report.0, report.1);
        runner = next;
    }
    proof {
        assert(told.take(told.len() as int) == told);
        lemma_replay_wf(start, told);
        lemma_one_run_per_report(replay(start, told));
        if all_finished(told) && (forall|i: int|
            0 <= i < batch.len() ==> #[trigger] is_reported(told, i)) {
            assert forall|i: int| 0 <= i < start.builders.len() implies exists|k: int|
                0 <= k < told.len() && #[trigger] start.ids[i] == Some((#[trigger] told[k]).0) by {
                assert(is_reported(told, i));
                let k = choose|k: int| 0 <= k < told.len() && (#[trigger] told[k]).0 == i;
                assert(start.ids[i] == Some(told[k].0));
            }
            lemma_batch_reports(start, told);
        }
        if all_completed(told) {
            lemma_replay_completed(start, told);
        }
    }
    runner.finish(elapsed_ms)
}

} // verus!
