//! The mathematical model of a batch of requests that is being run, and what holds of
//! it.

use vstd::prelude::*;
use vstd::set_lib::{lemma_int_range, lemma_len_subset, lemma_subset_equality, set_int_range};

use crate::api::http_request::HttpRequestBuilderView;
use crate::context::ContextView;
use crate::runner::{Directive, HttpRequestRunResultView, HttpRequestRunView};

verus! {

/// The mathematical value of a [`TaskEvent`].
pub enum TaskEventView {
    Finished(HttpRequestRunResultView),
    Crashed { reason: Seq<char> },
}

impl TaskEventView {
    /// The outcome that is recorded for a task that reported this: its own where it
    /// finished, a cancellation with the reason of the crash where it crashed.
    pub open spec fn outcome(self) -> HttpRequestRunResultView {
        match self {
            TaskEventView::Finished(result) => result,
            TaskEventView::Crashed { reason } => HttpRequestRunResultView::Cancelled { reason },
        }
    }
}

/// The mathematical value of a [`Runner`].
#[verifier::ext_equal]
pub struct RunnerView {
    /// The context of the batch.
    pub ctx: ContextView,
    /// The builders of the batch, in the order in which they were handed in.
    pub builders: Seq<HttpRequestBuilderView>,
    /// For each builder the identity of its task, once the task is scheduled.
    pub ids: Seq<Option<u64>>,
    /// For each builder whether its task has reported.
    pub reported: Seq<bool>,
    /// The builders whose tasks have reported, in the order of the reports.
    pub arrivals: Seq<int>,
    /// The runs recorded so far, in the order of the reports.
    pub runs: Seq<HttpRequestRunView>,
    /// Whether a task has crashed.
    pub aborted: bool,
}

impl RunnerView {
    /// The books are in order: each task is known under its own identity, each report
    /// has left exactly one run, and that run belongs to the builder of the task.
    pub open spec fn wf(self) -> bool {
        &&& self.ids.len() == self.builders.len()
        &&& self.reported.len() == self.builders.len()
        &&& self.arrivals.len() == self.runs.len()
        &&& forall|i: int, j: int|
            0 <= i < j < self.ids.len() && self.ids[i] is Some ==> self.ids[i] != self.ids[j]
        &&& forall|i: int|
            0 <= i < self.reported.len() && self.reported[i] ==> self.arrivals.contains(i)
        &&& forall|k: int|
            0 <= k < self.arrivals.len() ==> {
                &&& 0 <= (#[trigger] self.arrivals[k]) < self.builders.len()
                &&& self.reported[self.arrivals[k]]
                &&& self.runs[k].builder == self.builders[self.arrivals[k]]
                &&& self.runs[k].ctx == self.ctx
            }
        &&& self.arrivals.no_duplicates()
        &&& self.aborted ==> self.runs.len() > 0 && self.runs.last().result is Cancelled
    }

    /// The builder whose task is known as `id`, if there is one.
    pub open spec fn task_of(self, id: u64) -> Option<int> {
        if exists|i: int| 0 <= i < self.ids.len() && self.ids[i] == Some(id) {
            Some(choose|i: int| 0 <= i < self.ids.len() && self.ids[i] == Some(id))
        } else {
            None
        }
    }

    /// What is to be done next.
    pub open spec fn directive(self) -> Directive {
        if self.aborted {
            Directive::Reraise
        } else if self.runs.len() == self.builders.len() {
            Directive::Complete
        } else {
            Directive::Continue
        }
    }

    /// Whether the task of the builder `index` can be entered under `id`: nothing has
    /// been recorded yet, the builder has no task yet, and no task is known as `id`.
    pub open spec fn can_schedule(self, index: int, id: u64) -> bool {
        &&& !self.aborted
        &&& self.runs.len() == 0
        &&& 0 <= index < self.builders.len()
        &&& self.ids[index] is None
        &&& self.task_of(id) is None
    }

    /// The books after the task of the builder `index` was entered under `id`.
    pub open spec fn schedule(self, index: int, id: u64) -> RunnerView {
        if self.can_schedule(index, id) {
            RunnerView { ids: self.ids.update(index, Some(id)), ..self }
        } else {
            self
        }
    }

    /// The books after the run of the builder `index` was recorded.
    pub open spec fn record(self, index: int, event: TaskEventView) -> RunnerView {
        RunnerView {
            reported: self.reported.update(index, true),
            arrivals: self.arrivals.push(index),
            runs: self.runs.push(
                HttpRequestRunView {
                    builder: self.builders[index],
                    ctx: self.ctx,
                    result: event.outcome(),
                },
            ),
            aborted: event is Crashed,
            ..self
        }
    }

    /// The books after a cancelled run was recorded for each of the first `n` builders
    /// that had none.
    pub open spec fn cancel_first(self, n: int, reason: Seq<char>) -> RunnerView
        decreases n,
    {
        if n <= 0 {
            self
        } else {
            let before = self.cancel_first(n - 1, reason);
            if before.reported[n - 1] {
                before
            } else {
                before.record(
                    n - 1,
                    TaskEventView::Finished(HttpRequestRunResultView::Cancelled { reason }),
                )
            }
        }
    }

    /// The books after the batch was cancelled from outside: every builder without a
    /// run gets a cancelled one, in the order of the batch. Once a task has crashed
    /// nothing is recorded any more.
    pub open spec fn cancel(self, reason: Seq<char>) -> RunnerView {
        if self.aborted {
            self
        } else {
            self.cancel_first(self.builders.len() as int, reason)
        }
    }

    /// The books after the task known as `id` reported `event`. Once a task has crashed
    /// nothing is recorded any more; a report under an unknown identity, or a second
    /// report of a task, is passed over.
    pub open spec fn report(self, id: u64, event: TaskEventView) -> RunnerView {
        if self.aborted {
            self
        } else {
            match self.task_of(id) {
                Some(index) => if self.reported[index] {
                    self
                } else {
                    self.record(index, event)
                },
                None => self,
            }
        }
    }
}

/// Entering a task keeps the books in order.
pub proof fn lemma_schedule_wf(books: RunnerView, index: int, id: u64)
    requires
        books.wf(),
    ensures
        books.schedule(index, id).wf(),
{
    if books.can_schedule(index, id) {
        let next = books.schedule(index, id);
        assert forall|i: int, j: int|
            0 <= i < j < next.ids.len() && next.ids[i] is Some implies next.ids[i] != next.ids[j] by {
            if i == index {
                assert(books.ids[j] != Some(id));
            } else if j == index {
                assert(books.ids[i] != Some(id));
            }
        }
    }
}

/// Taking a report keeps the books in order.
pub proof fn lemma_report_wf(books: RunnerView, id: u64, event: TaskEventView)
    requires
        books.wf(),
    ensures
        books.report(id, event).wf(),
{
    if books.report(id, event) != books {
        lemma_record_wf(books, books.task_of(id)->0, event);
    }
}

/// Recording a run for a builder that has none keeps the books in order.
pub proof fn lemma_record_wf(books: RunnerView, index: int, event: TaskEventView)
    requires
        books.wf(),
        0 <= index < books.builders.len(),
        !books.reported[index],
    ensures
        books.record(index, event).wf(),
{
    let next = books.record(index, event);
    assert(next.arrivals.no_duplicates()) by {
        assert forall|k: int, l: int|
            0 <= k < next.arrivals.len() && 0 <= l < next.arrivals.len() && k != l implies next.arrivals[k]
            != next.arrivals[l] by {
            if k < books.arrivals.len() {
                assert(books.reported[books.arrivals[k]]);
            }
            if l < books.arrivals.len() {
                assert(books.reported[books.arrivals[l]]);
            }
        }
    }
    assert forall|i: int| 0 <= i < next.reported.len() && next.reported[i] implies next.arrivals.contains(
        i,
    ) by {
        if i == index {
            assert(next.arrivals[books.arrivals.len() as int] == i);
        } else {
            assert(books.arrivals.contains(i));
            let k = choose|k: int| 0 <= k < books.arrivals.len() && books.arrivals[k] == i;
            assert(next.arrivals[k] == i);
        }
    }
    assert forall|k: int| 0 <= k < next.arrivals.len() implies {
        &&& 0 <= (#[trigger] next.arrivals[k]) < next.builders.len()
        &&& next.reported[next.arrivals[k]]
        &&& next.runs[k].builder == next.builders[next.arrivals[k]]
        &&& next.runs[k].ctx == next.ctx
    } by {
        if k < books.arrivals.len() {
            assert(books.reported[books.arrivals[k]]);
            assert(next.runs[k] == books.runs[k]);
        }
    }
}

/// Cancelling keeps the books in order, keeps the runs that are there, and leaves
/// exactly the builders behind the cancelled ones as they were.
pub proof fn lemma_cancel_first_wf(books: RunnerView, n: int, reason: Seq<char>)
    requires
        books.wf(),
        !books.aborted,
        n <= books.builders.len(),
    ensures
        books.cancel_first(n, reason).wf(),
        !books.cancel_first(n, reason).aborted,
        books.cancel_first(n, reason).builders == books.builders,
        books.cancel_first(n, reason).ctx == books.ctx,
        books.cancel_first(n, reason).ids == books.ids,
        books.runs.is_prefix_of(books.cancel_first(n, reason).runs),
        forall|i: int|
            0 <= i < books.builders.len() ==> (#[trigger] books.cancel_first(n, reason).reported[i] <==> (
            books.reported[i] || i < n)),
    decreases n,
{
    if n > 0 {
        lemma_cancel_first_wf(books, n - 1, reason);
        let before = books.cancel_first(n - 1, reason);
        if !before.reported[n - 1] {
            lemma_record_wf(
                before,
                n - 1,
                TaskEventView::Finished(HttpRequestRunResultView::Cancelled { reason }),
            );
        }
    }
}

/// After a batch in which no task has crashed is cancelled, every builder has exactly
/// one run, the runs that were there come first and unchanged, and nothing is left to
/// wait for.
pub proof fn lemma_cancel_completes(books: RunnerView, reason: Seq<char>)
    requires
        books.wf(),
        !books.aborted,
    ensures
        books.cancel(reason).wf(),
        books.cancel(reason).runs.len() == books.builders.len(),
        books.runs.is_prefix_of(books.cancel(reason).runs),
        books.cancel(reason).directive() == Directive::Complete,
        forall|k: int|
            books.runs.len() <= k < books.cancel(reason).runs.len() ==> (#[trigger] books.cancel(
                reason,
            ).runs[k]).result == (HttpRequestRunResultView::Cancelled { reason }),
{
    lemma_cancel_first_wf(books, books.builders.len() as int, reason);
    lemma_one_run_per_report(books.cancel(reason));
    lemma_cancel_first_runs(books, books.builders.len() as int, reason);
}

/// Every run that cancelling adds is a cancelled one with the given reason.
proof fn lemma_cancel_first_runs(books: RunnerView, n: int, reason: Seq<char>)
    requires
        books.wf(),
        !books.aborted,
        n <= books.builders.len(),
    ensures
        books.runs.len() <= books.cancel_first(n, reason).runs.len(),
        forall|k: int|
            books.runs.len() <= k < books.cancel_first(n, reason).runs.len() ==> (
            #[trigger] books.cancel_first(n, reason).runs[k]).result == (
            HttpRequestRunResultView::Cancelled { reason }),
    decreases n,
{
    if n > 0 {
        lemma_cancel_first_runs(books, n - 1, reason);
    }
}

/// There is one run for each task that has reported, and none besides: the runs are
/// never more than the builders, and they are as many exactly when every task has
/// reported.
pub proof fn lemma_one_run_per_report(books: RunnerView)
    requires
        books.wf(),
    ensures
        books.runs.len() <= books.builders.len(),
        books.runs.len() == books.builders.len() <==> (forall|i: int|
            0 <= i < books.builders.len() ==> books.reported[i]),
        forall|i: int|
            0 <= i < books.builders.len() && books.reported[i] ==> exists|k: int|
                0 <= k < books.runs.len() && #[trigger] books.arrivals[k] == i && books.runs[k].builder
                    == books.builders[i],
        forall|k: int, l: int|
            0 <= k < l < books.runs.len() ==> books.arrivals[k] != books.arrivals[l],
{
    let came = books.arrivals.to_set();
    let all = set_int_range(0, books.builders.len() as int);
    books.arrivals.unique_seq_to_set();
    lemma_int_range(0, books.builders.len() as int);
    assert(came.subset_of(all)) by {
        assert forall|i: int| came.contains(i) implies all.contains(i) by {
            let k = choose|k: int| 0 <= k < books.arrivals.len() && books.arrivals[k] == i;
            assert(0 <= books.arrivals[k] < books.builders.len());
        }
    }
    lemma_len_subset(came, all);
    if books.runs.len() == books.builders.len() {
        lemma_subset_equality(came, all);
        assert forall|i: int| 0 <= i < books.builders.len() implies books.reported[i] by {
            assert(all.contains(i));
            assert(came.contains(i));
            let k = choose|k: int| 0 <= k < books.arrivals.len() && books.arrivals[k] == i;
            assert(books.reported[books.arrivals[k]]);
        }
    }
    if forall|i: int| 0 <= i < books.builders.len() ==> books.reported[i] {
        assert(all.subset_of(came)) by {
            assert forall|i: int| all.contains(i) implies came.contains(i) by {
                assert(books.reported[i]);
                assert(books.arrivals.contains(i));
            }
        }
        lemma_len_subset(all, came);
    }
    assert forall|i: int| 0 <= i < books.builders.len() && books.reported[i] implies exists|k: int|
        0 <= k < books.runs.len() && #[trigger] books.arrivals[k] == i && books.runs[k].builder
            == books.builders[i] by {
        assert(books.arrivals.contains(i));
        let k = choose|k: int| 0 <= k < books.arrivals.len() && books.arrivals[k] == i;
        assert(books.arrivals[k] == i && books.runs[k].builder == books.builders[i]);
    }
}

/// The books of a batch before any task is scheduled.
pub open spec fn fresh(builders: Seq<HttpRequestBuilderView>, ctx: ContextView) -> RunnerView {
    scheduled_first(builders, ctx, 0)
}

/// The books of a batch in which the task of each builder is known by the place of the
/// builder in the batch, and nothing has been reported.
pub open spec fn scheduled(builders: Seq<HttpRequestBuilderView>, ctx: ContextView) -> RunnerView {
    scheduled_first(builders, ctx, builders.len() as int)
}

/// The books of a batch in which the tasks of the first `n` builders are known by the
/// places of their builders, and nothing has been reported.
pub open spec fn scheduled_first(
    builders: Seq<HttpRequestBuilderView>,
    ctx: ContextView,
    n: int,
) -> RunnerView {
    RunnerView {
        ctx,
        builders,
        ids: Seq::new(
            builders.len(),
            |i: int|
                if i < n {
                    Some(i as u64)
                } else {
                    None
                },
        ),
        reported: Seq::new(builders.len(), |i: int| false),
        arrivals: Seq::empty(),
        runs: Seq::empty(),
        aborted: false,
    }
}

/// The books after the reports `reports` came in, in order; each is the identity of a
/// task with what the task reported.
pub open spec fn replay(books: RunnerView, reports: Seq<(u64, TaskEventView)>) -> RunnerView
    decreases reports.len(),
{
    if reports.len() == 0 {
        books
    } else {
        replay(books, reports.drop_last()).report(reports.last().0, reports.last().1)
    }
}

/// Every report says that a task ran to its end.
pub open spec fn all_finished(reports: Seq<(u64, TaskEventView)>) -> bool {
    forall|k: int| 0 <= k < reports.len() ==> (#[trigger] reports[k]).1 is Finished
}

/// Every report says that a task finished and that its request completed.
pub open spec fn all_completed(reports: Seq<(u64, TaskEventView)>) -> bool {
    forall|k: int|
        0 <= k < reports.len() ==> (#[trigger] reports[k]).1 is Finished && reports[k].1->0 is Completed
}

/// Some report is made under the identity `id`.
pub open spec fn is_reported(reports: Seq<(u64, TaskEventView)>, id: int) -> bool {
    exists|k: int| 0 <= k < reports.len() && (#[trigger] reports[k]).0 == id
}

/// Whatever is reported, the books stay in order, the batch stays the batch, the tasks
/// keep their identities, and the runs that are there stay as they are.
pub proof fn lemma_replay_wf(books: RunnerView, reports: Seq<(u64, TaskEventView)>)
    requires
        books.wf(),
    ensures
        replay(books, reports).wf(),
        replay(books, reports).builders == books.builders,
        replay(books, reports).ctx == books.ctx,
        replay(books, reports).ids == books.ids,
        books.runs.is_prefix_of(replay(books, reports).runs),
    decreases reports.len(),
{
    if reports.len() > 0 {
        lemma_replay_wf(books, reports.drop_last());
        lemma_report_wf(replay(books, reports.drop_last()), reports.last().0, reports.last().1);
    }
}

/// While tasks finish, the books stay in order, no task counts as crashed, and a task
/// has reported exactly if it had before or one of the reports is its own.
pub proof fn lemma_replay_finished(books: RunnerView, reports: Seq<(u64, TaskEventView)>)
    requires
        books.wf(),
        !books.aborted,
        all_finished(reports),
    ensures
        replay(books, reports).wf(),
        !replay(books, reports).aborted,
        replay(books, reports).builders == books.builders,
        replay(books, reports).ctx == books.ctx,
        replay(books, reports).ids == books.ids,
        forall|i: int|
            0 <= i < books.builders.len() ==> (#[trigger] replay(books, reports).reported[i] <==> (
            books.reported[i] || exists|k: int|
                0 <= k < reports.len() && books.ids[i] == Some((#[trigger] reports[k]).0))),
        forall|k: int|
            0 <= k < replay(books, reports).runs.len() ==> (k < books.runs.len() && #[trigger] replay(
                books,
                reports,
            ).runs[k] == books.runs[k]) || exists|l: int|
                0 <= l < reports.len() && replay(books, reports).runs[k].result == (
                #[trigger] reports[l]).1.outcome(),
    decreases reports.len(),
{
    if reports.len() > 0 {
        let front = reports.drop_last();
        let last = reports[reports.len() - 1];
        assert forall|k: int| 0 <= k < front.len() implies (#[trigger] front[k]).1 is Finished by {
            assert(front[k] == reports[k]);
        }
        lemma_replay_finished(books, front);
        let middle = replay(books, front);
        let end = replay(books, reports);
        assert(end == middle.report(last.0, last.1));
        lemma_report_wf(middle, last.0, last.1);
        assert forall|i: int| 0 <= i < books.builders.len() implies (#[trigger] end.reported[i] <==> (
        books.reported[i] || exists|k: int|
            0 <= k < reports.len() && books.ids[i] == Some((#[trigger] reports[k]).0))) by {
            if middle.reported[i] && !books.reported[i] {
                let k = choose|k: int|
                    0 <= k < front.len() && books.ids[i] == Some((#[trigger] front[k]).0);
                assert(reports[k] == front[k]);
            }
            if books.ids[i] == Some(last.0) {
                assert(middle.task_of(last.0) == Some(i)) by {
                    let chosen = middle.task_of(last.0)->0;
                    if chosen < i {
                        assert(middle.ids[chosen] != middle.ids[i]);
                    } else if i < chosen {
                        assert(middle.ids[i] != middle.ids[chosen]);
                    }
                }
                assert(reports[reports.len() - 1].0 == last.0);
            }
            if end.reported[i] && !middle.reported[i] {
                assert(middle.task_of(last.0) == Some(i));
                assert(books.ids[i] == Some(reports[reports.len() - 1].0));
            }
            if exists|k: int| 0 <= k < reports.len() && books.ids[i] == Some((#[trigger] reports[k]).0) {
                let k = choose|k: int|
                    0 <= k < reports.len() && books.ids[i] == Some((#[trigger] reports[k]).0);
                if k < front.len() {
                    assert(front[k] == reports[k]);
                    assert(middle.reported[i]);
                }
            }
        }
        assert forall|k: int| 0 <= k < end.runs.len() implies (k < books.runs.len() && #[trigger] end.runs[k]
            == books.runs[k]) || exists|l: int|
            0 <= l < reports.len() && end.runs[k].result == (#[trigger] reports[l]).1.outcome() by {
            if k < middle.runs.len() {
                assert(end.runs[k] == middle.runs[k]);
                if !(k < books.runs.len() && middle.runs[k] == books.runs[k]) {
                    let l = choose|l: int|
                        0 <= l < front.len() && middle.runs[k].result == (#[trigger] front[l]).1.outcome();
                    assert(reports[l] == front[l]);
                }
            } else {
                assert(end.runs[k].result == reports[reports.len() - 1].1.outcome());
            }
        }
    }
}

/// While tasks report completed requests, every run that is added is a completed one.
pub proof fn lemma_replay_completed(books: RunnerView, reports: Seq<(u64, TaskEventView)>)
    requires
        books.wf(),
        all_completed(reports),
    ensures
        books.runs.len() <= replay(books, reports).runs.len(),
        forall|k: int|
            books.runs.len() <= k < replay(books, reports).runs.len() ==> (#[trigger] replay(
                books,
                reports,
            ).runs[k]).result is Completed,
    decreases reports.len(),
{
    if reports.len() > 0 {
        let front = reports.drop_last();
        assert forall|k: int| 0 <= k < front.len() implies (#[trigger] front[k]).1 is Finished
            && front[k].1->0 is Completed by {
            assert(front[k] == reports[k]);
        }
        lemma_replay_completed(books, front);
        lemma_replay_wf(books, front);
        assert(reports[reports.len() - 1].1 is Finished);
    }
}

/// A batch in which every task is scheduled, runs to its end and reports, in whatever
/// order, ends with exactly one run for each builder, each with what a task reported,
/// and with nothing left to wait for.
pub proof fn lemma_batch_reports(books: RunnerView, reports: Seq<(u64, TaskEventView)>)
    requires
        books.wf(),
        !books.aborted,
        books.runs.len() == 0,
        forall|i: int| 0 <= i < books.builders.len() ==> (#[trigger] books.ids[i]) is Some,
        all_finished(reports),
        forall|i: int|
            0 <= i < books.builders.len() ==> exists|k: int|
                0 <= k < reports.len() && #[trigger] books.ids[i] == Some((#[trigger] reports[k]).0),
    ensures
        replay(books, reports).wf(),
        replay(books, reports).runs.len() == books.builders.len(),
        replay(books, reports).directive() == Directive::Complete,
        forall|k: int|
            0 <= k < replay(books, reports).runs.len() ==> exists|l: int|
                0 <= l < reports.len() && (#[trigger] replay(books, reports).runs[k]).result == (
                #[trigger] reports[l]).1.outcome(),
        forall|i: int|
            #![trigger books.builders[i]]
            0 <= i < books.builders.len() ==> exists|k: int|
                0 <= k < replay(books, reports).runs.len() && #[trigger] replay(
                    books,
                    reports,
                ).arrivals[k] == i && replay(books, reports).runs[k].builder == books.builders[i],
        forall|k: int, l: int|
            0 <= k < l < replay(books, reports).runs.len() ==> replay(books, reports).arrivals[k]
                != replay(books, reports).arrivals[l],
{
    lemma_replay_finished(books, reports);
    let end = replay(books, reports);
    assert forall|i: int| 0 <= i < end.builders.len() implies end.reported[i] by {
        assert(books.ids[i] is Some);
    }
    lemma_one_run_per_report(end);
    assert forall|i: int|
        #![trigger books.builders[i]]
        0 <= i < books.builders.len() implies exists|k: int|
        0 <= k < end.runs.len() && #[trigger] end.arrivals[k] == i && end.runs[k].builder
            == books.builders[i] by {
        assert(end.reported[i]);
    }
}

/// A batch in which every task is scheduled, completes its request and reports this,
/// in whatever order, ends with as many runs as builders, all of them completed.
pub proof fn lemma_batch_completes(books: RunnerView, reports: Seq<(u64, TaskEventView)>)
    requires
        books.wf(),
        !books.aborted,
        books.runs.len() == 0,
        forall|i: int| 0 <= i < books.builders.len() ==> (#[trigger] books.ids[i]) is Some,
        all_completed(reports),
        forall|i: int|
            0 <= i < books.builders.len() ==> exists|k: int|
                0 <= k < reports.len() && #[trigger] books.ids[i] == Some((#[trigger] reports[k]).0),
    ensures
        replay(books, reports).runs.len() == books.builders.len(),
        forall|k: int|
            0 <= k < replay(books, reports).runs.len() ==> (#[trigger] replay(books, reports).runs[k]).result is Completed,
{
    lemma_batch_reports(books, reports);
    let end = replay(books, reports);
    assert forall|k: int| 0 <= k < end.runs.len() implies (#[trigger] end.runs[k]).result is Completed by {
        let l = choose|l: int|
            0 <= l < reports.len() && end.runs[k].result == (#[trigger] reports[l]).1.outcome();
        assert(reports[l].1 is Finished && reports[l].1->0 is Completed);
    }
}

/// When a task that is out crashes, a cancelled run with the reason of the crash is
/// recorded for its builder, the crash is to be raised again, and whatever is reported
/// after that leaves no trace.
pub proof fn lemma_fail_fast(
    books: RunnerView,
    id: u64,
    reason: Seq<char>,
    later_id: u64,
    later_event: TaskEventView,
)
    requires
        books.wf(),
        !books.aborted,
        books.task_of(id) is Some,
        !books.reported[books.task_of(id)->0],
    ensures
        ({
            let after = books.report(id, TaskEventView::Crashed { reason });
            &&& after.runs == books.runs.push(
                HttpRequestRunView {
                    builder: books.builders[books.task_of(id)->0],
                    ctx: books.ctx,
                    result: HttpRequestRunResultView::Cancelled { reason },
                },
            )
            &&& after.directive() == Directive::Reraise
            &&& after.report(later_id, later_event) == after
        }),
{
}

} // verus!
