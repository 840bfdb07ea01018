//! The action pipeline as a state machine: it opens with one started
//! event, accounts every action's terminal status under a concurrency cap,
//! decides aborts, and closes with exactly one finished or aborted event.
//! An outer runtime drives it: it performs the actions and hands their
//! results back.
use vstd::prelude::*;

use crate::estimator::Estimate;

verus! {

/// The terminal disposition of an action.
#[derive(Clone, Copy, PartialEq, Eq, Structural, Debug)]
pub enum ActionStatus {
    Pending,
    Passed,
    Cached,
    CachedFromRemote,
    Failed,
    FailedAndAbort,
    Skipped,
    Invalid,
}

impl ActionStatus {
    /// The status's wire name.
    pub fn label(&self) -> (r: String)
        ensures
            r@ == self.spec_label(),
    {
        match self {
            ActionStatus::Pending => "pending".to_owned(),
            ActionStatus::Passed => "passed".to_owned(),
            ActionStatus::Cached => "cached".to_owned(),
            ActionStatus::CachedFromRemote => "cached-from-remote".to_owned(),
            ActionStatus::Failed => "failed".to_owned(),
            ActionStatus::FailedAndAbort => "failed-and-abort".to_owned(),
            ActionStatus::Skipped => "skipped".to_owned(),
            ActionStatus::Invalid => "invalid".to_owned(),
        }
    }

    /// The status's wire name.
    pub open spec fn spec_label(&self) -> Seq<char> {
        match self {
            ActionStatus::Pending => "pending"@,
            ActionStatus::Passed => "passed"@,
            ActionStatus::Cached => "cached"@,
            ActionStatus::CachedFromRemote => "cached-from-remote"@,
            ActionStatus::Failed => "failed"@,
            ActionStatus::FailedAndAbort => "failed-and-abort"@,
            ActionStatus::Skipped => "skipped"@,
            ActionStatus::Invalid => "invalid"@,
        }
    }
}

/// One scheduled unit with its outcome.
pub struct Action {
    /// The index of the action's node in the dependency graph.
    pub node_index: usize,
    pub status: ActionStatus,
    pub duration_ms: Option<u64>,
    pub error: Option<String>,
    pub label: String,
    pub log_target: String,
}

impl Action {
    /// Create a pending action for a graph node.
    pub fn new(node_index: usize, label: String, log_target: String) -> (r: Action)
        ensures
            r.node_index == node_index,
            r.status == ActionStatus::Pending,
            r.duration_ms is None,
            r.error is None,
            r.label@ == label@,
            r.log_target@ == log_target@,
    {
        Action {
            node_index,
            status: ActionStatus::Pending,
            duration_ms: None,
            error: None,
            label,
            log_target,
        }
    }

    /// Whether the action failed.
    pub fn has_failed(&self) -> (r: bool)
        ensures
            r == spec_has_failed(self.status),
    {
        matches!(self.status, ActionStatus::Failed | ActionStatus::FailedAndAbort)
    }

    /// Whether the action's outputs came from a cache.
    pub fn was_cached(&self) -> (r: bool)
        ensures
            r == spec_was_cached(self.status),
    {
        matches!(self.status, ActionStatus::Cached | ActionStatus::CachedFromRemote)
    }

    /// Whether the action demands that the whole pipeline stop.
    pub fn should_abort(&self) -> (r: bool)
        ensures
            r == (self.status == ActionStatus::FailedAndAbort),
    {
        matches!(self.status, ActionStatus::FailedAndAbort)
    }
}

/// A failed status.
pub open spec fn spec_has_failed(s: ActionStatus) -> bool {
    s == ActionStatus::Failed || s == ActionStatus::FailedAndAbort
}

/// A cached status.
pub open spec fn spec_was_cached(s: ActionStatus) -> bool {
    s == ActionStatus::Cached || s == ActionStatus::CachedFromRemote
}

/// An event the pipeline emits to its subscribers, in order.
pub enum Event {
    PipelineStarted { actions_count: usize },
    ActionStarted { node_index: usize },
    ActionFinished { node_index: usize, status: ActionStatus },
    PipelineAborted { error: String },
    PipelineFinished {
        passed_count: usize,
        cached_count: usize,
        failed_count: usize,
        baseline_ms: u64,
        savings_ms: Option<u64>,
    },
}

/// An event that closes the pipeline.
pub open spec fn spec_terminal(e: &Event) -> bool {
    e is PipelineAborted || e is PipelineFinished
}

/// Raised when the pipeline stops early.
#[derive(Debug)]
pub enum PipelineError {
    /// A fatal condition stopped the run; holds the surfaced reason.
    Aborted(String),
    /// A batch named an action the graph does not hold.
    UnknownActionNode,
}

/// The pipeline's state between events.
pub struct PipelineRun {
    pub bail: bool,
    pub concurrency: usize,
    pub actions_count: usize,
    pub events: Vec<Event>,
    pub results: Vec<Action>,
    pub passed_count: usize,
    pub cached_count: usize,
    pub failed_count: usize,
    pub in_flight: usize,
    pub abort_error: Option<String>,
    pub done: bool,
}

/// The pipeline's protocol: the cap is respected; the first event is the
/// started event and no other is; no event follows a terminal one; a
/// terminal event stands exactly where the run is done, at the end.
pub open spec fn pipeline_wf(p: &PipelineRun) -> bool {
    &&& p.in_flight <= p.concurrency
    &&& p.concurrency >= 1
    &&& p.events@.len() >= 1
    &&& p.events@[0] is PipelineStarted
    &&& (forall|i: int| 0 < i < p.events@.len() ==> !((#[trigger] p.events@[i]) is PipelineStarted))
    &&& (forall|i: int|
        0 <= i < p.events@.len() && spec_terminal(&#[trigger] p.events@[i]) ==> i
            == p.events@.len() - 1)
    &&& (p.done <==> spec_terminal(&p.events@[p.events@.len() - 1]))
    &&& (p.passed_count + p.cached_count + p.failed_count <= p.actions_count)
}

impl PipelineRun {
    /// Open the pipeline: the started event is emitted first, exactly
    /// once.
    pub fn start(bail: bool, concurrency: usize, actions_count: usize) -> (r: PipelineRun)
        requires
            concurrency >= 1,
        ensures
            pipeline_wf(&r),
            !r.done,
            r.bail == bail,
            r.concurrency == concurrency,
            r.actions_count == actions_count,
            r.in_flight == 0,
            r.abort_error is None,
            r.passed_count == 0 && r.cached_count == 0 && r.failed_count == 0,
            r.events@.len() == 1,
            r.events@[0] == (Event::PipelineStarted { actions_count }),
            r.results@.len() == 0,
    {
        let mut events: Vec<Event> = Vec::new();
        events.push(Event::PipelineStarted { actions_count });
        PipelineRun {
            bail,
            concurrency,
            actions_count,
            events,
            results: Vec::new(),
            passed_count: 0,
            cached_count: 0,
            failed_count: 0,
            in_flight: 0,
            abort_error: None,
            done: false,
        }
    }

    /// Take one concurrency permit before an action starts. The count of
    /// actions in flight never exceeds the configured concurrency.
    pub fn acquire(&mut self, node_index: usize)
        requires
            pipeline_wf(old(self)),
            !old(self).done,
            old(self).in_flight < old(self).concurrency,
        ensures
            pipeline_wf(final(self)),
            !final(self).done,
            final(self).in_flight == old(self).in_flight + 1,
            final(self).in_flight <= final(self).concurrency,
            final(self).events@ == old(self).events@.push(
                Event::ActionStarted { node_index },
            ),
            final(self).abort_error == old(self).abort_error,
            final(self).bail == old(self).bail,
            final(self).concurrency == old(self).concurrency,
            final(self).passed_count == old(self).passed_count,
            final(self).cached_count == old(self).cached_count,
            final(self).failed_count == old(self).failed_count,
            final(self).actions_count == old(self).actions_count,
    {
        self.in_flight += 1;
        self.events.push(Event::ActionStarted { node_index });
        proof {
            lemma_push_non_terminal(old(self), self, Event::ActionStarted { node_index });
        }
    }

    /// Account a finished action: release its permit, tally its status,
    /// and decide whether the pipeline must abort — on bail after any
    /// failure, or on a status that demands the stop.
    pub fn complete(&mut self, action: Action)
        requires
            pipeline_wf(old(self)),
            !old(self).done,
            old(self).in_flight >= 1,
            old(self).passed_count + old(self).cached_count + old(self).failed_count < old(self).actions_count,
            action.status != ActionStatus::Pending,
        ensures
            pipeline_wf(final(self)),
            !final(self).done,
            final(self).in_flight == old(self).in_flight - 1,
            final(self).events@ == old(self).events@.push(
                Event::ActionFinished { node_index: action.node_index, status: action.status },
            ),
            final(self).failed_count == old(self).failed_count + (if spec_has_failed(
                action.status,
            ) {
                1int
            } else {
                0int
            }),
            final(self).cached_count == old(self).cached_count + (if !spec_has_failed(
                action.status,
            ) && spec_was_cached(action.status) {
                1int
            } else {
                0int
            }),
            final(self).passed_count == old(self).passed_count + (if !spec_has_failed(
                action.status,
            ) && !spec_was_cached(action.status) {
                1int
            } else {
                0int
            }),
            final(self).abort_error is Some <==> (old(self).abort_error is Some || (old(self).bail && spec_has_failed(action.status)) || action.status
                == ActionStatus::FailedAndAbort),
            final(self).bail == old(self).bail,
            final(self).concurrency == old(self).concurrency,
            final(self).actions_count == old(self).actions_count,
            final(self).results@ == (if (old(self).bail && spec_has_failed(action.status))
                || action.status == ActionStatus::FailedAndAbort {
                old(self).results@
            } else {
                old(self).results@.push(action)
            }),
    {
        self.in_flight -= 1;
        let failed = action.has_failed();
        let cached = action.was_cached();
        let aborts = action.should_abort();
        if failed {
            self.failed_count += 1;
        } else if cached {
            self.cached_count += 1;
        } else {
            self.passed_count += 1;
        }
        self.events.push(
            Event::ActionFinished { node_index: action.node_index, status: action.status },
        );
        proof {
            lemma_push_non_terminal(
                old(self),
                self,
                Event::ActionFinished { node_index: action.node_index, status: action.status },
            );
        }
        if self.bail && failed || aborts {
            if self.abort_error.is_none() {
                let reason = match action.error {
                    Some(e) => e,
                    None => "Unknown error!".to_owned(),
                };
                self.abort_error = Some(reason);
            }
        } else {
            self.results.push(action);
        }
    }

    /// Close the pipeline: exactly one terminal event follows every action
    /// event — aborted where a fatal condition was met, else finished with
    /// the counts and the estimate.
    pub fn finish(&mut self, wall_ms: u64) -> (r: Result<Estimate, PipelineError>)
        requires
            pipeline_wf(old(self)),
            !old(self).done,
            old(self).in_flight == 0,
        ensures
            pipeline_wf(final(self)),
            final(self).done,
            final(self).events@.len() == old(self).events@.len() + 1,
            spec_terminal(&final(self).events@[final(self).events@.len() - 1]),
            old(self).abort_error is Some <==> (r is Err && final(self).events@[final(self).events@.len() - 1] is PipelineAborted),
            old(self).abort_error is None <==> (r is Ok && final(self).events@[final(self).events@.len() - 1] is PipelineFinished),
            final(self).passed_count == old(self).passed_count,
            final(self).cached_count == old(self).cached_count,
            final(self).failed_count == old(self).failed_count,
            final(self).results == old(self).results,
            r matches Ok(est) ==> est.baseline_ms == crate::estimator::spec_baseline(
                old(self).results@,
            ) && est.savings_ms == (if crate::estimator::spec_baseline(old(self).results@)
                > wall_ms {
                Some(
                    (crate::estimator::spec_baseline(old(self).results@) - wall_ms) as u64,
                )
            } else {
                None::<u64>
            }) && final(self).events@[final(self).events@.len() - 1] == (Event::PipelineFinished {
                passed_count: old(self).passed_count,
                cached_count: old(self).cached_count,
                failed_count: old(self).failed_count,
                baseline_ms: est.baseline_ms,
                savings_ms: est.savings_ms,
            }),
            r is Err ==> (r matches Err(PipelineError::Aborted(reason)) && (old(self).abort_error matches Some(ae) && reason@ == ae@) && final(self).events@[final(self).events@.len() - 1] == (Event::PipelineAborted {
                error: reason,
            })),
    {
        self.done = true;
        let has_abort = self.abort_error.is_some();
        if has_abort {
            let reason = match &self.abort_error {
                Some(e) => e.clone(),
                None => String::new(),
            };
            self.events.push(Event::PipelineAborted { error: reason.clone() });
            proof {
                lemma_push_terminal_shape(old(self), self);
            }
            Err(PipelineError::Aborted(reason))
        } else {
            let estimate = crate::estimator::calculate(&self.results, wall_ms);
            self.events.push(
                Event::PipelineFinished {
                    passed_count: self.passed_count,
                    cached_count: self.cached_count,
                    failed_count: self.failed_count,
                    baseline_ms: estimate.baseline_ms,
                    savings_ms: estimate.savings_ms,
                },
            );
            proof {
                lemma_push_terminal_shape(old(self), self);
            }
            Ok(estimate)
        }
    }
}

/// Pushing a non-terminal event onto a live, well-formed trace keeps it
/// well formed.
proof fn lemma_push_non_terminal(pre: &PipelineRun, post: &PipelineRun, e: Event)
    requires
        pipeline_wf(pre),
        !pre.done,
        !spec_terminal(&e),
        !(e is PipelineStarted),
        post.events@ == pre.events@.push(e),
    ensures
        post.events@.len() >= 1,
        post.events@[0] is PipelineStarted,
        forall|i: int| 0 < i < post.events@.len() ==> !((#[trigger] post.events@[i]) is PipelineStarted),
        forall|i: int|
            0 <= i < post.events@.len() && spec_terminal(&#[trigger] post.events@[i]) ==> i
                == post.events@.len() - 1,
        !spec_terminal(&post.events@[post.events@.len() - 1]),
{
    let n = pre.events@.len() as int;
    assert(post.events@[0] == pre.events@[0]);
    assert forall|i: int| 0 < i < post.events@.len() implies !((#[trigger] post.events@[i]) is PipelineStarted) by {
        if i < n {
            assert(post.events@[i] == pre.events@[i]);
        } else {
            assert(post.events@[i] == e);
        }
    };
    assert forall|i: int|
        0 <= i < post.events@.len() && spec_terminal(&#[trigger] post.events@[i]) implies i
            == post.events@.len() - 1 by {
        if i < n {
            assert(post.events@[i] == pre.events@[i]);
            assert(i == n - 1);
            assert(pre.done);
        } else {
            assert(post.events@[i] == e);
        }
    };
    assert(post.events@[post.events@.len() - 1] == e);
}

/// Pushing the single terminal event closes a live, well-formed trace.
proof fn lemma_push_terminal_shape(pre: &PipelineRun, post: &PipelineRun)
    requires
        pipeline_wf(pre),
        !pre.done,
        post.events@.len() == pre.events@.len() + 1,
        forall|i: int| 0 <= i < pre.events@.len() ==> post.events@[i] == pre.events@[i],
        spec_terminal(&post.events@[post.events@.len() - 1]),
        !(post.events@[post.events@.len() - 1] is PipelineStarted),
    ensures
        post.events@.len() >= 1,
        post.events@[0] is PipelineStarted,
        forall|i: int| 0 < i < post.events@.len() ==> !((#[trigger] post.events@[i]) is PipelineStarted),
        forall|i: int|
            0 <= i < post.events@.len() && spec_terminal(&#[trigger] post.events@[i]) ==> i
                == post.events@.len() - 1,
        spec_terminal(&post.events@[post.events@.len() - 1]),
{
    let n = pre.events@.len() as int;
    assert(post.events@[0] == pre.events@[0]);
    assert forall|i: int| 0 < i < post.events@.len() implies !((#[trigger] post.events@[i]) is PipelineStarted) by {
        if i < n {
            assert(post.events@[i] == pre.events@[i]);
        }
    };
    assert forall|i: int|
        0 <= i < post.events@.len() && spec_terminal(&#[trigger] post.events@[i]) implies i
            == post.events@.len() - 1 by {
        if i < n {
            assert(post.events@[i] == pre.events@[i]);
            assert(i == n - 1);
            assert(pre.done);
        }
    };
}

/// Law: subscribers observe the started event exactly once, before any
/// other event, and — once the run is done — exactly one of the finished
/// or aborted events, after every action event.
pub proof fn lemma_event_protocol(p: &PipelineRun)
    requires
        pipeline_wf(p),
        p.done,
    ensures
        p.events@.len() >= 1,
        p.events@[0] is PipelineStarted,
        forall|i: int| 0 < i < p.events@.len() ==> !((#[trigger] p.events@[i]) is PipelineStarted),
        spec_terminal(&p.events@[p.events@.len() - 1]),
        forall|i: int|
            0 <= i < p.events@.len() - 1 ==> !spec_terminal(&#[trigger] p.events@[i]),
{
    assert forall|i: int| 0 <= i < p.events@.len() - 1 implies !spec_terminal(
        &#[trigger] p.events@[i],
    ) by {
        if spec_terminal(&p.events@[i]) {
            assert(i == p.events@.len() - 1);
        }
    };
}

/// Law: while the pipeline runs, the number of actions in flight never
/// exceeds the configured concurrency.
pub proof fn lemma_concurrency_cap(p: &PipelineRun)
    requires
        pipeline_wf(p),
    ensures
        p.in_flight <= p.concurrency,
{
}


/// The counts a rendered summary shows.
pub struct ResultStats {
    pub cached_count: usize,
    pub pass_count: usize,
    pub fail_count: usize,
    pub invalid_count: usize,
}

/// The counts over a prefix of the results: cached results also count as
/// completed, skipped ones count as completed only.
pub open spec fn spec_stats(results: Seq<Action>, n: int) -> (int, int, int, int)
    decreases n,
{
    if n <= 0 {
        (0, 0, 0, 0)
    } else {
        let (c, p, f, iv) = spec_stats(results, n - 1);
        let s = results[n - 1].status;
        if spec_was_cached(s) {
            (c + 1, p + 1, f, iv)
        } else if s == ActionStatus::Passed || s == ActionStatus::Skipped {
            (c, p + 1, f, iv)
        } else if spec_has_failed(s) {
            (c, p, f + 1, iv)
        } else if s == ActionStatus::Invalid {
            (c, p, f, iv + 1)
        } else {
            (c, p, f, iv)
        }
    }
}

/// Tally the results for the run summary.
pub fn summarize_results(results: &Vec<Action>) -> (r: ResultStats)
    ensures
        (r.cached_count as int, r.pass_count as int, r.fail_count as int,
        r.invalid_count as int) == spec_stats(results@, results@.len() as int),
{
    let n = results.len();
    let mut cached_count: usize = 0;
    let mut pass_count: usize = 0;
    let mut fail_count: usize = 0;
    let mut invalid_count: usize = 0;
    let mut i: usize = 0;
    while i < n
        invariant
            n == results@.len(),
            0 <= i <= n,
            cached_count <= i && pass_count <= i && fail_count <= i && invalid_count <= i,
            (cached_count as int, pass_count as int, fail_count as int, invalid_count as int)
                == spec_stats(results@, i as int),
        decreases n - i,
    {
        let s = results[i].status;
        if matches!(s, ActionStatus::Cached | ActionStatus::CachedFromRemote) {
            cached_count += 1;
            pass_count += 1;
        } else if matches!(s, ActionStatus::Passed | ActionStatus::Skipped) {
            pass_count += 1;
        } else if matches!(s, ActionStatus::Failed | ActionStatus::FailedAndAbort) {
            fail_count += 1;
        } else if matches!(s, ActionStatus::Invalid) {
            invalid_count += 1;
        }
        i += 1;
    }
    ResultStats { cached_count, pass_count, fail_count, invalid_count }
}


} // verus!
