//! The delivery-semantics engine: one consumption loop's worth of decisions,
//! as a pure state machine. The surrounding program performs the broker I/O
//! (polling, storing offsets, committing) and hands each message's position
//! and decode outcome to [`DeliverySemanticsEngine::step`]; the engine
//! decides, per the configured commit policy, whether the position is
//! committed, whether processing counts as a success, and whether the
//! process must crash before the commit is issued.

use vstd::prelude::*;
use crate::event::Event;
use crate::failure::{FailureRule, should_fail, spec_should_fail};

verus! {

/// When, relative to processing, a consumed position is made durable.
#[derive(Debug, Clone, Copy, PartialEq, Eq, Structural)]
pub enum CommitPolicy {
    /// Commit before processing: at-most-once. A failed message is already
    /// durable and is never redelivered.
    Pre,
    /// Commit after processing: at-least-once. A failed message is left
    /// uncommitted and will be redelivered.
    Post,
    /// Stubbed transactional mode: behaves like `Post`, tagged distinctly
    /// in output. True exactly-once is out of scope.
    Txn,
}

/// A message's location in its topic-partition log. A value, never mutated
/// once assigned by the broker.
#[derive(Debug, Clone, Copy, PartialEq, Eq, Structural)]
pub struct Position {
    pub partition: i32,
    pub offset: i64,
}

/// Crash injection: the process terminates abnormally once `threshold`
/// successful completions have occurred, but only under the `Post` policy.
/// A negative threshold disables crash injection.
#[derive(Debug, Clone, Copy, PartialEq, Eq, Structural)]
pub struct CrashPolicy {
    pub threshold: i64,
}

/// How a message whose payload fails to decode is skipped. Either way the
/// position is not committed; the variants differ only in how the skip is
/// reported.
#[derive(Debug, Clone, Copy, PartialEq, Eq, Structural)]
pub enum OnDecodeError {
    LeaveUncommitted,
    Skip,
}

/// Per-message result of one engine step.
#[derive(Debug, Clone, Copy, PartialEq, Eq, Structural)]
pub enum ProcessingOutcome {
    /// Processed successfully and durably committed.
    Committed,
    /// Processing failed and the position was not committed: the message
    /// remains outstanding and will be redelivered.
    FailedNotCommitted,
    /// The position was committed before processing failed: the message is
    /// lost from a processing standpoint.
    CommittedThenFailed,
}

/// What one call of [`DeliverySemanticsEngine::step`] asks the caller to do.
#[derive(Debug, Clone, Copy, PartialEq, Eq, Structural)]
pub enum StepResult {
    /// Terminate the process immediately with a non-zero status, without
    /// committing the current message.
    Crashed,
    /// The payload did not decode: skip the message and commit nothing.
    DecodeSkipped,
    /// The message was handled; commit its position exactly when
    /// [`commits_position`] holds of the outcome.
    Done(ProcessingOutcome),
}

/// One polled message, as the broker collaborator hands it over: its
/// position and its payload's decode outcome.
#[derive(Debug, Clone, PartialEq)]
pub struct IncomingMessage {
    pub position: Position,
    pub decoded: Option<Event>,
}

/// Whether a step result obliges the caller to store and commit the
/// message's position.
pub open spec fn spec_commits(r: StepResult) -> bool {
    match r {
        StepResult::Done(ProcessingOutcome::Committed) => true,
        StepResult::Done(ProcessingOutcome::CommittedThenFailed) => true,
        _ => false,
    }
}

/// Executable mirror of [`spec_commits`].
pub fn commits_position(r: StepResult) -> (b: bool)
    ensures
        b == spec_commits(r),
{
    match r {
        StepResult::Done(ProcessingOutcome::Committed) => true,
        StepResult::Done(ProcessingOutcome::CommittedThenFailed) => true,
        _ => false,
    }
}

/// What each commit-mode spelling selects: `pre` and the two transactional
/// spellings name their policies; anything else, `post` included, is the
/// post-commit default.
pub open spec fn spec_parse_commit_mode(s: Seq<char>) -> CommitPolicy {
    if s == "pre"@ {
        CommitPolicy::Pre
    } else if s == "txn"@ || s == "transactional"@ {
        CommitPolicy::Txn
    } else {
        CommitPolicy::Post
    }
}

/// Parse an operator-supplied commit-mode flag.
pub fn parse_commit_mode(s: &str) -> (m: CommitPolicy)
    ensures
        m == spec_parse_commit_mode(s@),
{
    if crate::strutil::str_eq(s, "pre") {
        CommitPolicy::Pre
    } else if crate::strutil::str_eq(s, "txn") {
        CommitPolicy::Txn
    } else if crate::strutil::str_eq(s, "transactional") {
        CommitPolicy::Txn
    } else {
        CommitPolicy::Post
    }
}

/// The engine: the configuration of one consumption loop plus its one piece
/// of mutable state, the running count of successful completions.
#[derive(Debug, Clone, PartialEq)]
pub struct DeliverySemanticsEngine {
    pub policy: CommitPolicy,
    pub rule: FailureRule,
    pub crash: CrashPolicy,
    pub on_decode_error: OnDecodeError,
    pub success_count: i64,
}

/// The engine's transition function: from a state and one message to the
/// next state and the step's result.
///
/// The crash check comes first, before the payload is even looked at: under
/// `Post`, once the success counter has reached a non-negative threshold,
/// the process dies before this message's commit can be issued. Then a
/// message that did not decode is skipped without commit. Otherwise the
/// failure rule decides: under `Pre` the position is durable either way and
/// a failure loses the message; under `Post` (and the `Txn` stub) a failure
/// leaves the position uncommitted for redelivery.
pub open spec fn spec_step(s: DeliverySemanticsEngine, m: IncomingMessage) -> (
    DeliverySemanticsEngine,
    StepResult,
) {
    if s.policy is Post && s.crash.threshold >= 0 && s.success_count >= s.crash.threshold {
        (s, StepResult::Crashed)
    } else {
        match m.decoded {
            None => (s, StepResult::DecodeSkipped),
            Some(e) => {
                let fail = spec_should_fail(e, s.rule);
                let bumped = DeliverySemanticsEngine {
                    success_count: (s.success_count + 1) as i64,
                    ..s
                };
                match s.policy {
                    CommitPolicy::Pre => if fail {
                        (s, StepResult::Done(ProcessingOutcome::CommittedThenFailed))
                    } else {
                        (bumped, StepResult::Done(ProcessingOutcome::Committed))
                    },
                    _ => if fail {
                        (s, StepResult::Done(ProcessingOutcome::FailedNotCommitted))
                    } else {
                        (bumped, StepResult::Done(ProcessingOutcome::Committed))
                    },
                }
            }
        }
    }
}

impl DeliverySemanticsEngine {
    /// A fresh engine with its success counter at zero.
    pub fn new(
        policy: CommitPolicy,
        rule: FailureRule,
        crash: CrashPolicy,
        on_decode_error: OnDecodeError,
    ) -> (e: DeliverySemanticsEngine)
        ensures
            e.policy == policy,
            e.rule == rule,
            e.crash == crash,
            e.on_decode_error == on_decode_error,
            e.success_count == 0,
    {
        DeliverySemanticsEngine { policy, rule, crash, on_decode_error, success_count: 0 }
    }

    /// Handle one message: the executable transition, proved equal to
    /// [`spec_step`].
    pub fn step(&mut self, m: &IncomingMessage) -> (r: StepResult)
        requires
            old(self).success_count < i64::MAX,
        ensures
            *final(self) == spec_step(*old(self), *m).0,
            r == spec_step(*old(self), *m).1,
    {
        if matches!(self.policy, CommitPolicy::Post) && self.crash.threshold >= 0
            && self.success_count >= self.crash.threshold {
            return StepResult::Crashed;
        }
        match &m.decoded {
            None => StepResult::DecodeSkipped,
            Some(e) => {
                let fail = should_fail(e, &self.rule);
                match self.policy {
                    CommitPolicy::Pre => {
                        if fail {
                            StepResult::Done(ProcessingOutcome::CommittedThenFailed)
                        } else {
                            self.success_count = self.success_count + 1;
                            StepResult::Done(ProcessingOutcome::Committed)
                        }
                    },
                    _ => {
                        if fail {
                            StepResult::Done(ProcessingOutcome::FailedNotCommitted)
                        } else {
                            self.success_count = self.success_count + 1;
                            StepResult::Done(ProcessingOutcome::Committed)
                        }
                    },
                }
            },
        }
    }
}

/// The mathematical trace of running the engine over a sequence of
/// messages: the final state, the per-message results, the commit log in
/// commit order, and whether the run ended in a crash.
pub struct RunTrace {
    pub state: DeliverySemanticsEngine,
    pub results: Seq<StepResult>,
    pub committed: Seq<Position>,
    pub crashed: bool,
}

/// Run the state machine over `msgs`, stopping at a crash: messages after
/// the crash are never looked at, and the crash itself is the last result.
pub open spec fn spec_run(s: DeliverySemanticsEngine, msgs: Seq<IncomingMessage>) -> RunTrace
    decreases msgs.len(),
{
    if msgs.len() == 0 {
        RunTrace { state: s, results: Seq::empty(), committed: Seq::empty(), crashed: false }
    } else {
        let prev = spec_run(s, msgs.drop_last());
        if prev.crashed {
            prev
        } else {
            let m = msgs.last();
            let stepped = spec_step(prev.state, m);
            RunTrace {
                state: stepped.0,
                results: prev.results.push(stepped.1),
                committed: if spec_commits(stepped.1) {
                    prev.committed.push(m.position)
                } else {
                    prev.committed
                },
                crashed: stepped.1 is Crashed,
            }
        }
    }
}

/// Once a run has crashed, feeding it further messages changes nothing.
pub proof fn lemma_run_crash_stops(s: DeliverySemanticsEngine, msgs: Seq<IncomingMessage>, i: int)
    requires
        0 <= i <= msgs.len(),
        spec_run(s, msgs.take(i)).crashed,
    ensures
        spec_run(s, msgs) == spec_run(s, msgs.take(i)),
    decreases msgs.len() - i,
{
    if i == msgs.len() {
        assert(msgs.take(i) =~= msgs);
    } else {
        assert(msgs.take(i + 1).drop_last() =~= msgs.take(i));
        assert(spec_run(s, msgs.take(i + 1)) == spec_run(s, msgs.take(i)));
        lemma_run_crash_stops(s, msgs, i + 1);
    }
}

/// The observable record of one executed run: what [`DeliverySemanticsEngine::run`]
/// hands back.
#[derive(Debug, PartialEq)]
pub struct RunLog {
    /// One result per message handled, in delivery order; a crash, if any,
    /// is the last entry.
    pub results: Vec<StepResult>,
    /// The positions committed, in commit order.
    pub committed: Vec<Position>,
    /// Whether the run ended in an injected crash.
    pub crashed: bool,
}

impl DeliverySemanticsEngine {
    /// Drive the engine over a whole batch of messages, collecting the
    /// per-message results and the commit log, and stopping at an injected
    /// crash. The run is proved equal to the mathematical trace
    /// [`spec_run`].
    pub fn run(&mut self, messages: &Vec<IncomingMessage>) -> (log: RunLog)
        requires
            0 <= old(self).success_count,
            old(self).success_count + messages@.len() <= i64::MAX,
        ensures
            *final(self) == spec_run(*old(self), messages@).state,
            log.results@ == spec_run(*old(self), messages@).results,
            log.committed@ == spec_run(*old(self), messages@).committed,
            log.crashed == spec_run(*old(self), messages@).crashed,
    {
        let ghost s0 = *self;
        let mut results: Vec<StepResult> = Vec::new();
        let mut committed: Vec<Position> = Vec::new();
        let mut crashed = false;
        let mut i: usize = 0;
        while i < messages.len() && !crashed
            invariant
                0 <= i <= messages@.len(),
                s0.success_count + messages@.len() <= i64::MAX,
                self.success_count <= s0.success_count + i,
                *self == spec_run(s0, messages@.take(i as int)).state,
                results@ == spec_run(s0, messages@.take(i as int)).results,
                committed@ == spec_run(s0, messages@.take(i as int)).committed,
                crashed == spec_run(s0, messages@.take(i as int)).crashed,
            decreases messages@.len() - i,
        {
            let msg = &messages[i];
            let r = self.step(msg);
            results.push(r);
            if commits_position(r) {
                committed.push(msg.position);
            }
            if matches!(r, StepResult::Crashed) {
                crashed = true;
            }
            proof {
                assert(messages@.take(i + 1).drop_last() =~= messages@.take(i as int));
                assert(messages@.take(i + 1).last() == messages@[i as int]);
            }
            i = i + 1;
        }
        proof {
            if crashed {
                lemma_run_crash_stops(s0, messages@, i as int);
            } else {
                assert(messages@.take(i as int) =~= messages@);
            }
        }
        RunLog { results, committed, crashed }
    }
}

} // verus!
