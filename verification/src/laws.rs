//! The delivery-semantics laws: what pre-commit and post-commit runs
//! guarantee about the commit log, proved once and for all over
//! [`crate::engine::spec_run`].

use vstd::prelude::*;
use crate::engine::{
    CommitPolicy, DeliverySemanticsEngine, IncomingMessage, Position, ProcessingOutcome,
    StepResult, spec_commits, spec_run, spec_step,
};
use crate::failure::spec_should_fail;

verus! {

/// The policy-and-rule-determined result of one message, valid whenever no
/// crash interferes.
pub open spec fn spec_message_result(s: DeliverySemanticsEngine, m: IncomingMessage) -> StepResult {
    match m.decoded {
        None => StepResult::DecodeSkipped,
        Some(e) => {
            let fail = spec_should_fail(e, s.rule);
            match s.policy {
                CommitPolicy::Pre => if fail {
                    StepResult::Done(ProcessingOutcome::CommittedThenFailed)
                } else {
                    StepResult::Done(ProcessingOutcome::Committed)
                },
                _ => if fail {
                    StepResult::Done(ProcessingOutcome::FailedNotCommitted)
                } else {
                    StepResult::Done(ProcessingOutcome::Committed)
                },
            }
        },
    }
}

/// The message decodes and does not trigger the failure rule.
pub open spec fn decodes_without_failure(m: IncomingMessage, rule: crate::failure::FailureRule) -> bool {
    match m.decoded {
        Some(e) => !spec_should_fail(e, rule),
        None => false,
    }
}

/// No two messages of the batch share a position: positions are never
/// reused once assigned by the broker.
pub open spec fn distinct_positions(msgs: Seq<IncomingMessage>) -> bool {
    forall|i: int, j: int| 0 <= i < j < msgs.len() ==> msgs[i].position != msgs[j].position
}

/// The positions of a batch, in delivery order.
pub open spec fn positions_of(msgs: Seq<IncomingMessage>) -> Seq<Position> {
    msgs.map_values(|m: IncomingMessage| m.position)
}

/// How often `p` occurs in a commit log.
pub open spec fn count_pos(s: Seq<Position>, p: Position) -> nat
    decreases s.len(),
{
    if s.len() == 0 {
        0
    } else {
        count_pos(s.drop_last(), p) + if s.last() == p {
            1nat
        } else {
            0nat
        }
    }
}

/// A position occurs zero times exactly when the log does not contain it.
pub proof fn lemma_count_pos_zero(s: Seq<Position>, p: Position)
    ensures
        (count_pos(s, p) == 0) <==> !s.contains(p),
    decreases s.len(),
{
    if s.len() > 0 {
        lemma_count_pos_zero(s.drop_last(), p);
        if s.contains(p) {
            let i = choose|i: int| 0 <= i < s.len() && s[i] == p;
            if i < s.len() - 1 {
                assert(s.drop_last()[i] == p);
                assert(s.drop_last().contains(p));
            }
        }
        if s.drop_last().contains(p) {
            let i = choose|i: int| 0 <= i < s.drop_last().len() && s.drop_last()[i] == p;
            assert(s[i] == p);
        }
    }
}

/// A run never changes the engine's configuration: policy, rule, crash
/// policy and decode-skip policy come out as they went in.
pub proof fn lemma_run_keeps_config(s: DeliverySemanticsEngine, msgs: Seq<IncomingMessage>)
    ensures
        spec_run(s, msgs).state.policy == s.policy,
        spec_run(s, msgs).state.rule == s.rule,
        spec_run(s, msgs).state.crash == s.crash,
        spec_run(s, msgs).state.on_decode_error == s.on_decode_error,
    decreases msgs.len(),
{
    if msgs.len() > 0 {
        lemma_run_keeps_config(s, msgs.drop_last());
    }
}

/// A run answers every message unless it crashes, and a crash is always the
/// last thing it does.
pub proof fn lemma_run_results_len(s: DeliverySemanticsEngine, msgs: Seq<IncomingMessage>)
    ensures
        spec_run(s, msgs).results.len() <= msgs.len(),
        !spec_run(s, msgs).crashed ==> spec_run(s, msgs).results.len() == msgs.len(),
        spec_run(s, msgs).crashed ==> spec_run(s, msgs).results.len() >= 1
            && spec_run(s, msgs).results.last() == StepResult::Crashed,
    decreases msgs.len(),
{
    if msgs.len() > 0 {
        lemma_run_results_len(s, msgs.drop_last());
    }
}

/// Crash injection can fire only under the `Post` policy: under `Pre`, `Txn`
/// or a disabled threshold the run never crashes, and every message gets its
/// policy-and-rule-determined result.
pub proof fn lemma_run_no_crash_results(s: DeliverySemanticsEngine, msgs: Seq<IncomingMessage>)
    requires
        !(s.policy is Post) || s.crash.threshold < 0,
    ensures
        !spec_run(s, msgs).crashed,
        spec_run(s, msgs).results.len() == msgs.len(),
        forall|k: int|
            0 <= k < msgs.len() ==> spec_run(s, msgs).results[k] == spec_message_result(
                s,
                msgs[k],
            ),
    decreases msgs.len(),
{
    if msgs.len() > 0 {
        lemma_run_no_crash_results(s, msgs.drop_last());
        lemma_run_keeps_config(s, msgs.drop_last());
        let prev = spec_run(s, msgs.drop_last());
        assert(spec_step(prev.state, msgs.last()).1 == spec_message_result(s, msgs.last()));
        assert(forall|k: int|
            0 <= k < msgs.len() - 1 ==> spec_run(s, msgs).results[k] == spec_run(
                s,
                msgs.drop_last(),
            ).results[k]);
        assert(forall|k: int|
            0 <= k < msgs.len() - 1 ==> msgs.drop_last()[k] == msgs[k]);
    }
}

/// Everything in the commit log is the position of some handled message
/// whose result committed it.
pub proof fn lemma_committed_are_positions(s: DeliverySemanticsEngine, msgs: Seq<IncomingMessage>)
    ensures
        forall|p: Position| #[trigger]
            spec_run(s, msgs).committed.contains(p) ==> exists|i: int|
                0 <= i < spec_run(s, msgs).results.len() && msgs[i].position == p
                    && spec_commits(#[trigger] spec_run(s, msgs).results[i]),
    decreases msgs.len(),
{
    if msgs.len() > 0 {
        lemma_committed_are_positions(s, msgs.drop_last());
        lemma_run_results_len(s, msgs.drop_last());
        let prev = spec_run(s, msgs.drop_last());
        let g = spec_run(s, msgs);
        if !prev.crashed {
            assert forall|p: Position| #[trigger] g.committed.contains(p) implies exists|i: int|
                0 <= i < g.results.len() && msgs[i].position == p && spec_commits(
                    #[trigger] g.results[i],
                ) by {
                let r = spec_step(prev.state, msgs.last()).1;
                let n = msgs.len() - 1;
                if spec_commits(r) && p == msgs.last().position {
                    assert(g.results[n] == r);
                    assert(msgs[n].position == p);
                } else {
                    assert(prev.committed.contains(p)) by {
                        let j = choose|j: int|
                            0 <= j < g.committed.len() && g.committed[j] == p;
                        if spec_commits(r) {
                            assert(g.committed == prev.committed.push(msgs.last().position));
                            assert(j < prev.committed.len());
                            assert(prev.committed[j] == p);
                        }
                    }
                    let i = choose|i: int|
                        0 <= i < prev.results.len() && msgs.drop_last()[i].position == p
                            && spec_commits(prev.results[i]);
                    assert(g.results[i] == prev.results[i]);
                    assert(msgs[i].position == p);
                }
            }
        }
    }
}

/// A message whose result committed its position is in the commit log.
pub proof fn lemma_committing_result_in_log(
    s: DeliverySemanticsEngine,
    msgs: Seq<IncomingMessage>,
    k: int,
)
    requires
        0 <= k < spec_run(s, msgs).results.len(),
        spec_commits(spec_run(s, msgs).results[k]),
    ensures
        spec_run(s, msgs).committed.contains(msgs[k].position),
    decreases msgs.len(),
{
    lemma_run_results_len(s, msgs.drop_last());
    let prev = spec_run(s, msgs.drop_last());
    let g = spec_run(s, msgs);
    if prev.crashed {
        lemma_committing_result_in_log(s, msgs.drop_last(), k);
        assert(k < msgs.len() - 1);
        assert(msgs.drop_last()[k] == msgs[k]);
    } else {
        if k == msgs.len() - 1 {
            assert(g.committed.last() == msgs[k].position);
        } else {
            assert(g.results[k] == prev.results[k]);
            assert(msgs.drop_last()[k] == msgs[k]);
            lemma_committing_result_in_log(s, msgs.drop_last(), k);
            if spec_commits(spec_step(prev.state, msgs.last()).1) {
                let j = choose|j: int|
                    0 <= j < prev.committed.len() && prev.committed[j] == msgs[k].position;
                assert(g.committed[j] == msgs[k].position);
            }
        }
    }
}

/// AT-MOST-ONCE LOSS. Under the pre-commit policy a failure-triggering
/// message is reported as lost (`CommittedThenFailed`) and yet its position
/// stands in the commit log: it was made durable before processing failed,
/// so it will never be redelivered.
pub proof fn lemma_pre_commits_failing_message(
    s: DeliverySemanticsEngine,
    msgs: Seq<IncomingMessage>,
    k: int,
)
    requires
        s.policy is Pre,
        0 <= k < msgs.len(),
        msgs[k].decoded matches Some(e) && spec_should_fail(e, s.rule),
    ensures
        spec_run(s, msgs).results.len() == msgs.len(),
        spec_run(s, msgs).results[k] == StepResult::Done(ProcessingOutcome::CommittedThenFailed),
        spec_run(s, msgs).committed.contains(msgs[k].position),
{
    lemma_run_no_crash_results(s, msgs);
    lemma_committing_result_in_log(s, msgs, k);
}

/// AT-LEAST-ONCE RETRY. Under the post-commit policy (with crash injection
/// disabled) a failure-triggering message is reported as
/// `FailedNotCommitted` and its position is absent from the commit log: the
/// broker will redeliver it.
pub proof fn lemma_post_leaves_failing_uncommitted(
    s: DeliverySemanticsEngine,
    msgs: Seq<IncomingMessage>,
    k: int,
)
    requires
        s.policy is Post,
        s.crash.threshold < 0,
        distinct_positions(msgs),
        0 <= k < msgs.len(),
        msgs[k].decoded matches Some(e) && spec_should_fail(e, s.rule),
    ensures
        spec_run(s, msgs).results.len() == msgs.len(),
        spec_run(s, msgs).results[k] == StepResult::Done(ProcessingOutcome::FailedNotCommitted),
        !spec_run(s, msgs).committed.contains(msgs[k].position),
{
    lemma_run_no_crash_results(s, msgs);
    lemma_committed_are_positions(s, msgs);
    let g = spec_run(s, msgs);
    if g.committed.contains(msgs[k].position) {
        let i = choose|i: int|
            0 <= i < g.results.len() && msgs[i].position == msgs[k].position && spec_commits(
                #[trigger] g.results[i],
            );
        assert(i == k);
    }
}

/// With distinct positions, a message's position is committed exactly once
/// when its result commits it, and never otherwise.
pub proof fn lemma_committed_count(s: DeliverySemanticsEngine, msgs: Seq<IncomingMessage>, k: int)
    requires
        distinct_positions(msgs),
        0 <= k < msgs.len(),
    ensures
        count_pos(spec_run(s, msgs).committed, msgs[k].position) == (
        if k < spec_run(s, msgs).results.len() && spec_commits(spec_run(s, msgs).results[k]) {
            1nat
        } else {
            0nat
        }),
    decreases msgs.len(),
{
    let g = spec_run(s, msgs);
    let prev = spec_run(s, msgs.drop_last());
    let p = msgs[k].position;
    lemma_run_results_len(s, msgs.drop_last());
    lemma_run_results_len(s, msgs);
    if k < msgs.len() - 1 {
        assert(msgs.drop_last()[k] == msgs[k]);
        lemma_committed_count(s, msgs.drop_last(), k);
        if !prev.crashed {
            assert(g.results[k] == prev.results[k]);
            let r = spec_step(prev.state, msgs.last()).1;
            if spec_commits(r) {
                assert(g.committed.drop_last() =~= prev.committed);
                assert(g.committed.last() == msgs.last().position);
                assert(msgs.last() == msgs[msgs.len() - 1]);
                assert(msgs[msgs.len() - 1].position != p);
            }
        }
    } else {
        // `k` is the last message: nothing before it carries its position.
        assert(!prev.committed.contains(p)) by {
            lemma_committed_are_positions(s, msgs.drop_last());
            if prev.committed.contains(p) {
                let i = choose|i: int|
                    0 <= i < prev.results.len() && msgs.drop_last()[i].position == p
                        && spec_commits(#[trigger] prev.results[i]);
                assert(msgs[i].position == msgs[k].position);
            }
        }
        lemma_count_pos_zero(prev.committed, p);
        if prev.crashed {
            assert(g.results.len() <= msgs.len() - 1);
        } else {
            let r = spec_step(prev.state, msgs.last()).1;
            assert(g.results[k] == r);
            if spec_commits(r) {
                assert(g.committed.drop_last() =~= prev.committed);
                assert(g.committed.last() == p);
            }
        }
    }
}

/// AT-LEAST-ONCE, SECOND DELIVERY. In a post-commit run with crash injection
/// disabled and distinct positions, a message that decodes and no longer
/// triggers the failure rule — as on a redelivery after a restart with the
/// rule changed — is committed exactly once.
pub proof fn lemma_post_redelivery_committed_once(
    s: DeliverySemanticsEngine,
    msgs: Seq<IncomingMessage>,
    k: int,
)
    requires
        s.policy is Post,
        s.crash.threshold < 0,
        distinct_positions(msgs),
        0 <= k < msgs.len(),
        decodes_without_failure(msgs[k], s.rule),
    ensures
        spec_run(s, msgs).results[k] == StepResult::Done(ProcessingOutcome::Committed),
        count_pos(spec_run(s, msgs).committed, msgs[k].position) == 1,
{
    lemma_run_no_crash_results(s, msgs);
    lemma_committed_count(s, msgs, k);
}

/// A post-commit run that stays below the crash threshold and meets no
/// failure commits every message, in order, and counts every success.
pub proof fn lemma_post_ok_prefix(s: DeliverySemanticsEngine, msgs: Seq<IncomingMessage>)
    requires
        s.policy is Post,
        0 <= s.success_count,
        s.success_count + msgs.len() <= i64::MAX,
        s.crash.threshold < 0 || s.success_count + msgs.len() <= s.crash.threshold,
        forall|i: int| 0 <= i < msgs.len() ==> decodes_without_failure(#[trigger] msgs[i], s.rule),
    ensures
        !spec_run(s, msgs).crashed,
        spec_run(s, msgs).state.success_count == s.success_count + msgs.len(),
        spec_run(s, msgs).results.len() == msgs.len(),
        forall|i: int|
            0 <= i < msgs.len() ==> spec_run(s, msgs).results[i] == StepResult::Done(
                ProcessingOutcome::Committed,
            ),
        spec_run(s, msgs).committed =~= positions_of(msgs),
    decreases msgs.len(),
{
    if msgs.len() > 0 {
        lemma_post_ok_prefix(s, msgs.drop_last());
        lemma_run_keeps_config(s, msgs.drop_last());
        let prev = spec_run(s, msgs.drop_last());
        let g = spec_run(s, msgs);
        assert(decodes_without_failure(msgs[msgs.len() - 1], s.rule));
        assert(g.committed =~= positions_of(msgs)) by {
            assert(prev.committed =~= positions_of(msgs.drop_last()));
            assert(g.committed.last() == msgs.last().position);
        }
        assert(forall|i: int|
            0 <= i < msgs.len() - 1 ==> g.results[i] == prev.results[i]);
    }
}

/// CRASH INJECTION. Under the post-commit policy with a non-negative crash
/// threshold `t`, a run of decodable, non-failing messages commits exactly
/// the first `t` positions, then terminates on the next message — strictly
/// before that message's commit is issued: its position is not in the
/// commit log, and nothing after it is ever handled.
pub proof fn lemma_post_crash_before_commit(s: DeliverySemanticsEngine, msgs: Seq<IncomingMessage>)
    requires
        s.policy is Post,
        s.success_count == 0,
        0 <= s.crash.threshold < msgs.len(),
        msgs.len() <= i64::MAX,
        distinct_positions(msgs),
        forall|i: int|
            0 <= i <= s.crash.threshold ==> decodes_without_failure(#[trigger] msgs[i], s.rule),
    ensures
        spec_run(s, msgs).crashed,
        spec_run(s, msgs).results.len() == s.crash.threshold + 1,
        spec_run(s, msgs).results[s.crash.threshold as int] == StepResult::Crashed,
        forall|i: int|
            0 <= i < s.crash.threshold ==> spec_run(s, msgs).results[i] == StepResult::Done(
                ProcessingOutcome::Committed,
            ),
        spec_run(s, msgs).committed =~= positions_of(msgs.take(s.crash.threshold as int)),
        !spec_run(s, msgs).committed.contains(msgs[s.crash.threshold as int].position),
{
    let t = s.crash.threshold as int;
    let head = msgs.take(t);
    assert(forall|i: int| 0 <= i < head.len() ==> head[i] == msgs[i]);
    lemma_post_ok_prefix(s, head);
    lemma_run_keeps_config(s, head);
    let prev = spec_run(s, head);
    assert(msgs.take(t + 1).drop_last() =~= head);
    assert(msgs.take(t + 1).last() == msgs[t]);
    let g1 = spec_run(s, msgs.take(t + 1));
    assert(spec_step(prev.state, msgs[t]).1 == StepResult::Crashed);
    assert(g1.crashed);
    assert(g1.results == prev.results.push(StepResult::Crashed));
    assert(g1.committed == prev.committed);
    crate::engine::lemma_run_crash_stops(s, msgs, t + 1);
    let g = spec_run(s, msgs);
    assert(g == g1);
    assert(g.results[t] == StepResult::Crashed);
    assert(forall|i: int| 0 <= i < t ==> g.results[i] == prev.results[i]);
    assert(!g.committed.contains(msgs[t].position)) by {
        if g.committed.contains(msgs[t].position) {
            let j = choose|j: int|
                0 <= j < g.committed.len() && g.committed[j] == msgs[t].position;
            assert(positions_of(head)[j] == head[j].position);
            assert(msgs[j].position == msgs[t].position);
        }
    }
}

} // verus!
