use delivery_lab::engine::{
    commits_position, CommitPolicy, CrashPolicy, DeliverySemanticsEngine, IncomingMessage,
    OnDecodeError, Position, ProcessingOutcome, StepResult,
};
use delivery_lab::event::Event;
use delivery_lab::failure::FailureRule;

fn event(value: i64) -> Event {
    Event { user_id: "u1".to_string(), action: "click".to_string(), value }
}

fn msg(offset: i64, value: i64) -> IncomingMessage {
    IncomingMessage { position: Position { partition: 0, offset }, decoded: Some(event(value)) }
}

fn engine(policy: CommitPolicy, fail_mod: i64, crash_after: i64) -> DeliverySemanticsEngine {
    DeliverySemanticsEngine::new(
        policy,
        FailureRule { modulus: fail_mod, matching_action: None },
        CrashPolicy { threshold: crash_after },
        OnDecodeError::LeaveUncommitted,
    )
}

#[test]
fn pre_policy_commits_then_reports_failure() {
    // One event ("u1", "click", 5) with fail_mod = 5 under Pre: the commit is
    // issued, processing is reported failed, the success counter is unchanged.
    let mut e = engine(CommitPolicy::Pre, 5, -1);
    let log = e.run(&vec![msg(0, 5)]);
    assert_eq!(log.results, vec![StepResult::Done(ProcessingOutcome::CommittedThenFailed)]);
    assert_eq!(log.committed, vec![Position { partition: 0, offset: 0 }]);
    assert!(!log.crashed);
    assert_eq!(e.success_count, 0);
}

#[test]
fn post_policy_leaves_failure_outstanding() {
    // The same input under Post: no commit issued, the message remains
    // outstanding for redelivery.
    let mut e = engine(CommitPolicy::Post, 5, -1);
    let log = e.run(&vec![msg(0, 5)]);
    assert_eq!(log.results, vec![StepResult::Done(ProcessingOutcome::FailedNotCommitted)]);
    assert!(log.committed.is_empty());
    assert!(!log.crashed);
    assert_eq!(e.success_count, 0);
}

#[test]
fn pre_policy_commits_whole_sequence_despite_failure() {
    // Messages 0..3 with message 1 failure-triggering: under Pre, every
    // position is committed, message 1's included — the at-most-once loss.
    let mut e = engine(CommitPolicy::Pre, 5, -1);
    let log = e.run(&vec![msg(10, 1), msg(11, 5), msg(12, 2)]);
    assert_eq!(
        log.results,
        vec![
            StepResult::Done(ProcessingOutcome::Committed),
            StepResult::Done(ProcessingOutcome::CommittedThenFailed),
            StepResult::Done(ProcessingOutcome::Committed),
        ]
    );
    let offsets: Vec<i64> = log.committed.iter().map(|p| p.offset).collect();
    assert_eq!(offsets, vec![10, 11, 12]);
    assert_eq!(e.success_count, 2);
}

#[test]
fn post_policy_skips_failing_commit_only() {
    // Same sequence under Post: message 1's position is never committed.
    let mut e = engine(CommitPolicy::Post, 5, -1);
    let log = e.run(&vec![msg(10, 1), msg(11, 5), msg(12, 2)]);
    assert_eq!(
        log.results,
        vec![
            StepResult::Done(ProcessingOutcome::Committed),
            StepResult::Done(ProcessingOutcome::FailedNotCommitted),
            StepResult::Done(ProcessingOutcome::Committed),
        ]
    );
    let offsets: Vec<i64> = log.committed.iter().map(|p| p.offset).collect();
    assert_eq!(offsets, vec![10, 12]);
    assert_eq!(e.success_count, 2);
}

#[test]
fn post_policy_redelivery_commits_exactly_once() {
    // First run: the message fails, stays uncommitted. Simulated restart:
    // a fresh engine whose rule no longer fires redelivers the message, and
    // it is committed exactly once.
    let mut first = engine(CommitPolicy::Post, 5, -1);
    let log1 = first.run(&vec![msg(11, 5)]);
    assert!(log1.committed.is_empty());

    let mut second = engine(CommitPolicy::Post, 0, -1);
    let log2 = second.run(&vec![msg(11, 5)]);
    assert_eq!(log2.results, vec![StepResult::Done(ProcessingOutcome::Committed)]);
    let hits = log2
        .committed
        .iter()
        .filter(|p| **p == Position { partition: 0, offset: 11 })
        .count();
    assert_eq!(hits, 1);
}

#[test]
fn crash_fires_after_threshold_before_commit() {
    // crash_after = 2 under Post: the process dies right after the second
    // success, strictly before the third message's commit is issued.
    let mut e = engine(CommitPolicy::Post, 0, 2);
    let log = e.run(&vec![msg(0, 1), msg(1, 2), msg(2, 3), msg(3, 4)]);
    assert!(log.crashed);
    assert_eq!(
        log.results,
        vec![
            StepResult::Done(ProcessingOutcome::Committed),
            StepResult::Done(ProcessingOutcome::Committed),
            StepResult::Crashed,
        ]
    );
    let offsets: Vec<i64> = log.committed.iter().map(|p| p.offset).collect();
    assert_eq!(offsets, vec![0, 1], "the crashing message's position is never committed");
    assert_eq!(e.success_count, 2);
}

#[test]
fn crash_ignored_under_pre_and_txn() {
    let mut pre = engine(CommitPolicy::Pre, 0, 0);
    let log = pre.run(&vec![msg(0, 1), msg(1, 2)]);
    assert!(!log.crashed);
    assert_eq!(log.committed.len(), 2);

    let mut txn = engine(CommitPolicy::Txn, 0, 0);
    let log = txn.run(&vec![msg(0, 1)]);
    assert!(!log.crashed);
    assert_eq!(log.committed.len(), 1);
}

#[test]
fn txn_stub_behaves_like_post() {
    let mut txn = engine(CommitPolicy::Txn, 5, -1);
    let log = txn.run(&vec![msg(0, 5), msg(1, 1)]);
    assert_eq!(
        log.results,
        vec![
            StepResult::Done(ProcessingOutcome::FailedNotCommitted),
            StepResult::Done(ProcessingOutcome::Committed),
        ]
    );
    let offsets: Vec<i64> = log.committed.iter().map(|p| p.offset).collect();
    assert_eq!(offsets, vec![1]);
}

#[test]
fn undecodable_payload_is_skipped_without_commit() {
    let mut e = engine(CommitPolicy::Post, 0, -1);
    let bad = IncomingMessage { position: Position { partition: 1, offset: 7 }, decoded: None };
    let log = e.run(&vec![bad, msg(8, 1)]);
    assert_eq!(
        log.results,
        vec![StepResult::DecodeSkipped, StepResult::Done(ProcessingOutcome::Committed)]
    );
    let offsets: Vec<i64> = log.committed.iter().map(|p| p.offset).collect();
    assert_eq!(offsets, vec![8]);
    assert_eq!(e.success_count, 1, "a skipped message is no success");
}

#[test]
fn step_results_map_to_commit_obligations() {
    assert!(commits_position(StepResult::Done(ProcessingOutcome::Committed)));
    assert!(commits_position(StepResult::Done(ProcessingOutcome::CommittedThenFailed)));
    assert!(!commits_position(StepResult::Done(ProcessingOutcome::FailedNotCommitted)));
    assert!(!commits_position(StepResult::Crashed));
    assert!(!commits_position(StepResult::DecodeSkipped));
}

#[test]
fn step_drives_one_message_at_a_time() {
    let mut e = engine(CommitPolicy::Post, 2, -1);
    let r1 = e.step(&msg(0, 3));
    assert_eq!(r1, StepResult::Done(ProcessingOutcome::Committed));
    assert_eq!(e.success_count, 1);
    let r2 = e.step(&msg(1, 4));
    assert_eq!(r2, StepResult::Done(ProcessingOutcome::FailedNotCommitted));
    assert_eq!(e.success_count, 1);
}
