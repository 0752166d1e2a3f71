//! Deterministic failure injection: a pure rule deciding whether processing
//! of an event is made to fail. The same rule serves the manual-offset lab
//! and the delivery-semantics lab.

use vstd::prelude::*;
use crate::event::Event;

verus! {

/// A failure-injection rule. An event fails if `modulus > 0` and the event's
/// value is divisible by `modulus`, or if `matching_action` is set and equals
/// the event's action. A `modulus` of zero (or below) disables the modulus
/// check.
#[derive(Debug, Clone, PartialEq)]
pub struct FailureRule {
    pub modulus: i64,
    pub matching_action: Option<String>,
}

/// What `should_fail` returns, as a pure function of the event and the rule.
pub open spec fn spec_should_fail(e: Event, r: FailureRule) -> bool {
    ||| (r.modulus > 0 && e.value as int % r.modulus as int == 0)
    ||| (match r.matching_action {
        Some(a) => a@ == e.action@,
        None => false,
    })
}

/// Decide whether processing of `event` is made to fail under `rule`.
/// Pure, deterministic, and total: the modulus rule and the action-match
/// rule are combined by logical or.
pub fn should_fail(event: &Event, rule: &FailureRule) -> (r: bool)
    ensures
        r == spec_should_fail(*event, *rule),
{
    let mut fail = false;
    if rule.modulus > 0 {
        if let Some(rem) = event.value.checked_rem_euclid(rule.modulus) {
            if rem == 0 {
                fail = true;
            }
        }
    }
    match &rule.matching_action {
        Some(a) => {
            if crate::strutil::str_eq(a.as_str(), event.action.as_str()) {
                fail = true;
            }
        }
        None => {}
    }
    fail
}

} // verus!
