//! The unit of payload flowing through the labs: a flat, fixed-schema record.

use vstd::prelude::*;

verus! {

/// One application event. The schema is fixed and unversioned.
#[derive(Debug, Clone, PartialEq)]
pub struct Event {
    pub user_id: String,
    pub action: String,
    pub value: i64,
}

} // verus!
