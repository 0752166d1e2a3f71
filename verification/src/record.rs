//! The outbound-record builder: given a partitioning mode and an optional
//! key, decide whether the record carries a key at all.

use vstd::prelude::*;
use crate::config::PartitioningMode;

verus! {

/// Why a record could not be built. `MissingKey` is recoverable: the caller
/// must supply a key or switch modes; it is never silently downgraded to
/// round-robin.
#[derive(Debug, Clone, Copy, PartialEq, Eq, Structural)]
pub enum BuildRecordError {
    MissingKey,
}

/// One outbound message, ready for the broker collaborator to publish:
/// topic, optional partitioning key, and payload.
#[derive(Debug, PartialEq)]
pub struct OutboundRecord {
    pub topic: String,
    pub key: Option<String>,
    pub payload: Vec<u8>,
}

/// Build an outbound record.
///
/// Under `RoundRobin` this always succeeds and the record carries no key,
/// even when one was supplied: downstream partition assignment is then
/// load-balanced rather than key-affine. Under `Keyed` it succeeds exactly
/// when a key is present — the key gives partition affinity, guaranteed by
/// the broker's default partitioner — and fails with `MissingKey` otherwise.
pub fn build_record(
    maybe_key: Option<&str>,
    payload: &[u8],
    topic: &str,
    partition_mode: PartitioningMode,
) -> (r: Result<OutboundRecord, BuildRecordError>)
    ensures
        partition_mode == PartitioningMode::RoundRobin ==> (r matches Ok(rec) && rec.key is None),
        partition_mode == PartitioningMode::Keyed && maybe_key is Some ==> (r matches Ok(rec)
            && rec.key matches Some(k) && k@ == maybe_key.unwrap()@),
        partition_mode == PartitioningMode::Keyed && maybe_key is None <==> r == Err::<
            OutboundRecord,
            BuildRecordError,
        >(BuildRecordError::MissingKey),
        r matches Ok(rec) ==> rec.topic@ == topic@ && rec.payload@ == payload@,
{
    let key = match partition_mode {
        PartitioningMode::Keyed => match maybe_key {
            Some(k) => Some(k.to_owned()),
            None => {
                return Err(BuildRecordError::MissingKey);
            },
        },
        PartitioningMode::RoundRobin => None,
    };
    Ok(
        OutboundRecord {
            topic: topic.to_owned(),
            key,
            payload: vstd::slice::slice_to_vec(payload),
        },
    )
}

} // verus!
