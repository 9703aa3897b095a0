//! One sampling cycle, and the pacing of the cycles.
use crate::aggregate::{
    Aggregates,
    BYTES_PER_KIB,
    ProcessRecord,
    aggregate,
    fits,
    fits_in_gauges,
    resolved_owners,
    sum_counts,
    sum_resident,
    sum_swap,
    total_resident,
    total_swap,
};
use crate::publish::{OwnerMetrics, reconciled};
use vstd::prelude::*;

verus! {

/// Target time from the start of one cycle to the start of the next, in
/// nanoseconds.
pub const CYCLE_PERIOD_NANOS: u64 = 15_000_000_000;

/// How a cycle ended.
#[derive(Clone, Copy, Debug, PartialEq, Eq, Structural)]
pub enum CycleOutcome {
    /// The gauges now show the snapshot's aggregates.
    Published,
    /// No snapshot could be taken; the gauges were left as they were.
    SnapshotUnavailable,
    /// The snapshot's totals do not fit the gauges; the gauges were left as
    /// they were.
    OutOfRange,
}

/// Runs one cycle on a snapshot, or on `None` where the process table could
/// not be read. A missing snapshot leaves the gauges untouched, so the last
/// published figures stay. Otherwise the snapshot is aggregated, owners
/// being resolved through `users`, and the gauges are reconciled with the
/// result: the entries account for every record of the snapshot once, and
/// the gauges show exactly those entries unless two owners share a key.
pub fn run_cycle(
    metrics: &mut OwnerMetrics,
    users: &users::UsersCache,
    snapshot: Option<Vec<ProcessRecord>>,
) -> (r: CycleOutcome)
    requires
        old(metrics).wf(),
    ensures
        final(metrics).wf(),
        snapshot is None ==> r == CycleOutcome::SnapshotUnavailable && *final(metrics) == *old(
            metrics,
        ),
        snapshot.is_some() && !fits_in_gauges(snapshot.unwrap()@) ==> r
            == CycleOutcome::OutOfRange && *final(metrics) == *old(metrics),
        snapshot.is_some() && fits_in_gauges(snapshot.unwrap()@) ==> r == CycleOutcome::Published
            && exists|a: Aggregates, names: Seq<Option<String>>|
            names.len() == snapshot.unwrap()@.len() && #[trigger] a.is_tally_of(
                snapshot.unwrap()@,
                resolved_owners(names),
            ) && sum_counts(a.entries@) == snapshot.unwrap()@.len() && sum_resident(a.entries@)
                == total_resident(snapshot.unwrap()@, snapshot.unwrap()@.len()) * BYTES_PER_KIB
                && sum_swap(a.entries@) == total_swap(snapshot.unwrap()@, snapshot.unwrap()@.len())
                * BYTES_PER_KIB && #[trigger] reconciled(*old(metrics), *final(metrics), a),
{
    match snapshot {
        None => CycleOutcome::SnapshotUnavailable,
        Some(s) => {
            if !fits(&s) {
                return CycleOutcome::OutOfRange;
            }
            let current = aggregate(&s, users);
            metrics.reconcile(&current);
            CycleOutcome::Published
        },
    }
}

/// How long to wait, in nanoseconds, after a cycle that took
/// `elapsed_nanos`: the rest of the period, or nothing where the cycle
/// overran it.
pub fn pause_after(elapsed_nanos: u128) -> (r: u64)
    ensures
        elapsed_nanos < CYCLE_PERIOD_NANOS ==> r == CYCLE_PERIOD_NANOS - elapsed_nanos,
        elapsed_nanos >= CYCLE_PERIOD_NANOS ==> r == 0,
{
    if elapsed_nanos < CYCLE_PERIOD_NANOS as u128 {
        CYCLE_PERIOD_NANOS - elapsed_nanos as u64
    } else {
        0
    }
}

} // verus!
