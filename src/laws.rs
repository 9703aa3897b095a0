//! Properties that hold across calls of the aggregation and the
//! reconciliation.
use crate::aggregate::{
    Aggregates,
    ProcessRecord,
    UNKNOWN_OWNER,
    count_of,
    is_total_of,
    lemma_share_within_total,
    resident_of,
    resolved_owners,
    swap_of,
};
use crate::gauges::family_children;
use crate::publish::{OwnerMetrics, keys_apart, owner_key, owner_labels, owners_of, reconciled};
use vstd::prelude::*;

verus! {

/// An absent memory or swap figure counts exactly as a reported zero, and
/// the record's process is counted whatever its figures (the count of an
/// owner is taken from the owners of the records alone).
pub proof fn absent_figures_count_as_zero(
    recs: Seq<ProcessRecord>,
    owners: Seq<Seq<char>>,
    k: int,
    o: Seq<char>,
    n: nat,
)
    requires
        0 <= k < recs.len(),
        n <= recs.len(),
        owners.len() == recs.len(),
    ensures
        recs[k].resident_kib is None ==> resident_of(recs, owners, o, n) == resident_of(
            recs.update(k, ProcessRecord { resident_kib: Some(0), ..recs[k] }),
            owners,
            o,
            n,
        ),
        recs[k].swap_kib is None ==> swap_of(recs, owners, o, n) == swap_of(
            recs.update(k, ProcessRecord { swap_kib: Some(0), ..recs[k] }),
            owners,
            o,
            n,
        ),
        owners[k] == o && k < n ==> count_of(owners, o, n) >= 1,
    decreases n,
{
    if n > 0 {
        absent_figures_count_as_zero(recs, owners, k, o, (n - 1) as nat);
        lemma_share_within_total(recs, owners, o, (n - 1) as nat);
    }
}

/// A snapshot with one more record, whose memory and swap figures are both
/// absent, gives its owner one more process and the same memory and swap;
/// every other owner's totals stay as they were.
pub proof fn added_record_without_figures_counts_once(
    recs: Seq<ProcessRecord>,
    owners: Seq<Seq<char>>,
    r: ProcessRecord,
    u: Seq<char>,
    o: Seq<char>,
)
    requires
        owners.len() == recs.len(),
        r.resident_kib is None,
        r.swap_kib is None,
    ensures
        count_of(owners.push(u), o, recs.len() + 1) == count_of(owners, o, recs.len()) + if u
            == o {
            1int
        } else {
            0int
        },
        resident_of(recs.push(r), owners.push(u), o, recs.len() + 1) == resident_of(
            recs,
            owners,
            o,
            recs.len(),
        ),
        swap_of(recs.push(r), owners.push(u), o, recs.len() + 1) == swap_of(
            recs,
            owners,
            o,
            recs.len(),
        ),
{
    lemma_prefix_unchanged(recs, owners, r, u, o, recs.len());
}

/// Totals over the first `n` records ignore what is appended after them.
proof fn lemma_prefix_unchanged(
    recs: Seq<ProcessRecord>,
    owners: Seq<Seq<char>>,
    r: ProcessRecord,
    u: Seq<char>,
    o: Seq<char>,
    n: nat,
)
    requires
        owners.len() == recs.len(),
        n <= recs.len(),
    ensures
        count_of(owners.push(u), o, n) == count_of(owners, o, n),
        resident_of(recs.push(r), owners.push(u), o, n) == resident_of(recs, owners, o, n),
        swap_of(recs.push(r), owners.push(u), o, n) == swap_of(recs, owners, o, n),
    decreases n,
{
    if n > 0 {
        lemma_prefix_unchanged(recs, owners, r, u, o, (n - 1) as nat);
    }
}

/// Number of the first `n` resolution results that failed.
pub open spec fn unresolved_count(names: Seq<Option<String>>, n: nat) -> int
    decreases n,
{
    if n == 0 {
        0
    } else {
        unresolved_count(names, (n - 1) as nat) + if names[n - 1] is None {
            1int
        } else {
            0int
        }
    }
}

/// Where no resolved name is itself [`UNKNOWN_OWNER`], the records under
/// that owner are exactly those whose resolution failed.
proof fn lemma_unknown_count(names: Seq<Option<String>>, n: nat)
    requires
        n <= names.len(),
        forall|k: int| 0 <= k < names.len() && #[trigger] names[k] is Some ==> names[k]->0@ != UNKNOWN_OWNER@,
    ensures
        count_of(resolved_owners(names), UNKNOWN_OWNER@, n) == unresolved_count(names, n),
    decreases n,
{
    if n > 0 {
        lemma_unknown_count(names, (n - 1) as nat);
    }
}

/// Records whose owner could not be resolved all land in one entry, the
/// one of [`UNKNOWN_OWNER`], which counts every one of them; where no user
/// is named [`UNKNOWN_OWNER`], it counts exactly them.
pub proof fn unresolved_owners_share_one_entry(
    a: Aggregates,
    recs: Seq<ProcessRecord>,
    names: Seq<Option<String>>,
    i: int,
)
    requires
        names.len() == recs.len(),
        a.is_tally_of(recs, resolved_owners(names)),
        0 <= i < names.len(),
        names[i] is None,
    ensures
        exists|j: int|
            0 <= j < a.entries@.len() && a.entries@[j].owner@ == UNKNOWN_OWNER@ && (forall|j2: int|
                0 <= j2 < a.entries@.len() && a.entries@[j2].owner@ == UNKNOWN_OWNER@ ==> j2 == j)
                && a.entries@[j].totals.count == count_of(
                resolved_owners(names),
                UNKNOWN_OWNER@,
                recs.len(),
            ) && ((forall|k: int|
                0 <= k < names.len() && #[trigger] names[k] is Some ==> names[k]->0@
                    != UNKNOWN_OWNER@) ==> a.entries@[j].totals.count == unresolved_count(
                names,
                recs.len(),
            )),
{
    let owners = resolved_owners(names);
    assert(owners[i] == UNKNOWN_OWNER@);
    assert(exists|k: int| 0 <= k < recs.len() && owners[k] == UNKNOWN_OWNER@);
    assert(a.has_owner(UNKNOWN_OWNER@));
    let j = choose|j: int| 0 <= j < a.entries@.len() && a.entries@[j].owner@ == UNKNOWN_OWNER@;
    assert(is_total_of(a.entries@[j].totals, recs, owners, a.entries@[j].owner@, recs.len()));
    if forall|k: int|
        0 <= k < names.len() && #[trigger] names[k] is Some ==> names[k]->0@ != UNKNOWN_OWNER@ {
        lemma_unknown_count(names, recs.len());
    }
}

/// Reconciling a second time with the same aggregates leaves the gauges
/// exactly as the first time left them, unless two of the owners involved
/// share a key.
pub proof fn reconcile_is_idempotent(
    m0: OwnerMetrics,
    m1: OwnerMetrics,
    m2: OwnerMetrics,
    current: Aggregates,
)
    requires
        reconciled(m0, m1, current),
        reconciled(m1, m2, current),
        keys_apart(
            m0.hostgroup@,
            m0.instance@,
            m0.published().dom().union(owners_of(current)),
        ),
    ensures
        m2.published() == m1.published(),
        family_children(m2.processes) == family_children(m1.processes),
        family_children(m2.resident) == family_children(m1.resident),
        family_children(m2.swap) == family_children(m1.swap),
{
    let hg = m0.hostgroup@;
    let inst = m0.instance@;
    assert(m1.published() == current.totals_map());
    assert(m1.published().dom() =~= owners_of(current));
    assert(m1.published().dom().union(owners_of(current)) =~= owners_of(current));
    assert forall|a: Seq<char>, b: Seq<char>|
        owners_of(current).contains(a) && owners_of(current).contains(b) && #[trigger] owner_key(
            hg,
            inst,
            a,
        ) == #[trigger] owner_key(hg, inst, b) implies a == b by {
        assert(m0.published().dom().union(owners_of(current)).contains(a));
        assert(m0.published().dom().union(owners_of(current)).contains(b));
    }
    assert(m2.published() == m1.published());
    lemma_children_follow_published(m1);
    lemma_children_follow_published(m2);
    let p1 = family_children(m1.processes);
    let p2 = family_children(m2.processes);
    assert forall|h: u64| p1.contains_key(h) <==> p2.contains_key(h) by {
        if p1.contains_key(h) {
            let o = p1[h].0[3];
            assert(m1.published().contains_key(o));
        }
        if p2.contains_key(h) {
            let o = p2[h].0[3];
            assert(m2.published().contains_key(o));
        }
    }
    assert(p1.dom() =~= p2.dom());
    assert(p1 =~= p2);
    assert(family_children(m1.resident) =~= family_children(m2.resident));
    assert(family_children(m1.swap) =~= family_children(m2.swap));
}

/// Under well-formedness each child is the gauge of a published owner,
/// holding that owner's labels and published figure.
proof fn lemma_children_follow_published(m: OwnerMetrics)
    requires
        m.wf(),
    ensures
        forall|h: u64|
            #[trigger] family_children(m.processes).contains_key(h) ==> {
                let o = family_children(m.processes)[h].0[3];
                &&& m.published().contains_key(o)
                &&& owner_key(m.hostgroup@, m.instance@, o) == h
                &&& family_children(m.processes)[h] == (
                    owner_labels(m.hostgroup@, m.instance@, o),
                    m.published()[o].0,
                )
                &&& family_children(m.resident)[h] == (
                    owner_labels(m.hostgroup@, m.instance@, o),
                    m.published()[o].1,
                )
                &&& family_children(m.swap)[h] == (
                    owner_labels(m.hostgroup@, m.instance@, o),
                    m.published()[o].2,
                )
            },
{
}

} // verus!
