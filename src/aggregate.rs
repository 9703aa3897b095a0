//! Grouping of one process snapshot by owner.
use vstd::prelude::*;

verus! {

/// A cache of the system's user database.
#[verifier::external_type_specification]
#[verifier::external_body]
pub struct ExUsersCache(users::UsersCache);

/// Relies on `Users::get_user_by_uid` of `UsersCache`: the name of the user
/// with that id, if the user database knows one. What it answers depends on
/// the system, so nothing is promised of it. A name that is not valid UTF-8
/// counts as unresolved.
#[verifier::external_body]
fn lookup_user_name(cache: &users::UsersCache, uid: u32) -> Option<String> {
    users::Users::get_user_by_uid(cache, uid).and_then(|u| u.name().to_str().map(|n| n.to_string()))
}

/// Bytes in one kibibyte: the process source reports memory in KiB and the
/// gauges publish bytes, so every reported amount is scaled by this factor.
pub const BYTES_PER_KIB: i64 = 1024;

/// Owner name used for a process whose owner id could not be resolved.
pub const UNKNOWN_OWNER: &'static str = "unknown";

/// One process as seen by the process source.
pub struct ProcessRecord {
    /// Effective owner id.
    pub uid: u32,
    /// Resident memory in KiB, when the source reported it.
    pub resident_kib: Option<u64>,
    /// Swap usage in KiB, when the source reported it.
    pub swap_kib: Option<u64>,
}

/// Totals for one owner over one snapshot.
#[derive(Clone, Copy, Debug, PartialEq, Eq, Structural)]
pub struct OwnerAggregate {
    /// Number of processes of the owner.
    pub count: i64,
    /// Resident memory in bytes.
    pub resident_memory: i64,
    /// Swap usage in bytes.
    pub swap: i64,
}

/// The totals of one owner.
pub struct OwnerEntry {
    pub owner: String,
    pub totals: OwnerAggregate,
}

/// Result of aggregating a snapshot: one entry per distinct owner, in no
/// particular order.
pub struct Aggregates {
    pub entries: Vec<OwnerEntry>,
}

/// Amount in KiB contributed by an optional field: absent counts as zero.
pub open spec fn kib(v: Option<u64>) -> int {
    match v {
        Some(x) => x as int,
        None => 0,
    }
}

/// The owner name under which a resolution result is aggregated.
pub open spec fn owner_of(name: Option<String>) -> Seq<char> {
    match name {
        Some(n) => n@,
        None => UNKNOWN_OWNER@,
    }
}

/// Number of the first `n` records that belong to `o`.
pub open spec fn count_of(owners: Seq<Seq<char>>, o: Seq<char>, n: nat) -> int
    decreases n,
{
    if n == 0 {
        0
    } else {
        count_of(owners, o, (n - 1) as nat) + if owners[n - 1] == o { 1int } else { 0int }
    }
}

/// Resident memory, in KiB, of the first `n` records that belong to `o`.
pub open spec fn resident_of(recs: Seq<ProcessRecord>, owners: Seq<Seq<char>>, o: Seq<char>, n: nat) -> int
    decreases n,
{
    if n == 0 {
        0
    } else {
        resident_of(recs, owners, o, (n - 1) as nat) + if owners[n - 1] == o {
            kib(recs[n - 1].resident_kib)
        } else {
            0
        }
    }
}

/// Swap usage, in KiB, of the first `n` records that belong to `o`.
pub open spec fn swap_of(recs: Seq<ProcessRecord>, owners: Seq<Seq<char>>, o: Seq<char>, n: nat) -> int
    decreases n,
{
    if n == 0 {
        0
    } else {
        swap_of(recs, owners, o, (n - 1) as nat) + if owners[n - 1] == o {
            kib(recs[n - 1].swap_kib)
        } else {
            0
        }
    }
}

/// Resident memory, in KiB, of the first `n` records.
pub open spec fn total_resident(recs: Seq<ProcessRecord>, n: nat) -> int
    decreases n,
{
    if n == 0 {
        0
    } else {
        total_resident(recs, (n - 1) as nat) + kib(recs[n - 1].resident_kib)
    }
}

/// Swap usage, in KiB, of the first `n` records.
pub open spec fn total_swap(recs: Seq<ProcessRecord>, n: nat) -> int
    decreases n,
{
    if n == 0 {
        0
    } else {
        total_swap(recs, (n - 1) as nat) + kib(recs[n - 1].swap_kib)
    }
}

/// A snapshot whose totals, in bytes, fit the gauges' 64-bit values.
pub open spec fn fits_in_gauges(recs: Seq<ProcessRecord>) -> bool {
    &&& recs.len() <= i64::MAX
    &&& total_resident(recs, recs.len()) * BYTES_PER_KIB <= i64::MAX
    &&& total_swap(recs, recs.len()) * BYTES_PER_KIB <= i64::MAX
}

/// `t` holds the exact totals, in bytes, of owner `o` over the first `n` records.
pub open spec fn is_total_of(
    t: OwnerAggregate,
    recs: Seq<ProcessRecord>,
    owners: Seq<Seq<char>>,
    o: Seq<char>,
    n: nat,
) -> bool {
    &&& t.count == count_of(owners, o, n)
    &&& t.resident_memory == resident_of(recs, owners, o, n) * BYTES_PER_KIB
    &&& t.swap == swap_of(recs, owners, o, n) * BYTES_PER_KIB
}

/// The owner names that a sequence of resolution results stands for.
pub open spec fn resolved_owners(names: Seq<Option<String>>) -> Seq<Seq<char>> {
    Seq::new(names.len(), |i: int| owner_of(names[i]))
}

/// Sum of the process counts of a sequence of entries.
pub open spec fn sum_counts(es: Seq<OwnerEntry>) -> int
    decreases es.len(),
{
    if es.len() == 0 {
        0
    } else {
        sum_counts(es.drop_last()) + es.last().totals.count
    }
}

/// Sum of the resident memory of a sequence of entries.
pub open spec fn sum_resident(es: Seq<OwnerEntry>) -> int
    decreases es.len(),
{
    if es.len() == 0 {
        0
    } else {
        sum_resident(es.drop_last()) + es.last().totals.resident_memory
    }
}

/// Sum of the swap usage of a sequence of entries.
pub open spec fn sum_swap(es: Seq<OwnerEntry>) -> int
    decreases es.len(),
{
    if es.len() == 0 {
        0
    } else {
        sum_swap(es.drop_last()) + es.last().totals.swap
    }
}

/// Whether some entry of `es` belongs to `o`.
pub open spec fn entries_have_owner(es: Seq<OwnerEntry>, o: Seq<char>) -> bool {
    exists|i: int| 0 <= i < es.len() && es[i].owner@ == o
}

impl Aggregates {
    /// No owner appears in two entries.
    pub open spec fn owners_distinct(&self) -> bool {
        forall|i: int, j: int|
            0 <= i < j < self.entries@.len() ==> self.entries@[i].owner@ != self.entries@[j].owner@
    }

    /// Whether some entry belongs to `o`.
    pub open spec fn has_owner(&self, o: Seq<char>) -> bool {
        entries_have_owner(self.entries@, o)
    }

    /// The totals of each owner, as (process count, resident bytes, swap bytes).
    pub open spec fn totals_map(&self) -> Map<Seq<char>, (int, int, int)> {
        Map::new(
            |o: Seq<char>| self.has_owner(o),
            |o: Seq<char>|
                {
                    let i = choose|i: int| 0 <= i < self.entries@.len() && self.entries@[i].owner@ == o;
                    let t = self.entries@[i].totals;
                    (t.count as int, t.resident_memory as int, t.swap as int)
                },
        )
    }

    /// The aggregates of a snapshot whose records are owned by `owners`,
    /// position by position: one entry per distinct owner, holding the exact
    /// totals of that owner.
    pub open spec fn is_tally_of(&self, recs: Seq<ProcessRecord>, owners: Seq<Seq<char>>) -> bool {
        self.is_partial_tally_of(recs, owners, recs.len())
    }

    /// The aggregates of the first `n` records.
    pub open spec fn is_partial_tally_of(
        &self,
        recs: Seq<ProcessRecord>,
        owners: Seq<Seq<char>>,
        n: nat,
    ) -> bool {
        &&& self.owners_distinct()
        &&& forall|o: Seq<char>|
            self.has_owner(o) <==> exists|k: int| 0 <= k < n && owners[k] == o
        &&& forall|i: int|
            0 <= i < self.entries@.len() ==> is_total_of(
                #[trigger] self.entries@[i].totals,
                recs,
                owners,
                self.entries@[i].owner@,
                n,
            )
    }
}

/// Whether the totals of `snapshot`, in bytes, fit the gauges' 64-bit values.
pub fn fits(snapshot: &Vec<ProcessRecord>) -> (r: bool)
    ensures
        r == fits_in_gauges(snapshot@),
{
    let limit: u64 = (i64::MAX / BYTES_PER_KIB) as u64;
    if snapshot.len() as u64 > i64::MAX as u64 {
        return false;
    }
    let mut res: u64 = 0;
    let mut swp: u64 = 0;
    let mut i: usize = 0;
    while i < snapshot.len()
        invariant
            i <= snapshot@.len(),
            limit == i64::MAX / BYTES_PER_KIB,
            res == total_resident(snapshot@, i as nat),
            swp == total_swap(snapshot@, i as nat),
            res <= limit,
            swp <= limit,
        decreases snapshot@.len() - i,
    {
        let r = kib_or_zero(snapshot[i].resident_kib);
        let w = kib_or_zero(snapshot[i].swap_kib);
        if r > limit - res || w > limit - swp {
            proof {
                lemma_totals_grow(snapshot@, (i + 1) as nat, snapshot@.len());
                assert(total_resident(snapshot@, snapshot@.len()) > limit
                    || total_swap(snapshot@, snapshot@.len()) > limit);
            }
            return false;
        }
        res = res + r;
        swp = swp + w;
        i = i + 1;
    }
    true
}

/// Position of the entry of `owner`, if there is one.
fn find_owner(entries: &Vec<OwnerEntry>, owner: &String) -> (r: Option<usize>)
    ensures
        match r {
            Some(j) => j < entries@.len() && entries@[j as int].owner@ == owner@,
            None => forall|j: int| 0 <= j < entries@.len() ==> entries@[j].owner@ != owner@,
        },
{
    let mut j: usize = 0;
    while j < entries.len()
        invariant
            j <= entries@.len(),
            forall|k: int| 0 <= k < j ==> entries@[k].owner@ != owner@,
        decreases entries@.len() - j,
    {
        if entries[j].owner == *owner {
            return Some(j);
        }
        j = j + 1;
    }
    None
}

/// Amount in KiB of an optional field, absent meaning zero.
fn kib_or_zero(v: Option<u64>) -> (r: u64)
    ensures
        r as int == kib(v),
{
    match v {
        Some(x) => x,
        None => 0,
    }
}

/// Groups a snapshot by owner, where `names[i]` is what resolving the owner
/// id of `snapshot[i]` gave. A failed resolution (`None`) counts under
/// [`UNKNOWN_OWNER`], so all such records share one entry. Absent memory or
/// swap figures count as zero; no record is skipped. Every entry holds the
/// exact totals of its owner, and the entries together account for every
/// record once.
pub fn aggregate_resolved(snapshot: &Vec<ProcessRecord>, names: &Vec<Option<String>>) -> (r:
    Aggregates)
    requires
        names@.len() == snapshot@.len(),
        fits_in_gauges(snapshot@),
    ensures
        r.is_tally_of(snapshot@, resolved_owners(names@)),
        sum_counts(r.entries@) == snapshot@.len(),
        sum_resident(r.entries@) == total_resident(snapshot@, snapshot@.len()) * BYTES_PER_KIB,
        sum_swap(r.entries@) == total_swap(snapshot@, snapshot@.len()) * BYTES_PER_KIB,
{
    let ghost recs = snapshot@;
    let ghost owners = resolved_owners(names@);
    let ghost n = recs.len();
    let mut out = Aggregates { entries: Vec::new() };
    let mut i: usize = 0;
    while i < snapshot.len()
        invariant
            n == snapshot@.len(),
            recs == snapshot@,
            owners == resolved_owners(names@),
            names@.len() == n,
            fits_in_gauges(recs),
            i <= n,
            out.is_partial_tally_of(recs, owners, i as nat),
            sum_counts(out.entries@) == i,
            sum_resident(out.entries@) == total_resident(recs, i as nat) * BYTES_PER_KIB,
            sum_swap(out.entries@) == total_swap(recs, i as nat) * BYTES_PER_KIB,
        decreases n - i,
    {
        let owner: String = match &names[i] {
            Some(s) => s.clone(),
            None => UNKNOWN_OWNER.to_string(),
        };
        proof {
            broadcast use vstd::string::to_string_from_display_ensures_for_str;
            assert(owner@ == owners[i as int]);
            lemma_totals_grow(recs, (i + 1) as nat, n);
            lemma_share_within_total(recs, owners, owner@, (i + 1) as nat);
            lemma_totals_grow(recs, i as nat, n);
            let r = kib(recs[i as int].resident_kib);
            let w = kib(recs[i as int].swap_kib);
            let tr = total_resident(recs, n);
            let tw = total_swap(recs, n);
            assert(r <= tr && w <= tw);
            assert(r * BYTES_PER_KIB <= tr * BYTES_PER_KIB) by (nonlinear_arith)
                requires
                    r <= tr,
            ;
            assert(w * BYTES_PER_KIB <= tw * BYTES_PER_KIB) by (nonlinear_arith)
                requires
                    w <= tw,
            ;
        }
        let rec = &snapshot[i];
        let res = kib_or_zero(rec.resident_kib) as i64 * BYTES_PER_KIB;
        let swp = kib_or_zero(rec.swap_kib) as i64 * BYTES_PER_KIB;
        let ghost before = out.entries@;
        proof {
            assert forall|o: Seq<char>| entries_have_owner(before, o) <==> exists|k: int|
                0 <= k < i && owners[k] == o by {
                assert(out.has_owner(o) == entries_have_owner(before, o));
            }
        }
        match find_owner(&out.entries, &owner) {
            Some(j) => {
                let old_t = out.entries[j].totals;
                let t = OwnerAggregate {
                    count: old_t.count + 1,
                    resident_memory: old_t.resident_memory + res,
                    swap: old_t.swap + swp,
                };
                let e = OwnerEntry { owner, totals: t };
                proof {
                    lemma_sums_update(before, j as int, e);
                }
                out.entries.set(j, e);
                proof {
                    assert(out.entries@ == before.update(j as int, e));
                    assert forall|k: int| 0 <= k < out.entries@.len() implies is_total_of(
                        #[trigger] out.entries@[k].totals,
                        recs,
                        owners,
                        out.entries@[k].owner@,
                        (i + 1) as nat,
                    ) by {
                        assert(is_total_of(before[k].totals, recs, owners, before[k].owner@, i as nat));
                    }
                    lemma_update_keeps_owners(before, j as int, e);
                    lemma_owners_grow(before, out.entries@, owners, i as int);
                }
            },
            None => {
                let t = OwnerAggregate { count: 1, resident_memory: res, swap: swp };
                let e = OwnerEntry { owner, totals: t };
                out.entries.push(e);
                proof {
                    assert(out.entries@.drop_last() =~= before);
                    assert forall|k: int| 0 <= k < out.entries@.len() implies is_total_of(
                        #[trigger] out.entries@[k].totals,
                        recs,
                        owners,
                        out.entries@[k].owner@,
                        (i + 1) as nat,
                    ) by {
                        if k < before.len() {
                            assert(is_total_of(before[k].totals, recs, owners, before[k].owner@, i as nat));
                        } else {
                            assert(!entries_have_owner(before, owner@));
                            assert forall|m: int| 0 <= m < i implies owners[m] != owner@ by {
                                if owners[m] == owner@ {
                                    assert(exists|k: int| 0 <= k < i && owners[k] == owner@);
                                }
                            }
                            lemma_absent_share_zero(recs, owners, owner@, i as nat);
                        }
                    }
                    lemma_push_adds_owner(before, e);
                    lemma_owners_grow(before, out.entries@, owners, i as int);
                }
            },
        }
        i = i + 1;
    }
    out
}

/// Groups a snapshot by owner, resolving each record's owner id through
/// `users`. Whatever names come back, the result is the exact tally of the
/// snapshot under those names: one entry per distinct owner, unresolved ids
/// under [`UNKNOWN_OWNER`], and every record counted once.
pub fn aggregate(snapshot: &Vec<ProcessRecord>, users: &users::UsersCache) -> (r: Aggregates)
    requires
        fits_in_gauges(snapshot@),
    ensures
        exists|names: Seq<Option<String>>|
            names.len() == snapshot@.len() && #[trigger] r.is_tally_of(
                snapshot@,
                resolved_owners(names),
            ),
        sum_counts(r.entries@) == snapshot@.len(),
        sum_resident(r.entries@) == total_resident(snapshot@, snapshot@.len()) * BYTES_PER_KIB,
        sum_swap(r.entries@) == total_swap(snapshot@, snapshot@.len()) * BYTES_PER_KIB,
{
    let mut names: Vec<Option<String>> = Vec::new();
    let mut i: usize = 0;
    while i < snapshot.len()
        invariant
            i <= snapshot@.len(),
            names@.len() == i,
        decreases snapshot@.len() - i,
    {
        names.push(lookup_user_name(users, snapshot[i].uid));
        i = i + 1;
    }
    let r = aggregate_resolved(snapshot, &names);
    assert(r.is_tally_of(snapshot@, resolved_owners(names@)));
    r
}

/// Replacing an entry by one of the same owner keeps the set of owners.
proof fn lemma_update_keeps_owners(es: Seq<OwnerEntry>, j: int, e: OwnerEntry)
    requires
        0 <= j < es.len(),
        e.owner@ == es[j].owner@,
    ensures
        forall|o: Seq<char>|
            #[trigger] entries_have_owner(es.update(j, e), o) <==> entries_have_owner(es, o),
{
    let u = es.update(j, e);
    assert forall|o: Seq<char>| #[trigger] entries_have_owner(u, o) <==> entries_have_owner(es, o) by {
        if entries_have_owner(u, o) {
            let m = choose|m: int| 0 <= m < u.len() && u[m].owner@ == o;
            assert(es[m].owner@ == o);
        }
        if entries_have_owner(es, o) {
            let m = choose|m: int| 0 <= m < es.len() && es[m].owner@ == o;
            assert(u[m].owner@ == o);
        }
    }
}

/// Appending an entry adds its owner to the set of owners.
proof fn lemma_push_adds_owner(es: Seq<OwnerEntry>, e: OwnerEntry)
    ensures
        forall|o: Seq<char>|
            #[trigger] entries_have_owner(es.push(e), o) <==> entries_have_owner(es, o) || o
                == e.owner@,
{
    let u = es.push(e);
    assert forall|o: Seq<char>| #[trigger] entries_have_owner(u, o) <==> entries_have_owner(es, o)
        || o == e.owner@ by {
        if entries_have_owner(u, o) {
            let m = choose|m: int| 0 <= m < u.len() && u[m].owner@ == o;
            if m < es.len() {
                assert(es[m].owner@ == o);
            }
        }
        if entries_have_owner(es, o) {
            let m = choose|m: int| 0 <= m < es.len() && es[m].owner@ == o;
            assert(u[m].owner@ == o);
        }
        if o == e.owner@ {
            assert(u[es.len() as int].owner@ == o);
        }
    }
}

/// After taking record `i`, whose owner now has an entry, the owners with
/// an entry are exactly the owners of the first `i + 1` records.
proof fn lemma_owners_grow(before: Seq<OwnerEntry>, after: Seq<OwnerEntry>, owners: Seq<Seq<char>>, i: int)
    requires
        0 <= i < owners.len(),
        forall|o: Seq<char>|
            #[trigger] entries_have_owner(before, o) <==> exists|k: int| 0 <= k < i && owners[k] == o,
        forall|o: Seq<char>|
            #[trigger] entries_have_owner(after, o) <==> entries_have_owner(before, o) || o
                == owners[i],
    ensures
        forall|o: Seq<char>|
            #[trigger] entries_have_owner(after, o) <==> exists|k: int| 0 <= k < i + 1 && owners[k] == o,
{
    assert forall|o: Seq<char>| #[trigger] entries_have_owner(after, o) <==> exists|k: int|
        0 <= k < i + 1 && owners[k] == o by {
        if exists|k: int| 0 <= k < i + 1 && owners[k] == o {
            let k = choose|k: int| 0 <= k < i + 1 && owners[k] == o;
            if k < i {
                assert(entries_have_owner(before, o));
            }
        }
        if entries_have_owner(before, o) {
            let k = choose|k: int| 0 <= k < i && owners[k] == o;
            assert(0 <= k < i + 1 && owners[k] == o);
        }
        if o == owners[i] {
            assert(0 <= i < i + 1 && owners[i] == o);
        }
    }
}

/// Changing one entry changes each sum by the difference.
proof fn lemma_sums_update(es: Seq<OwnerEntry>, j: int, e: OwnerEntry)
    requires
        0 <= j < es.len(),
    ensures
        sum_counts(es.update(j, e)) == sum_counts(es) - es[j].totals.count + e.totals.count,
        sum_resident(es.update(j, e)) == sum_resident(es) - es[j].totals.resident_memory
            + e.totals.resident_memory,
        sum_swap(es.update(j, e)) == sum_swap(es) - es[j].totals.swap + e.totals.swap,
    decreases es.len(),
{
    let u = es.update(j, e);
    if j == es.len() - 1 {
        assert(u.drop_last() =~= es.drop_last());
    } else {
        assert(u.drop_last() =~= es.drop_last().update(j, e));
        lemma_sums_update(es.drop_last(), j, e);
    }
}

/// One owner's share of the first `n` records is at most the share of all owners.
pub(crate) proof fn lemma_share_within_total(
    recs: Seq<ProcessRecord>,
    owners: Seq<Seq<char>>,
    o: Seq<char>,
    n: nat,
)
    ensures
        0 <= count_of(owners, o, n) <= n,
        0 <= resident_of(recs, owners, o, n) <= total_resident(recs, n),
        0 <= swap_of(recs, owners, o, n) <= total_swap(recs, n),
    decreases n,
{
    if n > 0 {
        lemma_share_within_total(recs, owners, o, (n - 1) as nat);
    }
}

/// An owner with none of the first `n` records has nothing in them.
proof fn lemma_absent_share_zero(
    recs: Seq<ProcessRecord>,
    owners: Seq<Seq<char>>,
    o: Seq<char>,
    n: nat,
)
    requires
        forall|k: int| 0 <= k < n ==> owners[k] != o,
    ensures
        count_of(owners, o, n) == 0,
        resident_of(recs, owners, o, n) == 0,
        swap_of(recs, owners, o, n) == 0,
    decreases n,
{
    if n > 0 {
        lemma_absent_share_zero(recs, owners, o, (n - 1) as nat);
    }
}

/// The totals grow with the number of records taken.
proof fn lemma_totals_grow(recs: Seq<ProcessRecord>, a: nat, b: nat)
    requires
        a <= b,
    ensures
        0 <= total_resident(recs, a) <= total_resident(recs, b),
        0 <= total_swap(recs, a) <= total_swap(recs, b),
    decreases b,
{
    if a < b {
        lemma_totals_grow(recs, a, (b - 1) as nat);
    } else if b > 0 {
        lemma_totals_grow(recs, 0, (b - 1) as nat);
    }
}

} // verus!
