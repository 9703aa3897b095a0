//! The three per-owner gauges and their reconciliation with each cycle's
//! aggregates.
use crate::aggregate::{Aggregates, OwnerEntry};
use crate::gauges::{
    GaugeFamily,
    family_children,
    family_label_names,
    label_hash,
    names_ascending,
    set_child,
    str_less,
    strings_view,
    valid_label_names,
    valid_metric_name,
};
use vstd::prelude::*;

verus! {

/// Value of the `job` label: identifies this exporter.
pub const JOB: &'static str = "proc-mem-to-prom";

/// Label names of the three gauges, in ascending order.
pub const LABEL_HOSTGROUP: &'static str = "hostgroup";

pub const LABEL_INSTANCE: &'static str = "instance";

pub const LABEL_JOB: &'static str = "job";

pub const LABEL_USERNAME: &'static str = "username";

/// Name of the gauge of process counts.
pub const PROCESSES_NAME: &'static str = "node_user_processes";

pub const PROCESSES_HELP: &'static str = "The number of processes per user.";

/// Name of the gauge of resident memory.
pub const RESIDENT_NAME: &'static str = "node_user_processes_rss";

pub const RESIDENT_HELP: &'static str = "The RSS on a node per user.";

/// Name of the gauge of swap usage.
pub const SWAP_NAME: &'static str = "node_user_processes_swap";

pub const SWAP_HELP: &'static str = "The swap on a node per user.";

/// The label names shared by the three gauges.
pub open spec fn gauge_label_names() -> Seq<Seq<char>> {
    seq![LABEL_HOSTGROUP@, LABEL_INSTANCE@, LABEL_JOB@, LABEL_USERNAME@]
}

/// The label values of owner `o`'s gauges.
pub open spec fn owner_labels(hostgroup: Seq<char>, instance: Seq<char>, o: Seq<char>) -> Seq<
    Seq<char>,
> {
    seq![hostgroup, instance, JOB@, o]
}

/// The key under which owner `o`'s gauges are stored.
pub open spec fn owner_key(hostgroup: Seq<char>, instance: Seq<char>, o: Seq<char>) -> u64 {
    label_hash(owner_labels(hostgroup, instance, o))
}

/// Every child carries the label values of some owner under the fixed
/// prefix, and sits under their key.
pub open spec fn well_keyed(
    c: Map<u64, (Seq<Seq<char>>, int)>,
    hostgroup: Seq<char>,
    instance: Seq<char>,
) -> bool {
    forall|h: u64|
        #[trigger] c.contains_key(h) ==> c[h].0.len() == 4 && c[h].0 == owner_labels(
            hostgroup,
            instance,
            c[h].0[3],
        ) && label_hash(c[h].0) == h
}

/// Two families have the same keys, with the same label values under each.
pub open spec fn same_shape(a: Map<u64, (Seq<Seq<char>>, int)>, b: Map<u64, (Seq<Seq<char>>, int)>) -> bool {
    &&& a.dom() == b.dom()
    &&& forall|h: u64| #[trigger] a.contains_key(h) ==> a[h].0 == b[h].0
}

/// Distinct owners among `owners` have distinct keys.
pub open spec fn keys_apart(hostgroup: Seq<char>, instance: Seq<char>, owners: Set<Seq<char>>) -> bool {
    forall|a: Seq<char>, b: Seq<char>|
        owners.contains(a) && owners.contains(b) && #[trigger] owner_key(hostgroup, instance, a)
            == #[trigger] owner_key(hostgroup, instance, b) ==> a == b
}

/// The gauges of process count, resident memory and swap usage per owner,
/// under one fixed hostgroup and instance.
pub struct OwnerMetrics {
    pub processes: GaugeFamily,
    pub resident: GaugeFamily,
    pub swap: GaugeFamily,
    pub hostgroup: String,
    pub instance: String,
}

/// The label names of the gauges, as strings.
fn gauge_label_names_vec() -> (r: Vec<String>)
    ensures
        strings_view(r@) == gauge_label_names(),
        names_ascending(strings_view(r@)),
{
    let mut r: Vec<String> = Vec::new();
    r.push(LABEL_HOSTGROUP.to_string());
    r.push(LABEL_INSTANCE.to_string());
    r.push(LABEL_JOB.to_string());
    r.push(LABEL_USERNAME.to_string());
    proof {
        broadcast use vstd::string::to_string_from_display_ensures_for_str;
        assert(strings_view(r@) =~= gauge_label_names());
        lemma_gauge_label_names_ascending();
    }
    r
}

/// The gauges' names and help texts are valid, and so are their label
/// names.
proof fn lemma_gauge_names_valid()
    ensures
        valid_metric_name(PROCESSES_NAME@),
        valid_metric_name(RESIDENT_NAME@),
        valid_metric_name(SWAP_NAME@),
        PROCESSES_HELP@.len() > 0,
        RESIDENT_HELP@.len() > 0,
        SWAP_HELP@.len() > 0,
        valid_label_names(gauge_label_names()),
{
    reveal_strlit("node_user_processes");
    reveal_strlit("node_user_processes_rss");
    reveal_strlit("node_user_processes_swap");
    reveal_strlit("The number of processes per user.");
    reveal_strlit("The RSS on a node per user.");
    reveal_strlit("The swap on a node per user.");
    reveal_strlit("hostgroup");
    reveal_strlit("instance");
    reveal_strlit("job");
    reveal_strlit("username");
    let names = gauge_label_names();
    assert forall|i: int, j: int| 0 <= i < j < names.len() implies names[i] != names[j] by {
        assert(names[i].len() != names[j].len() || names[i][0] != names[j][0]);
    }
}

/// The label names of the gauges are in ascending order, so the label
/// values that the gauges report come in the order of the names.
proof fn lemma_gauge_label_names_ascending()
    ensures
        names_ascending(gauge_label_names()),
{
    reveal_strlit("hostgroup");
    reveal_strlit("instance");
    reveal_strlit("job");
    reveal_strlit("username");
    assert(str_less(LABEL_HOSTGROUP@, LABEL_INSTANCE@));
    assert(str_less(LABEL_INSTANCE@, LABEL_JOB@));
    assert(str_less(LABEL_JOB@, LABEL_USERNAME@));
}

/// The owners of a set of aggregates.
pub open spec fn owners_of(current: Aggregates) -> Set<Seq<char>> {
    Set::new(|o: Seq<char>| current.has_owner(o))
}

/// The key of the `j`-th entry of `current`.
pub open spec fn entry_key(hostgroup: Seq<char>, instance: Seq<char>, current: Aggregates, j: int) -> u64 {
    owner_key(hostgroup, instance, current.entries@[j].owner@)
}

/// A label set read back from the gauges whose owner has no aggregate in
/// this cycle.
pub open spec fn is_stale(labels: Seq<String>, current: Aggregates) -> bool {
    labels.len() > 0 && !current.has_owner(labels.last()@)
}

/// What reconciling `before` with `current` leaves as `after`: the owners
/// published before and absent now have none of their three gauges left;
/// and, unless two of the owners involved share a key, the published
/// gauges are exactly the totals of `current`.
pub open spec fn reconciled(before: OwnerMetrics, after: OwnerMetrics, current: Aggregates) -> bool {
    let hg = before.hostgroup@;
    let inst = before.instance@;
    &&& after.wf()
    &&& after.hostgroup == before.hostgroup
    &&& after.instance == before.instance
    &&& forall|o: Seq<char>|
        #[trigger] before.published().contains_key(o) && !current.has_owner(o) ==> {
            &&& !OwnerMetrics::holds_key(after.processes, hg, inst, o)
            &&& !OwnerMetrics::holds_key(after.resident, hg, inst, o)
            &&& !OwnerMetrics::holds_key(after.swap, hg, inst, o)
        }
    &&& keys_apart(hg, inst, before.published().dom().union(owners_of(current)))
        ==> after.published() == current.totals_map()
}

/// Whether `current` has an entry for `owner`.
fn has_entry(current: &Aggregates, owner: &String) -> (r: bool)
    ensures
        r == current.has_owner(owner@),
{
    let mut j: usize = 0;
    while j < current.entries.len()
        invariant
            j <= current.entries@.len(),
            forall|k: int| 0 <= k < j ==> current.entries@[k].owner@ != owner@,
        decreases current.entries@.len() - j,
    {
        if current.entries[j].owner == *owner {
            return true;
        }
        j = j + 1;
    }
    false
}

impl OwnerMetrics {
    /// The three families carry the same owners, each under its key.
    pub open spec fn wf(&self) -> bool {
        &&& family_label_names(self.processes) == gauge_label_names()
        &&& family_label_names(self.resident) == gauge_label_names()
        &&& family_label_names(self.swap) == gauge_label_names()
        &&& well_keyed(family_children(self.processes), self.hostgroup@, self.instance@)
        &&& same_shape(family_children(self.processes), family_children(self.resident))
        &&& same_shape(family_children(self.processes), family_children(self.swap))
    }

    /// The published gauges: for each owner, its (process count, resident
    /// bytes, swap bytes).
    pub open spec fn published(&self) -> Map<Seq<char>, (int, int, int)> {
        let p = family_children(self.processes);
        let r = family_children(self.resident);
        let s = family_children(self.swap);
        Map::new(
            |o: Seq<char>|
                p.contains_key(owner_key(self.hostgroup@, self.instance@, o)) && p[owner_key(
                    self.hostgroup@,
                    self.instance@,
                    o,
                )].0 == owner_labels(self.hostgroup@, self.instance@, o),
            |o: Seq<char>|
                {
                    let h = owner_key(self.hostgroup@, self.instance@, o);
                    (p[h].1, r[h].1, s[h].1)
                },
        )
    }

    /// Fresh gauges under the given hostgroup and instance, with no owner
    /// published. `None` only where a gauge cannot be created.
    pub fn new(hostgroup: String, instance: String) -> (r: Option<OwnerMetrics>)
        ensures
            r is Some,
            r matches Some(m) ==> {
                &&& m.wf()
                &&& m.published().dom().is_empty()
                &&& m.hostgroup == hostgroup
                &&& m.instance == instance
            },
    {
        let names = gauge_label_names_vec();
        proof {
            lemma_gauge_names_valid();
        }
        let processes = GaugeFamily::new(PROCESSES_NAME, PROCESSES_HELP, &names);
        let resident = GaugeFamily::new(RESIDENT_NAME, RESIDENT_HELP, &names);
        let swap = GaugeFamily::new(SWAP_NAME, SWAP_HELP, &names);
        match (processes, resident, swap) {
            (Some(processes), Some(resident), Some(swap)) => {
                let m = OwnerMetrics { processes, resident, swap, hostgroup, instance };
                assert(m.published().dom() =~= Set::empty());
                Some(m)
            },
            _ => None,
        }
    }

    /// The label values of owner `owner`'s gauges.
    fn labels_for(&self, owner: &String) -> (r: Vec<String>)
        ensures
            r@.len() == 4,
            strings_view(r@) == owner_labels(self.hostgroup@, self.instance@, owner@),
    {
        let mut r: Vec<String> = Vec::new();
        r.push(self.hostgroup.clone());
        r.push(self.instance.clone());
        r.push(JOB.to_string());
        r.push(owner.clone());
        proof {
            broadcast use vstd::string::to_string_from_display_ensures_for_str;
            assert(strings_view(r@) =~= owner_labels(self.hostgroup@, self.instance@, owner@));
        }
        r
    }

    /// Sets the three gauges of one owner.
    fn publish_entry(&mut self, e: &OwnerEntry)
        requires
            old(self).wf(),
        ensures
            final(self).wf(),
            final(self).hostgroup == old(self).hostgroup,
            final(self).instance == old(self).instance,
            family_children(final(self).processes) == set_child(
                family_children(old(self).processes),
                owner_labels(old(self).hostgroup@, old(self).instance@, e.owner@),
                e.totals.count as int,
            ),
            family_children(final(self).resident) == set_child(
                family_children(old(self).resident),
                owner_labels(old(self).hostgroup@, old(self).instance@, e.owner@),
                e.totals.resident_memory as int,
            ),
            family_children(final(self).swap) == set_child(
                family_children(old(self).swap),
                owner_labels(old(self).hostgroup@, old(self).instance@, e.owner@),
                e.totals.swap as int,
            ),
    {
        let labels = self.labels_for(&e.owner);
        self.processes.set(&labels, e.totals.count);
        self.resident.set(&labels, e.totals.resident_memory);
        self.swap.set(&labels, e.totals.swap);
        proof {
            let p = family_children(self.processes);
            let r = family_children(self.resident);
            let w = family_children(self.swap);
            let lv = owner_labels(self.hostgroup@, self.instance@, e.owner@);
            assert(lv[3] == e.owner@);
            assert(p.dom() =~= r.dom());
            assert(p.dom() =~= w.dom());
        }
    }

    /// Removes the three gauges of one owner; a no-op where there are none.
    fn evict_owner(&mut self, owner: &String)
        requires
            old(self).wf(),
        ensures
            final(self).wf(),
            final(self).hostgroup == old(self).hostgroup,
            final(self).instance == old(self).instance,
            family_children(final(self).processes) == family_children(old(self).processes).remove(
                owner_key(old(self).hostgroup@, old(self).instance@, owner@),
            ),
            family_children(final(self).resident) == family_children(old(self).resident).remove(
                owner_key(old(self).hostgroup@, old(self).instance@, owner@),
            ),
            family_children(final(self).swap) == family_children(old(self).swap).remove(
                owner_key(old(self).hostgroup@, old(self).instance@, owner@),
            ),
    {
        let labels = self.labels_for(owner);
        self.processes.remove(&labels);
        self.resident.remove(&labels);
        self.swap.remove(&labels);
        proof {
            let p = family_children(self.processes);
            assert(p.dom() =~= family_children(self.resident).dom());
            assert(p.dom() =~= family_children(self.swap).dom());
        }
    }

    /// Brings the gauges in line with one cycle's aggregates: first sets the
    /// three gauges of every owner in `current`, then removes those of every
    /// owner that was published before and has no entry in `current`.
    /// Removing gauges that are already gone is a no-op.
    pub fn reconcile(&mut self, current: &Aggregates)
        requires
            old(self).wf(),
            current.owners_distinct(),
        ensures
            reconciled(*old(self), *final(self), *current),
    {
        let ghost before = *self;
        let ghost hg = self.hostgroup@;
        let ghost inst = self.instance@;
        let ghost p0 = family_children(self.processes);
        let ghost pub0 = self.published();
        let ghost apart = keys_apart(hg, inst, pub0.dom().union(owners_of(*current)));
        proof {
            lemma_gauge_label_names_ascending();
        }
        let prev = self.processes.label_sets();
        let n = current.entries.len();
        let mut i: usize = 0;
        while i < n
            invariant
                self.wf(),
                self.hostgroup == before.hostgroup,
                self.instance == before.instance,
                hg == self.hostgroup@,
                inst == self.instance@,
                before.wf(),
                p0 == family_children(before.processes),
                pub0 == before.published(),
                apart == keys_apart(hg, inst, pub0.dom().union(owners_of(*current))),
                forall|j: int|
                    0 <= j < prev@.len() ==> exists|h: u64|
                        p0.contains_key(h) && p0[h].0 == strings_view(#[trigger] prev@[j]@),
                forall|h: u64|
                    #[trigger] p0.contains_key(h) ==> exists|j: int|
                        0 <= j < prev@.len() && p0[h].0 == strings_view(prev@[j]@),
                current.owners_distinct(),
                n == current.entries@.len(),
                i <= n,
                forall|h: u64|
                    #[trigger] family_children(self.processes).contains_key(h) <==> p0.contains_key(h)
                        || exists|j: int| 0 <= j < i && entry_key(hg, inst, *current, j) == h,
                forall|h: u64|
                    p0.contains_key(h) && (forall|j: int|
                        0 <= j < i ==> entry_key(hg, inst, *current, j) != h) ==> #[trigger] family_children(
                        self.processes,
                    )[h] == p0[h],
                apart ==> forall|j: int|
                    0 <= j < i ==> {
                        let h = #[trigger] entry_key(hg, inst, *current, j);
                        let t = current.entries@[j].totals;
                        &&& family_children(self.processes)[h] == (
                            owner_labels(hg, inst, current.entries@[j].owner@),
                            t.count as int,
                        )
                        &&& family_children(self.resident)[h].1 == t.resident_memory as int
                        &&& family_children(self.swap)[h].1 == t.swap as int
                    },
            decreases n - i,
        {
            let ghost pb = family_children(self.processes);
            let ghost rb = family_children(self.resident);
            let ghost sb = family_children(self.swap);
            let ghost o = current.entries@[i as int].owner@;
            let ghost key = entry_key(hg, inst, *current, i as int);
            proof {
                if apart {
                    assert forall|j: int| 0 <= j < i implies entry_key(hg, inst, *current, j) != key by {
                        let oj = current.entries@[j].owner@;
                        assert(owners_of(*current).contains(oj));
                        assert(owners_of(*current).contains(o));
                        if owner_key(hg, inst, oj) == owner_key(hg, inst, o) {
                            assert(oj == o);
                        }
                    }
                    if pb.contains_key(key) {
                        assert(p0.contains_key(key));
                        assert(pb[key] == p0[key]);
                        let q = p0[key].0[3];
                        assert(p0[key].0 == owner_labels(hg, inst, q));
                        assert(owner_key(hg, inst, q) == key);
                        assert(pub0.contains_key(q));
                        assert(owners_of(*current).contains(o));
                        assert(q == o);
                    }
                }
            }
            self.publish_entry(&current.entries[i]);
            proof {
                let pa = family_children(self.processes);
                assert forall|h: u64| #[trigger] pa.contains_key(h) <==> p0.contains_key(h) || exists|
                    j: int,
                | 0 <= j < i + 1 && entry_key(hg, inst, *current, j) == h by {
                    if h == key {
                        assert(entry_key(hg, inst, *current, i as int) == h);
                    } else if pb.contains_key(h) && !p0.contains_key(h) {
                        let j = choose|j: int| 0 <= j < i && entry_key(hg, inst, *current, j) == h;
                        assert(0 <= j < i + 1);
                    }
                }
                assert forall|h: u64|
                    p0.contains_key(h) && (forall|j: int|
                        0 <= j < i + 1 ==> entry_key(hg, inst, *current, j) != h) implies #[trigger] pa[h]
                    == p0[h] by {
                    assert(entry_key(hg, inst, *current, i as int) != h);
                    assert(pb[h] == p0[h]);
                }
                if apart {
                    assert forall|j: int| 0 <= j < i + 1 implies {
                        let h = #[trigger] entry_key(hg, inst, *current, j);
                        let t = current.entries@[j].totals;
                        &&& family_children(self.processes)[h] == (
                            owner_labels(hg, inst, current.entries@[j].owner@),
                            t.count as int,
                        )
                        &&& family_children(self.resident)[h].1 == t.resident_memory as int
                        &&& family_children(self.swap)[h].1 == t.swap as int
                    } by {
                        if j < i {
                            let oj = current.entries@[j].owner@;
                            assert(owners_of(*current).contains(oj));
                            assert(owners_of(*current).contains(o));
                            if owner_key(hg, inst, oj) == owner_key(hg, inst, o) {
                                assert(oj == o);
                            }
                        }
                    }
                }
            }
            i = i + 1;
        }
        let ghost p2 = family_children(self.processes);
        let ghost r2 = family_children(self.resident);
        let ghost s2 = family_children(self.swap);
        let mut k: usize = 0;
        while k < prev.len()
            invariant
                self.wf(),
                self.hostgroup == before.hostgroup,
                self.instance == before.instance,
                hg == self.hostgroup@,
                inst == self.instance@,
                before.wf(),
                p0 == family_children(before.processes),
                pub0 == before.published(),
                apart == keys_apart(hg, inst, pub0.dom().union(owners_of(*current))),
                forall|j: int|
                    0 <= j < prev@.len() ==> exists|h: u64|
                        p0.contains_key(h) && p0[h].0 == strings_view(#[trigger] prev@[j]@),
                forall|h: u64|
                    #[trigger] p0.contains_key(h) ==> exists|j: int|
                        0 <= j < prev@.len() && p0[h].0 == strings_view(prev@[j]@),
                current.owners_distinct(),
                n == current.entries@.len(),
                k <= prev@.len(),
                forall|h: u64|
                    p0.contains_key(h) && (forall|j: int|
                        0 <= j < n ==> entry_key(hg, inst, *current, j) != h) ==> #[trigger] p2[h]
                        == p0[h],
                forall|h: u64|
                    #[trigger] p2.contains_key(h) ==> p0.contains_key(h) || exists|j: int|
                        0 <= j < n && entry_key(hg, inst, *current, j) == h,
                apart ==> forall|j: int|
                    0 <= j < n ==> {
                        let h = #[trigger] entry_key(hg, inst, *current, j);
                        let t = current.entries@[j].totals;
                        &&& p2[h] == (owner_labels(hg, inst, current.entries@[j].owner@), t.count as int)
                        &&& r2[h].1 == t.resident_memory as int
                        &&& s2[h].1 == t.swap as int
                    },
                forall|h: u64|
                    #[trigger] family_children(self.processes).contains_key(h) ==> p2.contains_key(h)
                        && r2.contains_key(h) && s2.contains_key(h) && family_children(self.processes)[h]
                        == p2[h] && family_children(self.resident)[h] == r2[h] && family_children(
                        self.swap,
                    )[h] == s2[h],
                forall|k2: int|
                    0 <= k2 < k && is_stale(#[trigger] prev@[k2]@, *current) ==> !family_children(
                        self.processes,
                    ).contains_key(owner_key(hg, inst, prev@[k2]@.last()@)),
                apart ==> forall|j: int|
                    0 <= j < n ==> family_children(self.processes).contains_key(
                        #[trigger] entry_key(hg, inst, *current, j),
                    ),
            decreases prev@.len() - k,
        {
            let labels = &prev[k];
            if labels.len() > 0 {
                let owner = &labels[labels.len() - 1];
                if !has_entry(current, owner) {
                    proof {
                        if apart {
                            let hk = choose|h: u64|
                                p0.contains_key(h) && p0[h].0 == strings_view(prev@[k as int]@);
                            let q = p0[hk].0[3];
                            let lv = strings_view(prev@[k as int]@);
                            assert(lv.len() == prev@[k as int]@.len());
                            assert(p0[hk].0.len() == 4);
                            assert(lv[3] == owner@);
                            assert(q == owner@);
                            assert(owner_key(hg, inst, q) == hk);
                            assert(pub0.contains_key(q));
                            assert forall|j: int| 0 <= j < n implies entry_key(hg, inst, *current, j)
                                != owner_key(hg, inst, owner@) by {
                                let oj = current.entries@[j].owner@;
                                assert(owners_of(*current).contains(oj));
                                assert(owners_of(*current).contains(oj) && pub0.dom().union(
                                    owners_of(*current),
                                ).contains(q));
                                if owner_key(hg, inst, oj) == owner_key(hg, inst, q) {
                                    assert(oj == q);
                                }
                            }
                        }
                    }
                    self.evict_owner(owner);
                }
            }
            k = k + 1;
        }
        proof {
            let pf = family_children(self.processes);
            assert forall|o: Seq<char>|
                #[trigger] pub0.contains_key(o) && !current.has_owner(o) implies !pf.contains_key(
                owner_key(hg, inst, o),
            ) by {
                let h = owner_key(hg, inst, o);
                assert(p0.contains_key(h));
                let k2 = choose|k2: int| 0 <= k2 < prev@.len() && p0[h].0 == strings_view(prev@[k2]@);
                assert(strings_view(prev@[k2]@) == owner_labels(hg, inst, o));
                assert(prev@[k2]@.last()@ == o);
                assert(is_stale(prev@[k2]@, *current));
            }
            if apart {
                assert(self.published() =~= current.totals_map()) by {
                    assert forall|o: Seq<char>| #[trigger] self.published().contains_key(o) <==> current.totals_map().contains_key(o) by {
                        let h = owner_key(hg, inst, o);
                        if current.has_owner(o) {
                            let j = choose|j: int| 0 <= j < n && current.entries@[j].owner@ == o;
                            assert(entry_key(hg, inst, *current, j) == h);
                            assert(pf.contains_key(h));
                        }
                        if self.published().contains_key(o) && !current.has_owner(o) {
                            assert(p2.contains_key(h) && p2[h].0 == owner_labels(hg, inst, o));
                            if exists|j: int| 0 <= j < n && entry_key(hg, inst, *current, j) == h {
                                let j = choose|j: int| 0 <= j < n && entry_key(hg, inst, *current, j) == h;
                                assert(owner_labels(hg, inst, current.entries@[j].owner@)[3] == current.entries@[j].owner@);
                                assert(current.has_owner(current.entries@[j].owner@));
                            } else {
                                assert(p0.contains_key(h));
                                assert(p2[h] == p0[h]);
                                assert(pub0.contains_key(o));
                            }
                        }
                    }
                    assert forall|o: Seq<char>| #[trigger] self.published().contains_key(o) implies self.published()[o] == current.totals_map()[o] by {
                        let h = owner_key(hg, inst, o);
                        let j = choose|j: int| 0 <= j < n && current.entries@[j].owner@ == o;
                        assert(entry_key(hg, inst, *current, j) == h);
                        let i2 = choose|i2: int| 0 <= i2 < current.entries@.len() && current.entries@[i2].owner@ == o;
                        assert(i2 == j);
                    }
                }
            }
        }
    }

    /// Adds the three gauges to `registry`, which exports them from then
    /// on; `false` where the registry refused one of them. Registering
    /// changes no gauge.
    pub fn register(&self, registry: &prometheus::Registry) -> (r: bool) {
        let processes = self.processes.register(registry);
        let resident = self.resident.register(registry);
        let swap = self.swap.register(registry);
        processes && resident && swap
    }

    /// Whether the family holds a child under owner `o`'s key.
    pub open spec fn holds_key(f: GaugeFamily, hostgroup: Seq<char>, instance: Seq<char>, o: Seq<char>) -> bool {
        family_children(f).contains_key(owner_key(hostgroup, instance, o))
    }
}

} // verus!
