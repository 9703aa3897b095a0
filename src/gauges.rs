//! A labelled family of integer gauges, held in a prometheus `IntGaugeVec`.
use vstd::prelude::*;

verus! {

/// A registry that the metrics endpoint gathers from.
#[verifier::external_type_specification]
#[verifier::external_body]
pub struct ExRegistry(prometheus::Registry);

/// A family of integer gauges that share a name and a list of label names;
/// each child gauge is identified by its label values.
#[verifier::external_body]
pub struct GaugeFamily {
    vec: prometheus::IntGaugeVec,
}

/// The children of a family. The family keys each child by the hash of its
/// label values (see [`label_hash`]); the entry holds the label values the
/// child was created with, in the order of the label names, and its value.
pub uninterp spec fn family_children(f: GaugeFamily) -> Map<u64, (Seq<Seq<char>>, int)>;

/// The label names a family was created with.
pub uninterp spec fn family_label_names(f: GaugeFamily) -> Seq<Seq<char>>;

/// The key under which a family stores the child with the given label values.
pub uninterp spec fn label_hash(values: Seq<Seq<char>>) -> u64;

/// The character sequences of a sequence of strings.
pub open spec fn strings_view(v: Seq<String>) -> Seq<Seq<char>> {
    v.map_values(|s: String| s@)
}

/// Byte-wise (equivalently, code-point-wise) lexicographic order of strings.
pub open spec fn str_less(a: Seq<char>, b: Seq<char>) -> bool
    decreases a.len(),
{
    if a.len() == 0 {
        b.len() > 0
    } else if b.len() == 0 {
        false
    } else if a[0] != b[0] {
        (a[0] as u32) < (b[0] as u32)
    } else {
        str_less(a.drop_first(), b.drop_first())
    }
}

/// Names in strictly ascending order.
pub open spec fn names_ascending(names: Seq<Seq<char>>) -> bool {
    forall|i: int| 0 <= i < names.len() - 1 ==> str_less(#[trigger] names[i], names[i + 1])
}

/// A character that may start a name: an ASCII letter or `_`, and `:`
/// where `colon` is set.
pub open spec fn name_start_char(c: char, colon: bool) -> bool {
    ('a' <= c && c <= 'z') || ('A' <= c && c <= 'Z') || c == '_' || (colon && c == ':')
}

/// A name of the form `[a-zA-Z_][a-zA-Z0-9_]*`, or with `:` allowed
/// wherever `_` is where `colon` is set.
pub open spec fn valid_name(s: Seq<char>, colon: bool) -> bool {
    &&& s.len() > 0
    &&& name_start_char(s[0], colon)
    &&& forall|i: int|
        1 <= i < s.len() ==> name_start_char(#[trigger] s[i], colon) || ('0' <= s[i] && s[i]
            <= '9')
}

/// A valid metric name: `[a-zA-Z_:][a-zA-Z0-9_:]*`.
pub open spec fn valid_metric_name(s: Seq<char>) -> bool {
    valid_name(s, true)
}

/// Valid label names, `[a-zA-Z_][a-zA-Z0-9_]*` each, no two the same.
pub open spec fn valid_label_names(names: Seq<Seq<char>>) -> bool {
    &&& forall|i: int| 0 <= i < names.len() ==> valid_name(#[trigger] names[i], false)
    &&& forall|i: int, j: int| 0 <= i < j < names.len() ==> names[i] != names[j]
}

/// The children after setting the gauge with the given label values: an
/// existing child under the same key takes the value, else a new child is
/// added.
pub open spec fn set_child(
    m: Map<u64, (Seq<Seq<char>>, int)>,
    values: Seq<Seq<char>>,
    v: int,
) -> Map<u64, (Seq<Seq<char>>, int)> {
    let h = label_hash(values);
    if m.contains_key(h) {
        m.insert(h, (m[h].0, v))
    } else {
        m.insert(h, (values, v))
    }
}

impl GaugeFamily {
    /// Relies on `IntGaugeVec::new`: on success the family has the given
    /// label names and no children. It fails only on an invalid metric name,
    /// an empty help text or an invalid or repeated label name.
    #[verifier::external_body]
    pub fn new(name: &str, help: &str, label_names: &Vec<String>) -> (r: Option<GaugeFamily>)
        ensures
            help@.len() > 0 && valid_metric_name(name@) && valid_label_names(
                strings_view(label_names@),
            ) ==> r.is_some(),
            r.is_some() ==> family_children(r.unwrap()).dom().is_empty(),
            r.is_some() ==> family_label_names(r.unwrap()) == strings_view(label_names@),
    {
        let names: Vec<&str> = label_names.iter().map(|s| s.as_str()).collect();
        prometheus::IntGaugeVec::new(prometheus::Opts::new(name, help), &names).ok().map(
            |vec| GaugeFamily { vec },
        )
    }

    /// Relies on `MetricVec::with_label_values` and `GenericGauge::set`: the
    /// child under the hash of `values` is looked up or created with those
    /// values, and takes `value`. The call panics only when the number of
    /// values differs from the number of label names.
    #[verifier::external_body]
    pub fn set(&mut self, values: &Vec<String>, value: i64)
        requires
            values@.len() == family_label_names(*old(self)).len(),
        ensures
            family_label_names(*final(self)) == family_label_names(*old(self)),
            family_children(*final(self)) == set_child(
                family_children(*old(self)),
                strings_view(values@),
                value as int,
            ),
    {
        let vals: Vec<&str> = values.iter().map(|s| s.as_str()).collect();
        self.vec.with_label_values(&vals).set(value);
    }

    /// Relies on `MetricVec::remove_label_values`: the child under the hash
    /// of `values` is removed; where there is none, nothing changes (the
    /// error it then reports is of no use here).
    #[verifier::external_body]
    pub fn remove(&mut self, values: &Vec<String>)
        requires
            values@.len() == family_label_names(*old(self)).len(),
        ensures
            family_label_names(*final(self)) == family_label_names(*old(self)),
            family_children(*final(self)) == family_children(*old(self)).remove(
                label_hash(strings_view(values@)),
            ),
    {
        let vals: Vec<&str> = values.iter().map(|s| s.as_str()).collect();
        let _ = self.vec.remove_label_values(&vals);
    }

    /// Relies on `Collector::collect` of `MetricVec`: one metric per child,
    /// whose label pairs are sorted by label name. With the label names in
    /// ascending order, the values come out in the order of the names.
    #[verifier::external_body]
    pub fn label_sets(&self) -> (r: Vec<Vec<String>>)
        requires
            names_ascending(family_label_names(*self)),
        ensures
            forall|i: int|
                0 <= i < r@.len() ==> exists|h: u64|
                    family_children(*self).contains_key(h) && family_children(*self)[h].0
                        == strings_view(#[trigger] r@[i]@),
            forall|h: u64|
                #[trigger] family_children(*self).contains_key(h) ==> exists|i: int|
                    0 <= i < r@.len() && family_children(*self)[h].0 == strings_view(r@[i]@),
    {
        prometheus::core::Collector::collect(&self.vec).iter().flat_map(|mf| mf.get_metric().iter()).map(
            |m| m.get_label().iter().map(|p| p.get_value().to_string()).collect(),
        ).collect()
    }

    /// Relies on `Registry::register`: the registry exports this family from
    /// now on. It fails when the registry already holds a family of the same
    /// name.
    #[verifier::external_body]
    pub fn register(&self, registry: &prometheus::Registry) -> bool {
        registry.register(Box::new(self.vec.clone())).is_ok()
    }
}

} // verus!
