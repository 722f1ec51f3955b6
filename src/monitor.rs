use vstd::prelude::*;
use crate::compile::RuntimeEvidence;
use crate::dimension::{cmp_scaled, factor_of, unit_factor, units_compatible, Dimension, NumericRange};
use crate::elements::Evidence;
use crate::uom::{UnitOfMeasure, FACTOR_BOUND};

verus! {

/// A measured number in fixed-point notation (see
/// [`crate::dimension::FIXED_POINT_ONE`]), with its unit.
#[derive(Debug)]
pub struct Measurement {
    pub value: i64,
    pub uom: Option<UnitOfMeasure>,
}

/// The observed value of a property: not known, a boolean (binary and
/// categorical properties, demands) or a measurement (numeric properties).
#[derive(Debug)]
pub enum PropertyValue {
    Unknown,
    Known(bool),
    Measured(Measurement),
}

/// The observed values of every evidence property and every demand.
#[derive(Debug)]
pub struct RuntimeProperties {
    pub evidence: Vec<PropertyValue>,
    pub demands: Vec<PropertyValue>,
}

/// Some range of `covered` (factor `f`) holds the value `v` (factor `fv`).
pub open spec fn some_range_holds(covered: Seq<NumericRange>, f: (int, int), v: int, fv: (int, int)) -> bool {
    exists|j: int| 0 <= j < covered.len() && #[trigger] covered[j].holds(f, v, fv)
}

/// Whether an observed value satisfies a property of the given dimension:
/// an unknown value never does; a boolean is the answer for binary and
/// categorical properties; a measurement must lie, in a compatible unit, in
/// some covered range of a numeric property.
pub open spec fn check_spec(d: Dimension, v: PropertyValue) -> bool {
    match v {
        PropertyValue::Unknown => false,
        PropertyValue::Known(b) => d !is Numeric && b,
        PropertyValue::Measured(m) => match d {
            Dimension::Numeric { covered, uom, .. } => units_compatible(uom, m.uom)
                && some_range_holds(covered@, factor_of(uom), m.value as int, factor_of(m.uom)),
            _ => false,
        },
    }
}

/// Whether an observed value satisfies a demand: only a known `true` does.
pub open spec fn check_demand_spec(v: PropertyValue) -> bool {
    v matches PropertyValue::Known(true)
}

fn range_holds(r: &NumericRange, f: (u64, u64), v: i64, fv: (u64, u64)) -> (b: bool)
    requires
        0 < f.0 <= FACTOR_BOUND,
        0 < f.1 <= FACTOR_BOUND,
        0 < fv.0 <= FACTOR_BOUND,
        0 < fv.1 <= FACTOR_BOUND,
    ensures
        b == r.holds((f.0 as int, f.1 as int), v as int, (fv.0 as int, fv.1 as int)),
{
    match *r {
        NumericRange::Exclusive(lo, hi) => cmp_scaled(lo, f, v, fv) <= 0 && cmp_scaled(v, fv, hi, f)
            < 0,
        NumericRange::Inclusive(lo, hi) => cmp_scaled(lo, f, v, fv) <= 0 && cmp_scaled(v, fv, hi, f)
            <= 0,
    }
}

/// Whether an observed value satisfies a property of dimension `d`.
pub fn check(d: &Dimension, v: &PropertyValue) -> (r: bool)
    ensures
        r == check_spec(*d, *v),
{
    match v {
        PropertyValue::Unknown => false,
        PropertyValue::Known(b) => match d {
            Dimension::Numeric { .. } => false,
            _ => *b,
        },
        PropertyValue::Measured(m) => match d {
            Dimension::Numeric { covered, uom, .. } => {
                match Dimension::compatible(uom, &m.uom) {
                    Ok(true) => {},
                    _ => {
                        return false;
                    },
                }
                let f = unit_factor(uom);
                let fv = unit_factor(&m.uom);
                let mut j: usize = 0;
                while j < covered.len()
                    invariant
                        j <= covered@.len(),
                        check_spec(*d, *v) == some_range_holds(
                            covered@,
                            factor_of(*uom),
                            m.value as int,
                            factor_of(m.uom),
                        ),
                        f.0 as int == factor_of(*uom).0,
                        f.1 as int == factor_of(*uom).1,
                        fv.0 as int == factor_of(m.uom).0,
                        fv.1 as int == factor_of(m.uom).1,
                        0 < f.0 <= FACTOR_BOUND,
                        0 < f.1 <= FACTOR_BOUND,
                        0 < fv.0 <= FACTOR_BOUND,
                        0 < fv.1 <= FACTOR_BOUND,
                        forall|k: int| 0 <= k < j ==> !(#[trigger] covered@[k].holds(
                            factor_of(*uom),
                            m.value as int,
                            factor_of(m.uom),
                        )),
                    decreases covered@.len() - j,
                {
                    if range_holds(&covered[j], f, m.value, fv) {
                        return true;
                    }
                    j = j + 1;
                }
                false
            },
            _ => false,
        },
    }
}

/// Whether an observed value satisfies a demand.
pub fn check_demand(v: &PropertyValue) -> (r: bool)
    ensures
        r == check_demand_spec(*v),
{
    match v {
        PropertyValue::Known(b) => *b,
        _ => false,
    }
}

impl RuntimeEvidence {
    /// The runtime evidence of observed properties: each evidence field
    /// checked against its evidence's dimension, each demand field against
    /// its demand.
    pub fn from_properties(evidence: &Vec<Evidence>, properties: &RuntimeProperties) -> (r:
        RuntimeEvidence)
        requires
            properties.evidence@.len() == evidence@.len(),
        ensures
            r.evidence@.len() == evidence@.len(),
            r.demands@.len() == properties.demands@.len(),
            forall|i: int|
                0 <= i < evidence@.len() ==> #[trigger] r.evidence@[i] == check_spec(
                    evidence@[i].dimension,
                    properties.evidence@[i],
                ),
            forall|i: int|
                0 <= i < properties.demands@.len() ==> #[trigger] r.demands@[i]
                    == check_demand_spec(properties.demands@[i]),
    {
        let mut ev: Vec<bool> = Vec::new();
        let mut i: usize = 0;
        while i < evidence.len()
            invariant
                i <= evidence@.len(),
                properties.evidence@.len() == evidence@.len(),
                ev@.len() == i,
                forall|k: int|
                    0 <= k < i ==> #[trigger] ev@[k] == check_spec(
                        evidence@[k].dimension,
                        properties.evidence@[k],
                    ),
            decreases evidence@.len() - i,
        {
            ev.push(check(&evidence[i].dimension, &properties.evidence[i]));
            i = i + 1;
        }
        let mut dm: Vec<bool> = Vec::new();
        let mut j: usize = 0;
        while j < properties.demands.len()
            invariant
                j <= properties.demands@.len(),
                dm@.len() == j,
                forall|k: int|
                    0 <= k < j ==> #[trigger] dm@[k] == check_demand_spec(properties.demands@[k]),
            decreases properties.demands@.len() - j,
        {
            dm.push(check_demand(&properties.demands[j]));
            j = j + 1;
        }
        RuntimeEvidence { evidence: ev, demands: dm }
    }
}

} // verus!

verus! {

/// The operator's choice of how many recent samples the monitor keeps.
#[derive(Clone, Copy, Debug, Eq, PartialEq, Structural)]
pub struct FilterConfiguration {
    depth: usize,
}

impl FilterConfiguration {
    pub fn new(depth: usize) -> (r: FilterConfiguration)
        ensures
            r.spec_depth() == depth,
    {
        FilterConfiguration { depth }
    }

    pub closed spec fn spec_depth(&self) -> usize {
        self.depth
    }

    pub fn depth(&self) -> (r: usize)
        ensures
            r == self.spec_depth(),
    {
        self.depth
    }
}

/// The value of field `k` of a snapshot: a demand field when `demand`,
/// else an evidence field.
pub open spec fn field(e: RuntimeEvidence, demand: bool, k: int) -> bool {
    if demand {
        e.demands@[k]
    } else {
        e.evidence@[k]
    }
}

/// How many of the snapshots have field `k` true.
pub open spec fn true_votes(s: Seq<RuntimeEvidence>, demand: bool, k: int) -> nat
    decreases s.len(),
{
    if s.len() == 0 {
        0
    } else {
        true_votes(s.drop_last(), demand, k) + if field(s.last(), demand, k) {
            1nat
        } else {
            0nat
        }
    }
}

/// The majority vote of field `k`: true when more snapshots have it true
/// than false; a tie gives false.
pub open spec fn majority(s: Seq<RuntimeEvidence>, demand: bool, k: int) -> bool {
    true_votes(s, demand, k) > s.len() - true_votes(s, demand, k)
}

/// The last `n` elements of a sequence, or all of it when it is shorter.
pub open spec fn last_n<A>(s: Seq<A>, n: nat) -> Seq<A> {
    if s.len() > n {
        s.subrange(s.len() - n, s.len() as int)
    } else {
        s
    }
}

/// A bounded history of runtime-evidence snapshots that answers, per field,
/// by strict majority vote.
#[derive(Debug)]
pub struct Monitor {
    depth: usize,
    evidence_fields: usize,
    demand_fields: usize,
    values: Vec<RuntimeEvidence>,
}

impl Monitor {
    /// The monitor's internal consistency: a depth of at least one, at most
    /// that many snapshots held, each with the monitor's number of fields.
    pub closed spec fn wf(self) -> bool {
        &&& self.depth >= 1
        &&& self.values@.len() <= self.depth
        &&& forall|i: int|
            0 <= i < self.values@.len() ==> #[trigger] self.values@[i].evidence@.len()
                == self.evidence_fields && self.values@[i].demands@.len() == self.demand_fields
    }

    /// A well-formed monitor keeps at least one snapshot, holds at most its
    /// depth of them, and each has the monitor's number of fields.
    pub proof fn lemma_wf(&self)
        requires
            self.wf(),
        ensures
            self.spec_depth() >= 1,
            self.history().len() <= self.spec_depth(),
            forall|i: int|
                0 <= i < self.history().len() ==> #[trigger] self.history()[i].evidence@.len()
                    == self.spec_evidence_fields() && self.history()[i].demands@.len()
                    == self.spec_demand_fields(),
    {
    }

    /// The snapshots held, oldest first.
    pub closed spec fn history(&self) -> Seq<RuntimeEvidence> {
        self.values@
    }

    /// How many snapshots are kept.
    pub closed spec fn spec_depth(&self) -> nat {
        self.depth as nat
    }

    pub closed spec fn spec_evidence_fields(&self) -> nat {
        self.evidence_fields as nat
    }

    pub closed spec fn spec_demand_fields(&self) -> nat {
        self.demand_fields as nat
    }

    /// An empty monitor that keeps the last `filter_depth` snapshots of
    /// `evidence_fields` evidence fields and `demand_fields` demand fields.
    pub fn new(filter_depth: usize, evidence_fields: usize, demand_fields: usize) -> (r: Monitor)
        requires
            filter_depth >= 1,
        ensures
            r.wf(),
            r.history() == Seq::<RuntimeEvidence>::empty(),
            r.spec_depth() == filter_depth,
            r.spec_evidence_fields() == evidence_fields,
            r.spec_demand_fields() == demand_fields,
    {
        Monitor { depth: filter_depth, evidence_fields, demand_fields, values: Vec::new() }
    }

    /// Adds a snapshot, evicting the oldest once the history is full.
    pub fn add_evidence(&mut self, evidence: RuntimeEvidence)
        requires
            old(self).wf(),
            evidence.evidence@.len() == old(self).spec_evidence_fields(),
            evidence.demands@.len() == old(self).spec_demand_fields(),
        ensures
            final(self).wf(),
            final(self).history() == last_n(old(self).history().push(evidence), old(self).spec_depth()),
            final(self).spec_depth() == old(self).spec_depth(),
            final(self).spec_evidence_fields() == old(self).spec_evidence_fields(),
            final(self).spec_demand_fields() == old(self).spec_demand_fields(),
    {
        let ghost pushed = self.values@.push(evidence);
        if self.values.len() == self.depth {
            self.values.remove(0);
        }
        self.values.push(evidence);
        proof {
            assert(self.values@ =~= last_n(pushed, self.depth as nat));
        }
    }

    /// Checks the observed properties (see [`RuntimeEvidence::from_properties`])
    /// and adds the resulting snapshot.
    pub fn add_sample(&mut self, evidence: &Vec<Evidence>, properties: &RuntimeProperties)
        requires
            old(self).wf(),
            properties.evidence@.len() == evidence@.len(),
            evidence@.len() == old(self).spec_evidence_fields(),
            properties.demands@.len() == old(self).spec_demand_fields(),
        ensures
            final(self).wf(),
            final(self).spec_depth() == old(self).spec_depth(),
            final(self).spec_evidence_fields() == old(self).spec_evidence_fields(),
            final(self).spec_demand_fields() == old(self).spec_demand_fields(),
            exists|e: RuntimeEvidence|
                {
                    &&& final(self).history() == last_n(
                        old(self).history().push(e),
                        old(self).spec_depth(),
                    )
                    &&& forall|i: int|
                        0 <= i < evidence@.len() ==> #[trigger] e.evidence@[i] == check_spec(
                            evidence@[i].dimension,
                            properties.evidence@[i],
                        )
                    &&& forall|i: int|
                        0 <= i < properties.demands@.len() ==> #[trigger] e.demands@[i]
                            == check_demand_spec(properties.demands@[i])
                },
    {
        let e = RuntimeEvidence::from_properties(evidence, properties);
        let ghost g = e;
        self.add_evidence(e);
        assert(final(self).history() == last_n(old(self).history().push(g), old(self).spec_depth()));
    }

    /// The strict majority vote of every field over the snapshots held.
    pub fn get_sample(&self) -> (r: RuntimeEvidence)
        requires
            self.wf(),
        ensures
            r.evidence@.len() == self.spec_evidence_fields(),
            r.demands@.len() == self.spec_demand_fields(),
            forall|k: int|
                0 <= k < self.spec_evidence_fields() ==> #[trigger] r.evidence@[k] == majority(
                    self.history(),
                    false,
                    k,
                ),
            forall|k: int|
                0 <= k < self.spec_demand_fields() ==> #[trigger] r.demands@[k] == majority(
                    self.history(),
                    true,
                    k,
                ),
    {
        proof {
            assert forall|i: int| 0 <= i < self.values@.len() implies #[trigger] self.values@[i].evidence@.len()
                == self.evidence_fields && self.values@[i].demands@.len() == self.demand_fields by {
                assert(self.wf());
                assert(self.depth >= 1);
                assert(0 <= i < self.values@.len());
                assert(self.values@[i].evidence@.len() == self.evidence_fields);
            }
        }
        let evidence = self.vote(false, self.evidence_fields);
        let demands = self.vote(true, self.demand_fields);
        RuntimeEvidence { evidence, demands }
    }

    fn vote(&self, demand: bool, n: usize) -> (r: Vec<bool>)
        requires
            self.values@.len() <= self.depth,
            forall|i: int|
                0 <= i < self.values@.len() ==> #[trigger] self.values@[i].evidence@.len()
                    == self.evidence_fields && self.values@[i].demands@.len()
                    == self.demand_fields,
            n == if demand {
                self.demand_fields
            } else {
                self.evidence_fields
            },
        ensures
            r@.len() == n,
            forall|k: int| 0 <= k < n ==> #[trigger] r@[k] == majority(self.values@, demand, k),
    {
        let mut r: Vec<bool> = Vec::new();
        let mut k: usize = 0;
        while k < n
            invariant
                k <= n,
                r@.len() == k,
                n == if demand {
                    self.demand_fields
                } else {
                    self.evidence_fields
                },
                self.values@.len() <= self.depth,
                forall|i: int|
                    0 <= i < self.values@.len() ==> #[trigger] self.values@[i].evidence@.len()
                        == self.evidence_fields && self.values@[i].demands@.len()
                        == self.demand_fields,
                forall|q: int| 0 <= q < k ==> #[trigger] r@[q] == majority(self.values@, demand, q),
            decreases n - k,
        {
            let mut t: usize = 0;
            let mut i: usize = 0;
            assert(self.values@.subrange(0, 0) =~= Seq::<RuntimeEvidence>::empty());
            assert(t == true_votes(self.values@.subrange(0, 0), demand, k as int));
            while i < self.values.len()
                invariant
                    i <= self.values@.len(),
                    k < n,
                    n == if demand {
                        self.demand_fields
                    } else {
                        self.evidence_fields
                    },
                    forall|j: int|
                        0 <= j < self.values@.len() ==> #[trigger] self.values@[j].evidence@.len()
                            == self.evidence_fields && self.values@[j].demands@.len()
                            == self.demand_fields,
                    t == true_votes(self.values@.subrange(0, i as int), demand, k as int),
                    t <= i,
                decreases self.values@.len() - i,
            {
                let s = &self.values[i];
                assert(self.values@[i as int].evidence@.len() == self.evidence_fields);
                let b = if demand {
                    s.demands[k]
                } else {
                    s.evidence[k]
                };
                proof {
                    assert(self.values@.subrange(0, i as int + 1).drop_last() =~= self.values@.subrange(
                        0,
                        i as int,
                    ));
                }
                if b {
                    t = t + 1;
                }
                i = i + 1;
            }
            proof {
                assert(self.values@.subrange(0, self.values@.len() as int) =~= self.values@);
            }
            r.push(t > self.values.len() - t);
            k = k + 1;
        }
        r
    }
}


/// What compiling a contract is asked to do: the model, the providers to
/// compose it with, where to write, and the monitor's filter depth.
#[derive(Debug)]
pub struct CompileParameters {
    path: String,
    providers: Option<Vec<String>>,
    out_path: String,
    filter_configuration: FilterConfiguration,
}

impl CompileParameters {
    pub fn new(
        path: String,
        providers: Option<Vec<String>>,
        out_path: String,
        filter_configuration: FilterConfiguration,
    ) -> (r: CompileParameters)
        ensures
            r.spec_path() == path@,
            r.spec_providers() == match providers {
                Some(p) => p@,
                None => Seq::<String>::empty(),
            },
            r.spec_out_path() == out_path@,
            r.spec_filter_configuration() == filter_configuration,
    {
        CompileParameters { path, providers, out_path, filter_configuration }
    }

    pub closed spec fn spec_path(&self) -> Seq<char> {
        self.path@
    }

    /// The providers, none when none were given.
    pub closed spec fn spec_providers(&self) -> Seq<String> {
        match self.providers {
            Some(p) => p@,
            None => Seq::empty(),
        }
    }

    pub closed spec fn spec_out_path(&self) -> Seq<char> {
        self.out_path@
    }

    pub closed spec fn spec_filter_configuration(&self) -> FilterConfiguration {
        self.filter_configuration
    }

    pub fn path(&self) -> (r: String)
        ensures
            r@ == self.spec_path(),
    {
        self.path.clone()
    }

    pub fn providers(&self) -> (r: Vec<String>)
        ensures
            r@ == self.spec_providers(),
    {
        match &self.providers {
            Some(p) => {
                let r = p.clone();
                assert(r@ =~= p@);
                r
            },
            None => Vec::new(),
        }
    }

    pub fn out_path(&self) -> (r: String)
        ensures
            r@ == self.spec_out_path(),
    {
        self.out_path.clone()
    }

    pub fn filter_configuration(&self) -> (r: FilterConfiguration)
        ensures
            r == self.spec_filter_configuration(),
    {
        self.filter_configuration
    }
}

} // verus!
