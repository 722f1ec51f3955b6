use vstd::prelude::*;
use crate::consert::{independent, Consert, ConsertView};
use crate::elements::{demand_views, Demand, GuaranteeLink};
use crate::error::{CompositionError, ConSertError};
use crate::guarantees::fulfills_spec;
use crate::services::{service_views, RequiredService};

verus! {

/// Some guarantee of some member fulfills the demand.
pub open spec fn demand_fulfilled(members: Seq<Consert>, d: Demand) -> bool {
    exists|m: int, g: int|
        0 <= m < members.len() && 0 <= g < members[m]@.guarantees.len() && #[trigger] fulfills_spec(
            members[m]@.guarantees[g].dimensions@,
            d.dimensions@,
        )
}

/// Some member provides a service of the functional type the required
/// service asks for.
pub open spec fn service_provided(members: Seq<Consert>, r: RequiredService) -> bool {
    exists|m: int, p: int|
        0 <= m < members.len() && 0 <= p < members[m]@.provided_services.len()
            && #[trigger] members[m]@.provided_services[p].functional_service_type@
            == r.functional_service_type@
}

/// The demands of the list that no member fulfills, in order.
pub open spec fn unmatched_demands(members: Seq<Consert>, s: Seq<Demand>) -> Seq<Demand>
    decreases s.len(),
{
    if s.len() == 0 {
        Seq::empty()
    } else {
        (if demand_fulfilled(members, s[0]) {
            Seq::empty()
        } else {
            seq![s[0]]
        }) + unmatched_demands(members, s.drop_first())
    }
}

/// The required services of the list that no member provides, in order.
pub open spec fn unmatched_services(members: Seq<Consert>, s: Seq<RequiredService>) -> Seq<
    RequiredService,
>
    decreases s.len(),
{
    if s.len() == 0 {
        Seq::empty()
    } else {
        (if service_provided(members, s[0]) {
            Seq::empty()
        } else {
            seq![s[0]]
        }) + unmatched_services(members, s.drop_first())
    }
}

/// Every demand of the candidate is fulfilled and every required service
/// provided by some member.
pub open spec fn composable(members: Seq<Consert>, c: ConsertView) -> bool {
    &&& forall|i: int| 0 <= i < c.demands.len() ==> #[trigger] demand_fulfilled(members, c.demands[i])
    &&& forall|i: int|
        0 <= i < c.required_services.len() ==> #[trigger] service_provided(
            members,
            c.required_services[i],
        )
}

/// A link as values: provider crate name, guarantee id, guarantee index.
pub open spec fn link_view(l: GuaranteeLink) -> (Seq<char>, Seq<char>, usize) {
    (l.provider@, l.guarantee@, l.index)
}

/// The links that the first `n` guarantees of member `m` give the demand.
pub open spec fn member_links(m: Consert, d: Demand, n: int) -> Seq<(Seq<char>, Seq<char>, usize)>
    decreases n,
{
    if n <= 0 || n > m@.guarantees.len() {
        Seq::empty()
    } else {
        member_links(m, d, n - 1) + if fulfills_spec(
            m@.guarantees[n - 1].dimensions@,
            d.dimensions@,
        ) {
            seq![("consert_"@ + m@.name, m@.guarantees[n - 1].id@, m@.guarantees[n - 1].index)]
        } else {
            Seq::empty()
        }
    }
}

/// The links that the first `k` members give the demand: one for every
/// guarantee that fulfills it, members and guarantees in order.
pub open spec fn links_upto(members: Seq<Consert>, d: Demand, k: int) -> Seq<
    (Seq<char>, Seq<char>, usize),
>
    decreases k,
{
    if k <= 0 || k > members.len() {
        Seq::empty()
    } else {
        links_upto(members, d, k - 1) + member_links(
            members[k - 1],
            d,
            members[k - 1]@.guarantees.len() as int,
        )
    }
}

/// The demand after linking: the same demand with the links of every
/// fulfilling guarantee of the members appended.
pub open spec fn linked(members: Seq<Consert>, old_d: Demand, new_d: Demand) -> bool {
    &&& new_d.id == old_d.id
    &&& new_d.description == old_d.description
    &&& new_d.dimensions == old_d.dimensions
    &&& new_d.index == old_d.index
    &&& new_d.linked_guarantees@.map_values(|l: GuaranteeLink| link_view(l))
        == old_d.linked_guarantees@.map_values(|l: GuaranteeLink| link_view(l)) + links_upto(
        members,
        old_d,
        members.len() as int,
    )
}

/// An ordered collection of contracts, each of whose demands and required
/// services were met by earlier members when it was added.
#[derive(Debug)]
pub struct SystemOfSystems {
    conserts: Vec<Consert>,
}

impl View for SystemOfSystems {
    type V = Seq<Consert>;

    closed spec fn view(&self) -> Seq<Consert> {
        self.conserts@
    }
}

/// A contract linked into a system of systems.
pub trait Link {
    /// Records, on each demand of this contract, every guarantee of a member
    /// of `sos` that fulfills it.
    fn link(&mut self, sos: &SystemOfSystems);
}

impl Consert {
    /// Records, on each demand of this contract, every guarantee of a member
    /// of `sos` that fulfills it (see [`linked`]); nothing else changes.
    pub fn link(&mut self, sos: &SystemOfSystems)
        ensures
            final(self)@ == (ConsertView { demands: final(self)@.demands, ..old(self)@ }),
            final(self)@.demands.len() == old(self)@.demands.len(),
            forall|i: int|
                0 <= i < old(self)@.demands.len() ==> linked(
                    sos@,
                    old(self)@.demands[i],
                    #[trigger] final(self)@.demands[i],
                ),
    {
        sos.link_consert(self);
    }
}

impl Link for Consert {
    fn link(&mut self, sos: &SystemOfSystems) {
        Consert::link(self, sos);
    }
}

impl SystemOfSystems {
    /// An empty system of systems.
    pub fn new() -> (r: SystemOfSystems)
        ensures
            r@ == Seq::<Consert>::empty(),
    {
        SystemOfSystems { conserts: Vec::new() }
    }

    pub fn conserts(&self) -> (r: &Vec<Consert>)
        ensures
            r@ == self@,
    {
        &self.conserts
    }

    /// A system of systems seeded with an independent contract.
    pub fn from_consert(consert: Consert) -> (r: Result<SystemOfSystems, ConSertError>)
        ensures
            independent(consert@) ==> (r matches Ok(s) && s@ == seq![consert]),
            !independent(consert@) ==> r matches Err(
                ConSertError::Composition { source: CompositionError::Dependent },
            ),
    {
        if consert.is_independent() {
            Ok(SystemOfSystems { conserts: vec![consert] })
        } else {
            Err(ConSertError::Composition { source: CompositionError::Dependent })
        }
    }

    fn is_fulfilled(&self, d: &Demand) -> (r: bool)
        ensures
            r == demand_fulfilled(self@, *d),
    {
        let mut m: usize = 0;
        while m < self.conserts.len()
            invariant
                m <= self@.len(),
                forall|a: int, g: int|
                    0 <= a < m && 0 <= g < self@[a]@.guarantees.len() ==> !#[trigger] fulfills_spec(
                        self@[a]@.guarantees[g].dimensions@,
                        d.dimensions@,
                    ),
            decreases self@.len() - m,
        {
            let gs = self.conserts[m].guarantees();
            let mut g: usize = 0;
            while g < gs.len()
                invariant
                    m < self@.len(),
                    gs@ == self@[m as int]@.guarantees,
                    g <= gs@.len(),
                    forall|q: int| 0 <= q < g ==> !#[trigger] fulfills_spec(
                        gs@[q].dimensions@,
                        d.dimensions@,
                    ),
                decreases gs@.len() - g,
            {
                if gs[g].fulfills(d) {
                    return true;
                }
                g = g + 1;
            }
            m = m + 1;
        }
        false
    }

    fn is_provided(&self, r: &RequiredService) -> (b: bool)
        ensures
            b == service_provided(self@, *r),
    {
        let mut m: usize = 0;
        while m < self.conserts.len()
            invariant
                m <= self@.len(),
                forall|a: int, p: int|
                    0 <= a < m && 0 <= p < self@[a]@.provided_services.len()
                        ==> #[trigger] self@[a]@.provided_services[p].functional_service_type@
                        != r.functional_service_type@,
            decreases self@.len() - m,
        {
            let ps = self.conserts[m].provided_services();
            let mut p: usize = 0;
            while p < ps.len()
                invariant
                    m < self@.len(),
                    ps@ == self@[m as int]@.provided_services,
                    p <= ps@.len(),
                    forall|q: int|
                        0 <= q < p ==> #[trigger] ps@[q].functional_service_type@
                            != r.functional_service_type@,
                decreases ps@.len() - p,
            {
                if r.matches_service_type(&ps[p]) {
                    return true;
                }
                p = p + 1;
            }
            m = m + 1;
        }
        false
    }

    /// Whether every demand of the candidate is fulfilled by a guarantee of
    /// a member and every required service is provided by a member.
    fn is_composable(&self, other: &Consert) -> (r: bool)
        ensures
            r == composable(self@, other@),
    {
        let ds = other.demands();
        let mut i: usize = 0;
        while i < ds.len()
            invariant
                ds@ == other@.demands,
                i <= ds@.len(),
                forall|k: int| 0 <= k < i ==> #[trigger] demand_fulfilled(self@, ds@[k]),
            decreases ds@.len() - i,
        {
            if !self.is_fulfilled(&ds[i]) {
                return false;
            }
            i = i + 1;
        }
        let rs = other.required_services();
        let mut j: usize = 0;
        while j < rs.len()
            invariant
                rs@ == other@.required_services,
                j <= rs@.len(),
                forall|k: int| 0 <= k < j ==> #[trigger] service_provided(self@, rs@[k]),
            decreases rs@.len() - j,
        {
            if !self.is_provided(&rs[j]) {
                return false;
            }
            j = j + 1;
        }
        true
    }

    fn link_demand(&self, d: &mut Demand)
        ensures
            linked(self@, *old(d), *final(d)),
    {
        let ghost orig = *d;
        let ghost base = orig.linked_guarantees@.map_values(|l: GuaranteeLink| link_view(l));
        let mut m: usize = 0;
        assert(d.linked_guarantees@.map_values(|l: GuaranteeLink| link_view(l)) =~= base
            + links_upto(self@, orig, 0));
        while m < self.conserts.len()
            invariant
                m <= self@.len(),
                d.id == orig.id,
                d.description == orig.description,
                d.dimensions == orig.dimensions,
                d.index == orig.index,
                d.linked_guarantees@.map_values(|l: GuaranteeLink| link_view(l)) == base
                    + links_upto(self@, orig, m as int),
            decreases self@.len() - m,
        {
            let member = &self.conserts[m];
            let gs = member.guarantees();
            let mut g: usize = 0;
            assert(d.linked_guarantees@.map_values(|l: GuaranteeLink| link_view(l)) =~= base
                + links_upto(self@, orig, m as int) + member_links(*member, orig, 0));
            while g < gs.len()
                invariant
                    m < self@.len(),
                    *member == self@[m as int],
                    gs@ == member@.guarantees,
                    g <= gs@.len(),
                    d.id == orig.id,
                    d.description == orig.description,
                    d.dimensions == orig.dimensions,
                    d.index == orig.index,
                    d.linked_guarantees@.map_values(|l: GuaranteeLink| link_view(l)) == base
                        + links_upto(self@, orig, m as int) + member_links(*member, orig, g as int),
                decreases gs@.len() - g,
            {
                if gs[g].fulfills(d) {
                    let ghost before = d.linked_guarantees@;
                    d.link(member.crate_name(), gs[g].id.clone(), gs[g].index);
                    assert(d.linked_guarantees@.map_values(|l: GuaranteeLink| link_view(l))
                        =~= before.map_values(|l: GuaranteeLink| link_view(l)).push(
                        link_view(d.linked_guarantees@.last()),
                    ));
                }
                assert(d.linked_guarantees@.map_values(|l: GuaranteeLink| link_view(l)) =~= base
                    + links_upto(self@, orig, m as int) + member_links(
                    *member,
                    orig,
                    g as int + 1,
                ));
                g = g + 1;
            }
            assert(d.linked_guarantees@.map_values(|l: GuaranteeLink| link_view(l)) =~= base
                + links_upto(self@, orig, m as int + 1));
            m = m + 1;
        }
    }

    /// Links every demand of the contract to the guarantees of the members
    /// that fulfill it.
    pub fn link_consert(&self, c: &mut Consert)
        ensures
            final(c)@ == (ConsertView { demands: final(c)@.demands, ..old(c)@ }),
            final(c)@.demands.len() == old(c)@.demands.len(),
            forall|i: int|
                0 <= i < old(c)@.demands.len() ==> linked(
                    self@,
                    old(c)@.demands[i],
                    #[trigger] final(c)@.demands[i],
                ),
    {
        let mut rest: Vec<Demand> = Vec::new();
        c.swap_demands(&mut rest);
        let ghost orig = rest@;
        let mut done: Vec<Demand> = Vec::new();
        while rest.len() > 0
            invariant
                done@.len() + rest@.len() == orig.len(),
                rest@ == orig.subrange(done@.len() as int, orig.len() as int),
                forall|i: int| 0 <= i < done@.len() ==> linked(self@, orig[i], #[trigger] done@[i]),
            decreases rest@.len(),
        {
            let mut d = rest.remove(0);
            self.link_demand(&mut d);
            done.push(d);
            assert(rest@ =~= orig.subrange(done@.len() as int, orig.len() as int));
        }
        c.swap_demands(&mut done);
    }

    fn take_unmatched_demands(&self, v: Vec<Demand>) -> (r: Vec<Demand>)
        ensures
            r@ == unmatched_demands(self@, v@),
    {
        let ghost orig = v@;
        let mut rest = v;
        let mut r: Vec<Demand> = Vec::new();
        while rest.len() > 0
            invariant
                r@ + unmatched_demands(self@, rest@) == unmatched_demands(self@, orig),
            decreases rest@.len(),
        {
            let ghost before = rest@;
            let d = rest.remove(0);
            assert(rest@ =~= before.drop_first());
            if !self.is_fulfilled(&d) {
                r.push(d);
            }
            assert(r@ + unmatched_demands(self@, rest@) =~= unmatched_demands(self@, orig));
        }
        assert(r@ =~= unmatched_demands(self@, orig));
        r
    }

    fn take_unmatched_services(&self, v: Vec<RequiredService>) -> (r: Vec<RequiredService>)
        ensures
            r@ == unmatched_services(self@, v@),
    {
        let ghost orig = v@;
        let mut rest = v;
        let mut r: Vec<RequiredService> = Vec::new();
        while rest.len() > 0
            invariant
                r@ + unmatched_services(self@, rest@) == unmatched_services(self@, orig),
            decreases rest@.len(),
        {
            let ghost before = rest@;
            let s = rest.remove(0);
            assert(rest@ =~= before.drop_first());
            if !self.is_provided(&s) {
                r.push(s);
            }
            assert(r@ + unmatched_services(self@, rest@) =~= unmatched_services(self@, orig));
        }
        assert(r@ =~= unmatched_services(self@, orig));
        r
    }

    /// Adds a contract whose demands and required services the members meet,
    /// after linking each of its demands to every fulfilling guarantee. On
    /// failure the system is left as it was and the error lists the demands
    /// and required services that no member meets.
    pub fn add_consert(&mut self, other: Consert) -> (r: Result<(), ConSertError>)
        ensures
            composable(old(self)@, other@) ==> {
                &&& r is Ok
                &&& final(self)@.len() == old(self)@.len() + 1
                &&& final(self)@.subrange(0, old(self)@.len() as int) == old(self)@
                &&& final(self)@.last()@ == (ConsertView {
                    demands: final(self)@.last()@.demands,
                    ..other@
                })
                &&& final(self)@.last()@.demands.len() == other@.demands.len()
                &&& forall|i: int|
                    0 <= i < other@.demands.len() ==> linked(
                        old(self)@,
                        other@.demands[i],
                        #[trigger] final(self)@.last()@.demands[i],
                    )
            },
            !composable(old(self)@, other@) ==> {
                &&& final(self)@ == old(self)@
                &&& r matches Err(
                    ConSertError::Composition {
                        source: CompositionError::Incompatible {
                            path,
                            unmatched_demands: ud,
                            unmatched_required_services: us,
                        },
                    },
                )
                &&& path@ == other@.path
                &&& ud@ == unmatched_demands(old(self)@, other@.demands)
                &&& us@ == unmatched_services(old(self)@, other@.required_services)
            },
    {
        if self.is_composable(&other) {
            let mut c = other;
            self.link_consert(&mut c);
            self.conserts.push(c);
            assert(self@.subrange(0, old(self)@.len() as int) =~= old(self)@);
            Ok(())
        } else {
            let mut c = other;
            let mut ds: Vec<Demand> = Vec::new();
            c.swap_demands(&mut ds);
            let mut rs: Vec<RequiredService> = Vec::new();
            c.swap_required_services(&mut rs);
            let unmatched_demands = self.take_unmatched_demands(ds);
            let unmatched_required_services = self.take_unmatched_services(rs);
            Err(
                ConSertError::Composition {
                    source: CompositionError::Incompatible {
                        path: c.path(),
                        unmatched_demands,
                        unmatched_required_services,
                    },
                },
            )
        }
    }
}


proof fn lemma_unmatched_demands_push(members: Seq<Consert>, a: Seq<Demand>, x: Demand)
    ensures
        unmatched_demands(members, a.push(x)) == unmatched_demands(members, a) + if demand_fulfilled(
            members,
            x,
        ) {
            Seq::<Demand>::empty()
        } else {
            seq![x]
        },
    decreases a.len(),
{
    if a.len() == 0 {
        assert(a.push(x).drop_first() =~= Seq::<Demand>::empty());
        assert(a =~= Seq::<Demand>::empty());
        assert(unmatched_demands(members, Seq::<Demand>::empty()) =~= Seq::<Demand>::empty());
        assert(a.push(x)[0] == x);
        assert(unmatched_demands(members, a.push(x)) =~= unmatched_demands(members, a) + if demand_fulfilled(members, x) {
            Seq::<Demand>::empty()
        } else {
            seq![x]
        });
    } else {
        lemma_unmatched_demands_push(members, a.drop_first(), x);
        assert(a.push(x).drop_first() =~= a.drop_first().push(x));
        assert(a.push(x)[0] == a[0]);
        assert(unmatched_demands(members, a.push(x)) =~= unmatched_demands(members, a) + if demand_fulfilled(members, x) {
            Seq::<Demand>::empty()
        } else {
            seq![x]
        });
    }
}

proof fn lemma_unmatched_services_push(members: Seq<Consert>, a: Seq<RequiredService>, x: RequiredService)
    ensures
        unmatched_services(members, a.push(x)) == unmatched_services(members, a) + if service_provided(
            members,
            x,
        ) {
            Seq::<RequiredService>::empty()
        } else {
            seq![x]
        },
    decreases a.len(),
{
    if a.len() == 0 {
        assert(a.push(x).drop_first() =~= Seq::<RequiredService>::empty());
        assert(a =~= Seq::<RequiredService>::empty());
        assert(unmatched_services(members, Seq::<RequiredService>::empty()) =~= Seq::<RequiredService>::empty());
        assert(a.push(x)[0] == x);
        assert(unmatched_services(members, a.push(x)) =~= unmatched_services(members, a) + if service_provided(members, x) {
            Seq::<RequiredService>::empty()
        } else {
            seq![x]
        });
    } else {
        lemma_unmatched_services_push(members, a.drop_first(), x);
        assert(a.push(x).drop_first() =~= a.drop_first().push(x));
        assert(a.push(x)[0] == a[0]);
        assert(unmatched_services(members, a.push(x)) =~= unmatched_services(members, a) + if service_provided(members, x) {
            Seq::<RequiredService>::empty()
        } else {
            seq![x]
        });
    }
}

impl SystemOfSystems {
    /// Whether the candidate can be added: `Ok` when every demand is
    /// fulfilled by a guarantee of a member and every required service is
    /// provided by a member, else an error with the candidate's path and
    /// copies of the demands and required services that no member meets.
    pub fn can_consert_be_added(&self, other: &Consert) -> (r: Result<(), ConSertError>)
        ensures
            r is Ok <==> composable(self@, other@),
            r is Err ==> {
                &&& r matches Err(
                    ConSertError::Composition {
                        source: CompositionError::Incompatible {
                            path,
                            unmatched_demands: ud,
                            unmatched_required_services: us,
                        },
                    },
                )
                &&& path@ == other@.path
                &&& demand_views(ud@) == demand_views(unmatched_demands(self@, other@.demands))
                &&& service_views(us@) == service_views(
                    unmatched_services(self@, other@.required_services),
                )
            },
    {
        let ds = other.demands();
        let mut ud: Vec<Demand> = Vec::new();
        let mut all_demands = true;
        let mut i: usize = 0;
        assert(ds@.subrange(0, 0) =~= Seq::<Demand>::empty());
        assert(demand_views(ud@) =~= demand_views(unmatched_demands(self@, ds@.subrange(0, 0))));
        while i < ds.len()
            invariant
                ds@ == other@.demands,
                i <= ds@.len(),
                demand_views(ud@) == demand_views(unmatched_demands(self@, ds@.subrange(0, i as int))),
                all_demands == forall|k: int| 0 <= k < i ==> #[trigger] demand_fulfilled(self@, ds@[k]),
            decreases ds@.len() - i,
        {
            proof {
                assert(ds@.subrange(0, i as int + 1) =~= ds@.subrange(0, i as int).push(ds@[i as int]));
                lemma_unmatched_demands_push(self@, ds@.subrange(0, i as int), ds@[i as int]);
            }
            if !self.is_fulfilled(&ds[i]) {
                let ghost prev = ud@;
                let c = ds[i].copy();
                ud.push(c);
                assert(demand_views(ud@) =~= demand_views(prev).push(crate::elements::demand_view(c)));
                assert(demand_views(ud@) =~= demand_views(
                    unmatched_demands(self@, ds@.subrange(0, i as int + 1)),
                ));
                all_demands = false;
            } else {
                assert(unmatched_demands(self@, ds@.subrange(0, i as int + 1)) =~= unmatched_demands(
                    self@,
                    ds@.subrange(0, i as int),
                ));
            }
            i = i + 1;
        }
        assert(ds@.subrange(0, ds@.len() as int) =~= ds@);
        let rs = other.required_services();
        let mut us: Vec<RequiredService> = Vec::new();
        let mut all_services = true;
        let mut j: usize = 0;
        assert(rs@.subrange(0, 0) =~= Seq::<RequiredService>::empty());
        assert(service_views(us@) =~= service_views(unmatched_services(self@, rs@.subrange(0, 0))));
        while j < rs.len()
            invariant
                rs@ == other@.required_services,
                j <= rs@.len(),
                service_views(us@) == service_views(
                    unmatched_services(self@, rs@.subrange(0, j as int)),
                ),
                all_services == forall|k: int| 0 <= k < j ==> #[trigger] service_provided(self@, rs@[k]),
            decreases rs@.len() - j,
        {
            proof {
                assert(rs@.subrange(0, j as int + 1) =~= rs@.subrange(0, j as int).push(rs@[j as int]));
                lemma_unmatched_services_push(self@, rs@.subrange(0, j as int), rs@[j as int]);
            }
            if !self.is_provided(&rs[j]) {
                let ghost prev = us@;
                let c = rs[j].copy();
                us.push(c);
                assert(service_views(us@) =~= service_views(prev).push(crate::services::service_view(c)));
                assert(service_views(us@) =~= service_views(
                    unmatched_services(self@, rs@.subrange(0, j as int + 1)),
                ));
                all_services = false;
            } else {
                assert(unmatched_services(self@, rs@.subrange(0, j as int + 1)) =~= unmatched_services(
                    self@,
                    rs@.subrange(0, j as int),
                ));
            }
            j = j + 1;
        }
        assert(rs@.subrange(0, rs@.len() as int) =~= rs@);
        if all_demands && all_services {
            Ok(())
        } else {
            Err(
                ConSertError::Composition {
                    source: CompositionError::Incompatible {
                        path: other.path(),
                        unmatched_demands: ud,
                        unmatched_required_services: us,
                    },
                },
            )
        }
    }
}


proof fn lemma_member_links_has(m: Consert, d: Demand, n: int, j: int)
    requires
        0 <= j < n <= m@.guarantees.len(),
        fulfills_spec(m@.guarantees[j].dimensions@, d.dimensions@),
    ensures
        member_links(m, d, n).contains(
            ("consert_"@ + m@.name, m@.guarantees[j].id@, m@.guarantees[j].index),
        ),
    decreases n,
{
    let x = ("consert_"@ + m@.name, m@.guarantees[j].id@, m@.guarantees[j].index);
    let prev = member_links(m, d, n - 1);
    if j < n - 1 {
        lemma_member_links_has(m, d, n - 1, j);
        let k = choose|k: int| 0 <= k < prev.len() && prev[k] == x;
        assert(member_links(m, d, n)[k] == x);
    } else {
        assert(member_links(m, d, n)[prev.len() as int] == x);
    }
}

proof fn lemma_links_upto_has(members: Seq<Consert>, d: Demand, k: int, m: int, j: int)
    requires
        0 <= m < k <= members.len(),
        0 <= j < members[m]@.guarantees.len(),
        fulfills_spec(members[m]@.guarantees[j].dimensions@, d.dimensions@),
    ensures
        links_upto(members, d, k).contains(
            ("consert_"@ + members[m]@.name, members[m]@.guarantees[j].id@, members[m]@.guarantees[j].index),
        ),
    decreases k,
{
    let x = ("consert_"@ + members[m]@.name, members[m]@.guarantees[j].id@, members[m]@.guarantees[j].index);
    let prev = links_upto(members, d, k - 1);
    if m < k - 1 {
        lemma_links_upto_has(members, d, k - 1, m, j);
        let q = choose|q: int| 0 <= q < prev.len() && prev[q] == x;
        assert(links_upto(members, d, k)[q] == x);
    } else {
        let ml = member_links(members[m], d, members[m]@.guarantees.len() as int);
        lemma_member_links_has(members[m], d, members[m]@.guarantees.len() as int, j);
        let q = choose|q: int| 0 <= q < ml.len() && ml[q] == x;
        assert(links_upto(members, d, k)[prev.len() + q] == x);
    }
}

/// Linking records every fulfilling guarantee: when guarantee `j` of member
/// `m` fulfills a demand, the demand's new links hold one that names that
/// member's crate and that guarantee.
pub proof fn lemma_fulfilling_guarantee_is_linked(
    members: Seq<Consert>,
    old_d: Demand,
    new_d: Demand,
    m: int,
    j: int,
)
    requires
        0 <= m < members.len(),
        0 <= j < members[m]@.guarantees.len(),
        fulfills_spec(members[m]@.guarantees[j].dimensions@, old_d.dimensions@),
        linked(members, old_d, new_d),
    ensures
        new_d.linked_guarantees@.map_values(|l: GuaranteeLink| link_view(l)).contains(
            ("consert_"@ + members[m]@.name, members[m]@.guarantees[j].id@, members[m]@.guarantees[j].index),
        ),
{
    let x = ("consert_"@ + members[m]@.name, members[m]@.guarantees[j].id@, members[m]@.guarantees[j].index);
    lemma_links_upto_has(members, old_d, members.len() as int, m, j);
    let base = old_d.linked_guarantees@.map_values(|l: GuaranteeLink| link_view(l));
    let l = links_upto(members, old_d, members.len() as int);
    let q = choose|q: int| 0 <= q < l.len() && l[q] == x;
    assert((base + l)[base.len() + q] == x);
}

} // verus!
