use vstd::prelude::*;

verus! {

/// A service a contract offers, backed by some of its guarantees (given by
/// their positions among the contract's guarantees).
#[derive(Debug)]
pub struct ProvidedService {
    pub ident: String,
    pub guarantees: Vec<usize>,
    pub functional_service_type: String,
}

/// A service a contract needs, with the demands it places on it (given by
/// their positions among the contract's demands).
#[derive(Debug)]
pub struct RequiredService {
    pub ident: String,
    pub demands: Vec<usize>,
    pub functional_service_type: String,
}

/// A service identified by a name.
pub trait Service {
    fn identifier(&self) -> String;
}

impl ProvidedService {
    pub fn new(ident: String, guarantees: Vec<usize>, functional_service_type: String) -> (r:
        ProvidedService)
        ensures
            r == (ProvidedService { ident, guarantees, functional_service_type }),
    {
        ProvidedService { ident, guarantees, functional_service_type }
    }

    pub fn guarantees(&self) -> (r: &Vec<usize>)
        ensures
            r == &self.guarantees,
    {
        &self.guarantees
    }
}

impl RequiredService {
    pub fn new(ident: String, demands: Vec<usize>, functional_service_type: String) -> (r:
        RequiredService)
        ensures
            r == (RequiredService { ident, demands, functional_service_type }),
    {
        RequiredService { ident, demands, functional_service_type }
    }

    pub fn demands(&self) -> (r: &Vec<usize>)
        ensures
            r == &self.demands,
    {
        &self.demands
    }

    /// The two services are of the same kind: their functional service
    /// types are equal.
    pub fn matches_service_type(&self, provided_service: &ProvidedService) -> (r: bool)
        ensures
            r == (self.functional_service_type@ == provided_service.functional_service_type@),
    {
        self.functional_service_type == provided_service.functional_service_type
    }
}

impl Service for ProvidedService {
    fn identifier(&self) -> String {
        self.ident.clone()
    }
}

impl Service for RequiredService {
    fn identifier(&self) -> String {
        self.ident.clone()
    }
}


/// A required service as values.
pub struct RequiredServiceView {
    pub ident: Seq<char>,
    pub demands: Seq<usize>,
    pub functional_service_type: Seq<char>,
}

pub open spec fn service_view(r: RequiredService) -> RequiredServiceView {
    RequiredServiceView {
        ident: r.ident@,
        demands: r.demands@,
        functional_service_type: r.functional_service_type@,
    }
}

pub open spec fn service_views(s: Seq<RequiredService>) -> Seq<RequiredServiceView> {
    s.map_values(|r: RequiredService| service_view(r))
}

fn copy_indices(v: &Vec<usize>) -> (r: Vec<usize>)
    ensures
        r@ == v@,
{
    let mut r: Vec<usize> = Vec::new();
    let mut i: usize = 0;
    while i < v.len()
        invariant
            i <= v@.len(),
            r@ == v@.subrange(0, i as int),
        decreases v@.len() - i,
    {
        r.push(v[i]);
        assert(r@ =~= v@.subrange(0, i as int + 1));
        i = i + 1;
    }
    assert(v@.subrange(0, v@.len() as int) =~= v@);
    r
}

impl RequiredService {
    /// A copy of this service.
    pub fn copy(&self) -> (r: RequiredService)
        ensures
            service_view(r) == service_view(*self),
    {
        RequiredService {
            ident: self.ident.clone(),
            demands: copy_indices(&self.demands),
            functional_service_type: self.functional_service_type.clone(),
        }
    }
}

} // verus!
