use vstd::prelude::*;
use crate::elements::{Demand, Evidence};
use crate::error::{ConSertError, ConstructionError};
use crate::guarantees::Guarantee;
use crate::services::{ProvidedService, RequiredService};
use crate::dimension::Dimension;

verus! {

/// What a contract is made of, as values.
pub struct ConsertView {
    pub name: Seq<char>,
    pub path: Seq<char>,
    pub checksum: Seq<char>,
    pub guarantees: Seq<Guarantee>,
    pub demands: Seq<Demand>,
    pub provided_services: Seq<ProvidedService>,
    pub required_services: Seq<RequiredService>,
    pub evidence: Seq<Evidence>,
}

/// A conditional safety certificate: a component's guarantees, the evidence
/// they rest on, its demands on other components and its services.
#[derive(Debug)]
pub struct Consert {
    name: String,
    path: String,
    checksum: String,
    guarantees: Vec<Guarantee>,
    demands: Vec<Demand>,
    provided_services: Vec<ProvidedService>,
    required_services: Vec<RequiredService>,
    evidence: Vec<Evidence>,
}

impl View for Consert {
    type V = ConsertView;

    closed spec fn view(&self) -> ConsertView {
        ConsertView {
            name: self.name@,
            path: self.path@,
            checksum: self.checksum@,
            guarantees: self.guarantees@,
            demands: self.demands@,
            provided_services: self.provided_services@,
            required_services: self.required_services@,
            evidence: self.evidence@,
        }
    }
}

/// The checksum of a contract that was not read from a model file.
pub open spec fn untraced_checksum() -> Seq<char> {
    "NOT-TRACED-TO-A-XML-MODEL"@
}

/// A contract is independent when it has no demands and requires no
/// services.
pub open spec fn independent(c: ConsertView) -> bool {
    c.required_services.len() == 0 && c.demands.len() == 0
}

impl Consert {
    /// A contract named `empty` with nothing in it.
    pub fn empty() -> (r: Consert)
        ensures
            r@.name == "empty"@,
            r@.path == "empty"@,
            r@.checksum == untraced_checksum(),
            r@.guarantees.len() == 0,
            r@.demands.len() == 0,
            r@.provided_services.len() == 0,
            r@.required_services.len() == 0,
            r@.evidence.len() == 0,
    {
        Consert {
            demands: Vec::new(),
            evidence: Vec::new(),
            checksum: "NOT-TRACED-TO-A-XML-MODEL".to_owned(),
            guarantees: Vec::new(),
            provided_services: Vec::new(),
            required_services: Vec::new(),
            name: "empty".to_owned(),
            path: "empty".to_owned(),
        }
    }

    pub fn new(
        name: String,
        path: String,
        checksum: String,
        guarantees: Vec<Guarantee>,
        demands: Vec<Demand>,
        provided_services: Vec<ProvidedService>,
        required_services: Vec<RequiredService>,
        evidence: Vec<Evidence>,
    ) -> (r: Consert)
        ensures
            r@ == (ConsertView {
                name: name@,
                path: path@,
                checksum: checksum@,
                guarantees: guarantees@,
                demands: demands@,
                provided_services: provided_services@,
                required_services: required_services@,
                evidence: evidence@,
            }),
    {
        Consert {
            name,
            path,
            checksum,
            guarantees,
            demands,
            provided_services,
            required_services,
            evidence,
        }
    }

    /// The name of the crate generated for this contract: `consert_<name>`.
    pub fn crate_name(&self) -> (r: String)
        ensures
            r@ == "consert_"@ + self@.name,
    {
        let mut s = "consert_".to_owned();
        s.append(self.name.as_str());
        s
    }

    pub fn name(&self) -> (r: String)
        ensures
            r@ == self@.name,
    {
        self.name.clone()
    }

    pub fn checksum(&self) -> (r: String)
        ensures
            r@ == self@.checksum,
    {
        self.checksum.clone()
    }

    pub fn path(&self) -> (r: String)
        ensures
            r@ == self@.path,
    {
        self.path.clone()
    }

    /// A contract is independent when it has no demands and requires no
    /// services.
    pub fn is_independent(&self) -> (r: bool)
        ensures
            r == independent(self@),
    {
        self.required_services.len() == 0 && self.demands.len() == 0
    }

    pub fn required_services(&self) -> (r: &Vec<RequiredService>)
        ensures
            r@ == self@.required_services,
    {
        &self.required_services
    }

    pub fn provided_services(&self) -> (r: &Vec<ProvidedService>)
        ensures
            r@ == self@.provided_services,
    {
        &self.provided_services
    }

    pub fn demands(&self) -> (r: &Vec<Demand>)
        ensures
            r@ == self@.demands,
    {
        &self.demands
    }

    pub fn evidence(&self) -> (r: &Vec<Evidence>)
        ensures
            r@ == self@.evidence,
    {
        &self.evidence
    }

    pub fn guarantees(&self) -> (r: &Vec<Guarantee>)
        ensures
            r@ == self@.guarantees,
    {
        &self.guarantees
    }

    /// Exchanges the demands of this contract with `demands`.
    pub(crate) fn swap_demands(&mut self, demands: &mut Vec<Demand>)
        ensures
            final(self)@ == (ConsertView { demands: old(demands)@, ..old(self)@ }),
            final(demands)@ == old(self)@.demands,
    {
        core::mem::swap(&mut self.demands, demands);
    }

    /// Exchanges the required services of this contract with `services`.
    pub(crate) fn swap_required_services(&mut self, services: &mut Vec<RequiredService>)
        ensures
            final(self)@ == (ConsertView { required_services: old(services)@, ..old(self)@ }),
            final(services)@ == old(self)@.required_services,
    {
        core::mem::swap(&mut self.required_services, services);
    }
}

/// What a builder has gathered so far.
pub struct ConsertBuilderView {
    pub name: Option<Seq<char>>,
    pub path: Option<Seq<char>>,
    pub guarantees: Seq<Guarantee>,
    pub demands: Seq<Demand>,
    pub provided_services: Seq<ProvidedService>,
    pub required_services: Seq<RequiredService>,
    pub evidence: Seq<Evidence>,
}

/// Gathers the parts of a contract; `build` checks that it has a name and a
/// path.
#[derive(Debug)]
pub struct ConsertBuilder {
    name: Option<String>,
    path: Option<String>,
    guarantees: Vec<Guarantee>,
    demands: Vec<Demand>,
    provided_services: Vec<ProvidedService>,
    required_services: Vec<RequiredService>,
    evidence: Vec<Evidence>,
}

pub open spec fn opt_view(s: Option<String>) -> Option<Seq<char>> {
    match s {
        Some(s) => Some(s@),
        None => None,
    }
}

impl View for ConsertBuilder {
    type V = ConsertBuilderView;

    closed spec fn view(&self) -> ConsertBuilderView {
        ConsertBuilderView {
            name: opt_view(self.name),
            path: opt_view(self.path),
            guarantees: self.guarantees@,
            demands: self.demands@,
            provided_services: self.provided_services@,
            required_services: self.required_services@,
            evidence: self.evidence@,
        }
    }
}

impl ConsertBuilder {
    /// A builder with nothing gathered.
    pub fn new() -> (r: ConsertBuilder)
        ensures
            r@.name is None,
            r@.path is None,
            r@.guarantees.len() == 0,
            r@.demands.len() == 0,
            r@.provided_services.len() == 0,
            r@.required_services.len() == 0,
            r@.evidence.len() == 0,
    {
        ConsertBuilder {
            demands: Vec::new(),
            evidence: Vec::new(),
            guarantees: Vec::new(),
            provided_services: Vec::new(),
            required_services: Vec::new(),
            name: None,
            path: None,
        }
    }

    pub fn name(self, name: String) -> (r: ConsertBuilder)
        ensures
            r@ == (ConsertBuilderView { name: Some(name@), ..self@ }),
    {
        ConsertBuilder { name: Some(name), ..self }
    }

    pub fn path(self, path: String) -> (r: ConsertBuilder)
        ensures
            r@ == (ConsertBuilderView { path: Some(path@), ..self@ }),
    {
        ConsertBuilder { path: Some(path), ..self }
    }

    /// Adds an evidence at the next index and returns that index.
    pub fn add_runtime_evidence(
        &mut self,
        name: String,
        description: Option<String>,
        dimension: Dimension,
    ) -> (r: usize)
        requires
            old(self)@.evidence.len() < usize::MAX,
        ensures
            r == old(self)@.evidence.len(),
            final(self)@ == (ConsertBuilderView {
                evidence: old(self)@.evidence.push(
                    Evidence { id: name, description, dimension, index: r },
                ),
                ..old(self)@
            }),
    {
        let index = self.evidence.len();
        self.evidence.push(Evidence::new(index, name, description, dimension));
        index
    }

    pub fn insert_runtime_evidence(self, rte: Evidence) -> (r: ConsertBuilder)
        ensures
            r@ == (ConsertBuilderView { evidence: self@.evidence.push(rte), ..self@ }),
    {
        let mut b = self;
        b.evidence.push(rte);
        b
    }

    /// Adds a guarantee of one dimension at the next index.
    pub fn add_guarantee(
        self,
        name: String,
        description: Option<String>,
        dimension: Dimension,
        cst: crate::elements::ConsertTree,
    ) -> (r: ConsertBuilder)
        ensures
            r@.guarantees.len() == self@.guarantees.len() + 1,
            r@.guarantees.subrange(0, self@.guarantees.len() as int) == self@.guarantees,
            r@.guarantees.last().id == name,
            r@.guarantees.last().description == description,
            r@.guarantees.last().dimensions@ == seq![dimension],
            r@.guarantees.last().index == self@.guarantees.len(),
            r@.guarantees.last().cst == cst,
            r@ == (ConsertBuilderView { guarantees: r@.guarantees, ..self@ }),
    {
        let mut b = self;
        let index = b.guarantees.len();
        b.guarantees.push(Guarantee::new(index, name, description, dimension, cst));
        b
    }

    pub fn insert_guarantee(self, guarantee: Guarantee) -> (r: ConsertBuilder)
        ensures
            r@ == (ConsertBuilderView { guarantees: self@.guarantees.push(guarantee), ..self@ }),
    {
        let mut b = self;
        b.guarantees.push(guarantee);
        b
    }

    pub fn add_demand(self, demand: Demand) -> (r: ConsertBuilder)
        ensures
            r@ == (ConsertBuilderView { demands: self@.demands.push(demand), ..self@ }),
    {
        let mut b = self;
        b.demands.push(demand);
        b
    }

    pub fn add_provided_service(self, service: ProvidedService) -> (r: ConsertBuilder)
        ensures
            r@ == (ConsertBuilderView {
                provided_services: self@.provided_services.push(service),
                ..self@
            }),
    {
        let mut b = self;
        b.provided_services.push(service);
        b
    }

    pub fn add_required_service(self, service: RequiredService) -> (r: ConsertBuilder)
        ensures
            r@ == (ConsertBuilderView {
                required_services: self@.required_services.push(service),
                ..self@
            }),
    {
        let mut b = self;
        b.required_services.push(service);
        b
    }

    /// The contract gathered, which must have a name and a path.
    pub fn build(self) -> (r: Result<Consert, ConSertError>)
        ensures
            self@.name is None ==> r matches Err(
                ConSertError::Construction { source: ConstructionError::MissingName },
            ),
            self@.name is Some && self@.path is None ==> r matches Err(
                ConSertError::Construction { source: ConstructionError::MissingPath },
            ),
            self@.name is Some && self@.path is Some ==> (r matches Ok(c) && c@ == (ConsertView {
                name: self@.name->0,
                path: self@.path->0,
                checksum: untraced_checksum(),
                guarantees: self@.guarantees,
                demands: self@.demands,
                provided_services: self@.provided_services,
                required_services: self@.required_services,
                evidence: self@.evidence,
            })),
    {
        let name = match self.name {
            Some(n) => n,
            None => {
                return Err(ConSertError::Construction { source: ConstructionError::MissingName });
            },
        };
        let path = match self.path {
            Some(p) => p,
            None => {
                return Err(ConSertError::Construction { source: ConstructionError::MissingPath });
            },
        };
        Ok(
            Consert {
                demands: self.demands,
                checksum: "NOT-TRACED-TO-A-XML-MODEL".to_owned(),
                evidence: self.evidence,
                guarantees: self.guarantees,
                provided_services: self.provided_services,
                required_services: self.required_services,
                name,
                path,
            },
        )
    }
}


/// Relies on `str::to_lowercase`: the result depends on the characters
/// alone.
pub uninterp spec fn lower_of(s: Seq<char>) -> Seq<char>;

/// Relies on `str::to_lowercase` for the lower-case form of a string.
#[verifier::external_body]
fn lowercase(s: &str) -> (r: String)
    ensures
        r@ == lower_of(s@),
{
    s.to_lowercase()
}

/// Relies on `std::path::Path::file_stem` for the file name of a path
/// without its extension; what it finds depends on the platform's path
/// syntax, so nothing is stated of it.
#[verifier::external_body]
fn file_stem(path: &str) -> (r: Option<String>) {
    match std::path::Path::new(path).file_stem() {
        Some(s) => Some(s.to_string_lossy().into_owned()),
        None => None,
    }
}

/// Every `-` replaced by `_`.
pub open spec fn dashes_to_underscores(s: Seq<char>) -> Seq<char> {
    Seq::new(s.len(), |i: int| if s[i] == '-' { '_' } else { s[i] })
}

impl Consert {
    /// The contract name for a file stem: dashes become underscores, then
    /// all is lower case.
    pub fn name_from_stem(stem: &str) -> (r: String)
        ensures
            r@ == lower_of(dashes_to_underscores(stem@)),
    {
        let n = stem.unicode_len();
        let mut s = String::new();
        let mut i: usize = 0;
        while i < n
            invariant
                n == stem@.len(),
                i <= n,
                s@ == dashes_to_underscores(stem@).subrange(0, i as int),
            decreases n - i,
        {
            let c = stem.get_char(i);
            let part = if c == '-' {
                "_"
            } else {
                stem.substring_char(i, i + 1)
            };
            proof {
                reveal_strlit("_");
            }
            s.append(part);
            assert(s@ =~= dashes_to_underscores(stem@).subrange(0, i as int + 1));
            i = i + 1;
        }
        assert(s@ =~= dashes_to_underscores(stem@));
        lowercase(s.as_str())
    }

    /// The contract name for a model file: its file stem (see
    /// [`Consert::name_from_stem`]); a path without a file name is an error.
    pub fn path_to_name(path: &str) -> (r: Result<String, ConSertError>)
        ensures
            r matches Ok(n) ==> exists|stem: Seq<char>| n@ == lower_of(dashes_to_underscores(stem)),
            r matches Err(e) ==> e matches ConSertError::Parsing {
                source: crate::error::ParsingError::InvalidPathFileStem,
            },
    {
        match file_stem(path) {
            Some(stem) => Ok(Consert::name_from_stem(stem.as_str())),
            None => Err(
                ConSertError::Parsing { source: crate::error::ParsingError::InvalidPathFileStem },
            ),
        }
    }
}

} // verus!
