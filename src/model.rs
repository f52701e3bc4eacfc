//! Projects, their cases, and the registry that resolves project names.

use vstd::prelude::*;

verus! {

/// One possible outcome of a project: a relative sampling weight, the
/// follow-on projects it triggers, and its monthly series.
pub struct Casedata<N> {
    /// Relative sampling weight; weights need not sum to any fixed total.
    pub weight: u64,
    /// Names of the projects triggered when this case is the one drawn.
    pub outcome_projects: Vec<String>,
    pub gross_oil: Vec<N>,
    pub gross_gas: Vec<N>,
    pub monthly_capital: Vec<N>,
    pub monthly_operating_expenses: Vec<N>,
}

/// One development decision point with its economics and possible cases.
pub struct Project<N> {
    pub name: String,
    pub oil_shrink_factor: N,
    pub gas_shrink_factor: N,
    pub working_interest: N,
    pub net_revenue_interest: N,
    /// Combined effective tax rate applied to gross revenue.
    pub tax_rate: N,
    pub is_root: Option<bool>,
    pub outcomes: Vec<Casedata<N>>,
}

/// Monthly oil and gas unit prices over the evaluation horizon.
pub struct PriceDeck<N> {
    oil_price: Vec<N>,
    gas_price: Vec<N>,
}

/// Malformed project data.
#[derive(Debug, PartialEq, Eq)]
pub enum ModelError {
    /// Two projects carry this name.
    DuplicateName(String),
    /// The oil and gas price series differ in length.
    PriceLengthMismatch,
    /// A case of the named project has a monthly series whose length is not
    /// the horizon.
    SeriesLengthMismatch(String),
}

/// The view of a list of names as sequences of characters.
pub open spec fn names_view(v: Seq<String>) -> Seq<Seq<char>> {
    v.map_values(|s: String| s@)
}

/// Whether no two projects share a name.
pub open spec fn names_unique<N>(ps: Seq<Project<N>>) -> bool {
    forall|i: int, j: int|
        0 <= i < ps.len() && 0 <= j < ps.len() && i != j ==> ps[i].name@ != ps[j].name@
}

/// Whether some project carries the name `name`.
pub open spec fn has_name<N>(ps: Seq<Project<N>>, name: Seq<char>) -> bool {
    exists|i: int| 0 <= i < ps.len() && ps[i].name@ == name
}

/// Whether `k` is a valid index of the case sequence of project `p`.
pub open spec fn is_case<N>(ps: Seq<Project<N>>, p: int, k: int) -> bool {
    0 <= p < ps.len() && 0 <= k < ps[p].outcomes.len()
}

/// Whether every monthly series of the case has length `horizon`.
pub open spec fn case_spans<N>(c: Casedata<N>, horizon: nat) -> bool {
    &&& c.gross_oil.len() == horizon
    &&& c.gross_gas.len() == horizon
    &&& c.monthly_capital.len() == horizon
    &&& c.monthly_operating_expenses.len() == horizon
}

/// Whether every case of the project spans `horizon` months.
pub open spec fn project_spans<N>(p: Project<N>, horizon: nat) -> bool {
    forall|k: int| 0 <= k < p.outcomes.len() ==> case_spans(#[trigger] p.outcomes[k], horizon)
}

/// The registry of a project set: each name resolves to exactly one project.
pub struct ProjectList<N> {
    projects: Vec<Project<N>>,
}

impl<N> ProjectList<N> {
    /// The projects of the registry, in the order they were given.
    pub closed spec fn spec_projects(&self) -> Seq<Project<N>> {
        self.projects@
    }

    /// The registry holds no two projects of one name.
    pub open spec fn wf(&self) -> bool {
        names_unique(self.spec_projects())
    }

    pub fn projects(&self) -> (r: &Vec<Project<N>>)
        ensures
            r@ == self.spec_projects(),
    {
        &self.projects
    }

    pub fn len(&self) -> (r: usize)
        ensures
            r == self.spec_projects().len(),
    {
        self.projects.len()
    }

    /// The project at index `i`.
    pub fn get(&self, i: usize) -> (r: &Project<N>)
        requires
            i < self.spec_projects().len(),
        ensures
            *r == self.spec_projects()[i as int],
    {
        &self.projects[i]
    }

    /// The index of the project named `name`, if there is one.
    pub fn find(&self, name: &String) -> (r: Option<usize>)
        requires
            self.wf(),
        ensures
            r matches Some(i) ==> i < self.spec_projects().len()
                && self.spec_projects()[i as int].name@ == name@,
            r is None <==> !has_name(self.spec_projects(), name@),
    {
        let mut i: usize = 0;
        while i < self.projects.len()
            invariant
                i <= self.projects@.len(),
                forall|k: int| 0 <= k < i ==> self.projects@[k].name@ != name@,
            decreases self.projects@.len() - i,
        {
            if self.projects[i].name == *name {
                return Some(i);
            }
            i = i + 1;
        }
        None
    }
}

/// Builds the registry of a project set, refusing a set in which two
/// projects share a name.
pub fn project_list<N>(v: Vec<Project<N>>) -> (r: Result<ProjectList<N>, ModelError>)
    ensures
        r matches Ok(pl) ==> pl.wf() && pl.spec_projects() == v@,
        r is Ok <==> names_unique(v@),
        r matches Err(e) ==> (e matches ModelError::DuplicateName(n)
            && exists|i: int, j: int|
                0 <= i < j < v@.len() && v@[i].name@ == n@ && v@[j].name@ == n@),
{
    let mut j: usize = 0;
    while j < v.len()
        invariant
            j <= v@.len(),
            forall|a: int, b: int| 0 <= a < b < j ==> v@[a].name@ != v@[b].name@,
        decreases v@.len() - j,
    {
        let mut i: usize = 0;
        while i < j
            invariant
                i <= j < v@.len(),
                forall|a: int| 0 <= a < i ==> v@[a].name@ != v@[j as int].name@,
            decreases j - i,
        {
            if v[i].name == v[j].name {
                let n = v[j].name.clone();
                return Err(ModelError::DuplicateName(n));
            }
            i = i + 1;
        }
        j = j + 1;
    }
    Ok(ProjectList { projects: v })
}

impl<N> Casedata<N> {
    /// Checks that each monthly series spans `horizon` months.
    pub fn spans(&self, horizon: usize) -> (r: bool)
        ensures
            r == case_spans(*self, horizon as nat),
    {
        self.gross_oil.len() == horizon && self.gross_gas.len() == horizon
            && self.monthly_capital.len() == horizon
            && self.monthly_operating_expenses.len() == horizon
    }
}

impl<N> Project<N> {
    /// Checks that every case spans `horizon` months; the error names the
    /// project.
    pub fn check_horizon(&self, horizon: usize) -> (r: Result<(), ModelError>)
        ensures
            r is Ok <==> project_spans(*self, horizon as nat),
            r matches Err(e) ==> e == ModelError::SeriesLengthMismatch(self.name),
    {
        let mut k: usize = 0;
        while k < self.outcomes.len()
            invariant
                k <= self.outcomes@.len(),
                forall|a: int| 0 <= a < k ==> case_spans(#[trigger] self.outcomes@[a], horizon as nat),
            decreases self.outcomes@.len() - k,
        {
            if !self.outcomes[k].spans(horizon) {
                return Err(ModelError::SeriesLengthMismatch(self.name.clone()));
            }
            k = k + 1;
        }
        Ok(())
    }
}

impl<N> PriceDeck<N> {
    pub closed spec fn spec_oil_price(&self) -> Seq<N> {
        self.oil_price@
    }

    pub closed spec fn spec_gas_price(&self) -> Seq<N> {
        self.gas_price@
    }

    /// A price deck from monthly oil and gas prices of equal length.
    pub fn new(oil_price: Vec<N>, gas_price: Vec<N>) -> (r: Result<PriceDeck<N>, ModelError>)
        ensures
            r is Ok <==> oil_price@.len() == gas_price@.len(),
            r matches Ok(d) ==> d.spec_oil_price() == oil_price@ && d.spec_gas_price() == gas_price@,
            r matches Err(e) ==> e == ModelError::PriceLengthMismatch,
    {
        if oil_price.len() == gas_price.len() {
            Ok(PriceDeck { oil_price, gas_price })
        } else {
            Err(ModelError::PriceLengthMismatch)
        }
    }

    /// The number of months the deck spans.
    pub fn horizon(&self) -> (r: usize)
        ensures
            r == self.spec_oil_price().len(),
    {
        self.oil_price.len()
    }

    pub fn oil_price(&self) -> (r: &Vec<N>)
        ensures
            r@ == self.spec_oil_price(),
    {
        &self.oil_price
    }

    pub fn gas_price(&self) -> (r: &Vec<N>)
        ensures
            r@ == self.spec_gas_price(),
    {
        &self.gas_price
    }
}

} // verus!
