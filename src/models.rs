//! The records that workflows run over, and the agent that may look at them.

use vstd::prelude::*;

verus! {

/// A support case.
#[derive(Debug)]
pub struct CaseConfig {
    pub id: i32,
    pub category: String,
    pub status: String,
    pub priority: i32,
    pub customer: Option<String>,
    pub score: i64,
}

/// A record as the language sees it: its fields, strings by their characters.
pub struct CaseView {
    pub id: i32,
    pub category: Seq<char>,
    pub status: Seq<char>,
    pub priority: i32,
    pub customer: Option<Seq<char>>,
    pub score: i64,
}

pub open spec fn case_view(c: CaseConfig) -> CaseView {
    CaseView {
        id: c.id,
        category: c.category@,
        status: c.status@,
        priority: c.priority,
        customer: match c.customer {
            Some(s) => Some(s@),
            None => None,
        },
        score: c.score,
    }
}

pub open spec fn cases_view(v: Seq<CaseConfig>) -> Seq<CaseView> {
    Seq::new(v.len(), |i: int| case_view(v[i]))
}

/// A copy with the same fields.
pub fn copy_case(c: &CaseConfig) -> (r: CaseConfig)
    ensures
        case_view(r) == case_view(*c),
{
    let customer = match &c.customer {
        Some(s) => Some(s.clone()),
        None => None,
    };
    CaseConfig {
        id: c.id,
        category: c.category.clone(),
        status: c.status.clone(),
        priority: c.priority,
        customer,
        score: c.score,
    }
}

/// Copies of every case, in order.
pub fn copy_cases(v: &Vec<CaseConfig>) -> (r: Vec<CaseConfig>)
    ensures
        cases_view(r@) == cases_view(v@),
{
    let mut r: Vec<CaseConfig> = Vec::new();
    let mut i: usize = 0;
    while i < v.len()
        invariant
            i <= v.len(),
            r@.len() == i,
            forall|j: int| 0 <= j < i ==> case_view(r@[j]) == case_view(v@[j]),
        decreases v.len() - i,
    {
        r.push(copy_case(&v[i]));
        i = i + 1;
    }
    assert(cases_view(r@) =~= cases_view(v@));
    r
}

impl Clone for CaseConfig {
    fn clone(&self) -> Self {
        copy_case(self)
    }
}

#[derive(Debug)]
pub struct Skills {
    pub languages: Vec<String>,
    pub services: Vec<String>,
    pub platforms: Vec<String>,
}

#[derive(Debug)]
pub struct AgentConfig {
    pub id: String,
    pub skills: Skills,
    pub max_concurrent: u32,
}

/// The cases a run routed, and what its rules logged.
#[derive(Debug)]
pub struct WorkflowResult {
    pub routed: Vec<CaseConfig>,
    pub logs: Vec<String>,
}

} // verus!
