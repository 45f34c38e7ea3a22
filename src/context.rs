//! The state a workflow runs against: the records and the environment.

use vstd::prelude::*;
use crate::environment::Environment;
use crate::models::{AgentConfig, CaseConfig};

verus! {

/// The records waiting for or coming out of a run, and the agent, if any.
#[derive(Debug)]
pub struct VmStack {
    pub agent: Option<AgentConfig>,
    pub cases: Vec<CaseConfig>,
}

impl VmStack {
    pub fn new(agent: Option<AgentConfig>, cases: Vec<CaseConfig>) -> (r: VmStack)
        ensures
            r.agent == agent,
            r.cases == cases,
    {
        VmStack { agent, cases }
    }

    pub fn set_agent(&mut self, agent: AgentConfig)
        ensures
            final(self).agent == Some(agent),
            final(self).cases == old(self).cases,
    {
        self.agent = Some(agent);
    }

    pub fn push_case(&mut self, case: CaseConfig)
        ensures
            final(self).cases@ == old(self).cases@.push(case),
            final(self).agent == old(self).agent,
    {
        self.cases.push(case);
    }

    pub fn pop_case(&mut self) -> (r: Option<CaseConfig>)
        ensures
            old(self).cases@.len() == 0 ==> r is None && final(self).cases@ == old(self).cases@,
            old(self).cases@.len() > 0 ==> r == Some(old(self).cases@.last())
                && final(self).cases@ == old(self).cases@.drop_last(),
            final(self).agent == old(self).agent,
    {
        self.cases.pop()
    }

    pub fn peek_case(&self) -> (r: Option<&CaseConfig>)
        ensures
            self.cases@.len() == 0 ==> r is None,
            self.cases@.len() > 0 ==> r == Some(&self.cases@.last()),
    {
        if self.cases.len() == 0 {
            None
        } else {
            Some(&self.cases[self.cases.len() - 1])
        }
    }

    pub fn is_empty(&self) -> (r: bool)
        ensures
            r == (self.cases@.len() == 0),
    {
        self.cases.len() == 0
    }

    pub fn len(&self) -> (r: usize)
        ensures
            r == self.cases@.len(),
    {
        self.cases.len()
    }
}

/// The records and the environment of one interpreter.
pub struct VmContext {
    pub stack: VmStack,
    pub env: Environment,
}

impl VmContext {
    pub open spec fn wf(&self) -> bool {
        self.env.wf()
    }

    pub fn new(stack: VmStack, env: Environment) -> (r: VmContext)
        ensures
            r.stack == stack,
            r.env == env,
    {
        VmContext { stack, env }
    }

    /// No records, no agent, and an environment without frames.
    pub fn default() -> (r: VmContext)
        ensures
            r.wf(),
            r.stack.cases@.len() == 0,
            r.stack.agent is None,
            r.env.env@.len() == 0,
    {
        VmContext { stack: VmStack { agent: None, cases: Vec::new() }, env: Environment { env: Vec::new() } }
    }

    pub fn stack(&self) -> (r: &VmStack)
        ensures
            *r == self.stack,
    {
        &self.stack
    }

    pub fn stack_mut(&mut self) -> (r: &mut VmStack)
        ensures
            *r == old(self).stack,
            final(self).stack == *final(r),
            final(self).env == old(self).env,
    {
        &mut self.stack
    }

    pub fn env(&self) -> (r: &Environment)
        ensures
            *r == self.env,
    {
        &self.env
    }

    pub fn env_mut(&mut self) -> (r: &mut Environment)
        ensures
            *r == old(self).env,
            final(self).env == *final(r),
            final(self).stack == old(self).stack,
    {
        &mut self.env
    }

    /// Puts `new_stack` in place and hands back the one it replaces.
    pub fn replace_stack(&mut self, new_stack: VmStack) -> (r: VmStack)
        ensures
            r == old(self).stack,
            final(self).stack == new_stack,
            final(self).env == old(self).env,
    {
        let mut s = new_stack;
        core::mem::swap(&mut self.stack, &mut s);
        s
    }

    /// Puts `new_env` in place and hands back the one it replaces.
    pub fn replace_env(&mut self, new_env: Environment) -> (r: Environment)
        ensures
            r == old(self).env,
            final(self).env == new_env,
            final(self).stack == old(self).stack,
    {
        let mut e = new_env;
        core::mem::swap(&mut self.env, &mut e);
        e
    }
}

} // verus!
