//! The engine a host embeds: records in, source text or syntax trees run
//! over them, bindings read and written.

use vstd::prelude::*;
use crate::ast::{copy_value, entries_model, model, Builtin, Expr, FunctionDef, Program, SortOrder, Val, Value, ValueMap, Workflow};
use crate::environment::{lookup_spec, same_text};
use crate::eval::{eval, MAX_CALL_DEPTH};
use crate::models::{case_view, cases_view, copy_case, copy_cases, CaseConfig};
use crate::ops::result_model;
use crate::lexer::parse_error_text;
use crate::parser::{expr_model, expression_of, functions_model, parse_expression, parse_program, program_of, workflows_model};
use crate::vm::{failed, ran, runs_in_order, frames_names, names_in, strictly_sorted, view_set, CoreVM};
use crate::order::{is_permutation, sorted_by, stable_order};
use crate::workflow::{has_filter, reorders};

verus! {

pub const MSG_NO_WORKFLOWS: &'static str = "No workflows found in source";
pub const MSG_MANY_WORKFLOWS: &'static str =
    "Multiple workflows found. Use execute_workflows_from_source() or specify which workflow to execute.";

/// Which records a query keeps.
pub enum Criterion {
    ScoreAbove(i64),
    ScoreBelow(i64),
    Category(String),
    Status(String),
}

pub open spec fn meets(c: CaseConfig, k: Criterion) -> bool {
    match k {
        Criterion::ScoreAbove(t) => c.score > t,
        Criterion::ScoreBelow(t) => c.score < t,
        Criterion::Category(s) => c.category@ == s@,
        Criterion::Status(s) => c.status@ == s@,
    }
}

/// `out` is exactly the records of `cases` that meet `k`, in their order.
pub open spec fn selects(out: Seq<&CaseConfig>, cases: Seq<CaseConfig>, k: Criterion) -> bool {
    exists|idx: Seq<int>| {
        &&& idx.len() == out.len()
        &&& forall|a: int| 0 <= a < idx.len() ==> 0 <= #[trigger] idx[a] < cases.len() && *out[a] == cases[idx[a]]
        &&& forall|a: int, b: int| 0 <= a < b < idx.len() ==> idx[a] < idx[b]
        &&& forall|j: int| 0 <= j < cases.len() ==> (meets(#[trigger] cases[j], k) <==> exists|a: int| 0 <= a < idx.len() && idx[a] == j)
    }
}

fn meets_exec(c: &CaseConfig, k: &Criterion) -> (r: bool)
    ensures
        r == meets(*c, *k),
{
    match k {
        Criterion::ScoreAbove(t) => c.score > *t,
        Criterion::ScoreBelow(t) => c.score < *t,
        Criterion::Category(s) => same_text(c.category.as_str(), s.as_str()),
        Criterion::Status(s) => same_text(c.status.as_str(), s.as_str()),
    }
}

/// The records of `cases` that meet `k`, in order.
pub fn select<'a>(cases: &'a Vec<CaseConfig>, k: &Criterion) -> (r: Vec<&'a CaseConfig>)
    ensures
        selects(r@, cases@, *k),
{
    let mut r: Vec<&'a CaseConfig> = Vec::new();
    let ghost mut idx: Seq<int> = Seq::empty();
    let mut i: usize = 0;
    while i < cases.len()
        invariant
            i <= cases@.len(),
            idx.len() == r@.len(),
            forall|a: int| 0 <= a < idx.len() ==> 0 <= #[trigger] idx[a] < i && *r@[a] == cases@[idx[a]],
            forall|a: int, b: int| 0 <= a < b < idx.len() ==> idx[a] < idx[b],
            forall|j: int| 0 <= j < i ==> (meets(#[trigger] cases@[j], *k) <==> exists|a: int| 0 <= a < idx.len() && idx[a] == j),
        decreases cases@.len() - i,
    {
        if meets_exec(&cases[i], k) {
            r.push(&cases[i]);
            proof {
                let old_idx = idx;
                idx = idx.push(i as int);
                assert forall|j: int| 0 <= j < i + 1 implies (meets(#[trigger] cases@[j], *k) <==> exists|a: int| 0 <= a < idx.len() && idx[a] == j) by {
                    if j == i {
                        assert(idx[idx.len() - 1] == j);
                    } else if exists|a: int| 0 <= a < old_idx.len() && old_idx[a] == j {
                        let a = choose|a: int| 0 <= a < old_idx.len() && old_idx[a] == j;
                        assert(idx[a] == j);
                    }
                };
            }
        } else {
            proof {
                assert forall|j: int| 0 <= j < i + 1 implies (meets(#[trigger] cases@[j], *k) <==> exists|a: int| 0 <= a < idx.len() && idx[a] == j) by {
                    if j == i {
                        assert forall|a: int| 0 <= a < idx.len() implies idx[a] != j by {};
                    }
                };
            }
        }
        i = i + 1;
    }
    r
}

/// Running a program from `frames` and `cases`: its functions are registered
/// in the innermost frame (the others are kept), then its workflows run in
/// order, each from where the previous one left the engine; the run ends
/// with `last_frames` and `last_cases`.
pub open spec fn program_ran(frames: Seq<ValueMap>, cases: Seq<CaseConfig>, ws: Seq<Workflow>, last_frames: Seq<ValueMap>, last_cases: Seq<CaseConfig>) -> bool {
    exists|states: Seq<(Seq<ValueMap>, Seq<CaseConfig>)>| #[trigger] runs_in_order(states, ws, ws.len() as int)
        && states[0].0.drop_last() == frames.drop_last() && states[0].0.len() == frames.len()
        && states[0].1 == cases && states.last() == (last_frames, last_cases)
}

/// Running a program as in `program_ran`, some workflow fails with `m`
/// after the ones before it ran, and the records are as it left them.
pub open spec fn program_failed(frames: Seq<ValueMap>, cases: Seq<CaseConfig>, ws: Seq<Workflow>, m: Seq<char>, last_cases: Seq<CaseConfig>) -> bool {
    exists|states: Seq<(Seq<ValueMap>, Seq<CaseConfig>)>, k: int| 0 <= k < ws.len()
        && #[trigger] runs_in_order(states, ws, k)
        && states[0].0.drop_last() == frames.drop_last() && states[0].1 == cases
        && failed(states[k].0, ws[k].phases@, states[k].1, m) && last_cases == states[k].1
}

/// Numbers as sort keys.
pub open spec fn number_keys(keys: Seq<i64>) -> Seq<Val> {
    Seq::new(keys.len(), |j: int| Val::Number(keys[j]))
}

/// The engine.
pub struct CoreEngine {
    vm: CoreVM,
}

impl CoreEngine {
    /// The environment is well formed and keeps its root frame.
    pub closed spec fn wf(&self) -> bool {
        self.vm.wf()
    }

    /// The records, in order.
    pub closed spec fn cases_of(&self) -> Seq<CaseConfig> {
        self.vm.context.stack.cases@
    }

    /// The frames of the environment, innermost last.
    pub closed spec fn frames_of(&self) -> Seq<ValueMap> {
        self.vm.context.env.env@
    }

    /// No records; a root frame with the built-in functions and an empty
    /// frame above it for the host's bindings.
    pub fn new() -> (r: CoreEngine)
        ensures
            r.wf(),
            r.cases_of().len() == 0,
            r.frames_of().len() == 2,
            entries_model(r.frames_of()[0].entries@, r.frames_of()[0].entries@.len() as nat) == seq![
                ("len"@, Val::Builtin(Builtin::Len)),
                ("max"@, Val::Builtin(Builtin::Max)),
                ("min"@, Val::Builtin(Builtin::Min)),
                ("contains"@, Val::Builtin(Builtin::Contains)),
            ],
            r.frames_of()[1].entries@.len() == 0,
    {
        let mut vm = CoreVM::new();
        let ghost root = vm.context.env.env@;
        vm.context.env.enter_scope();
        assert(vm.context.env.env@[0] == root[0]);
        CoreEngine { vm }
    }

    /// The workflows of `source`; an error when it does not parse or holds none.
    pub fn parse_workflow(&self, source: &str) -> (r: Result<Vec<Workflow>, String>)
        ensures
            match r {
                Ok(ws) => program_of(source@) matches Some((_, wm)) && wm.len() > 0 && workflows_model(ws@) == wm,
                Err(_) => program_of(source@) matches Some((_, wm)) ==> wm.len() == 0,
            },
            (program_of(source@) is Some && program_of(source@)->Some_0.1.len() == 0) ==> r is Err && r->Err_0@ == MSG_NO_WORKFLOWS@,
            program_of(source@) is None ==> r is Err && parse_error_text(r->Err_0@),
    {
        let program = parse_program(source)?;
        assert(workflows_model(program.workflows@).len() == program.workflows@.len());
        if program.workflows.len() == 0 {
            Err(MSG_NO_WORKFLOWS.to_owned())
        } else {
            Ok(program.workflows)
        }
    }

    pub fn add_case(&mut self, case: CaseConfig)
        requires
            old(self).wf(),
        ensures
            final(self).wf(),
            final(self).cases_of() == old(self).cases_of().push(case),
            final(self).frames_of() == old(self).frames_of(),
    {
        self.vm.add_case(case);
    }

    pub fn add_cases(&mut self, cases: Vec<CaseConfig>)
        requires
            old(self).wf(),
        ensures
            final(self).wf(),
            final(self).cases_of() == old(self).cases_of() + cases@,
            final(self).frames_of() == old(self).frames_of(),
    {
        let mut rest = cases;
        let ghost all = rest@;
        let ghost mut i: int = 0;
        while rest.len() > 0
            invariant
                0 <= i <= all.len(),
                i + rest@.len() == all.len(),
                self.wf(),
                rest@ == all.subrange(i as int, all.len() as int),
                self.cases_of() == old(self).cases_of() + all.subrange(0, i as int),
                self.frames_of() == old(self).frames_of(),
            decreases rest@.len(),
        {
            let c = rest.remove(0);
            self.vm.add_case(c);
            assert(all.subrange(0, i + 1) =~= all.subrange(0, i as int).push(c));
            assert(rest@ =~= all.subrange(i + 1, all.len() as int));
            proof { i = i + 1; }
        }
        assert(all.subrange(0, i as int) =~= all);
    }

    /// Runs `workflow` over the records; on failure they stay as they were.
    pub fn execute_workflow(&mut self, workflow: &Workflow) -> (r: Result<(), String>)
        requires
            old(self).wf(),
        ensures
            final(self).wf(),
            final(self).frames_of().len() == old(self).frames_of().len(),
            r is Err ==> final(self).cases_of() == old(self).cases_of(),
            r is Ok && !has_filter(workflow.phases@) ==> final(self).cases_of().len() == old(self).cases_of().len()
                && reorders(final(self).cases_of(), old(self).cases_of()),
            r is Ok ==> ran(old(self).frames_of(), workflow.phases@, old(self).cases_of(), final(self).cases_of(), final(self).frames_of()),
            r is Err ==> failed(old(self).frames_of(), workflow.phases@, old(self).cases_of(), r->Err_0@),
    {
        self.vm.execute_workflow(workflow)
    }

    /// Parses `source`, which must hold exactly one workflow, and runs it.
    pub fn execute_workflow_from_source(&mut self, source: &str) -> (r: Result<(), String>)
        requires
            old(self).wf(),
        ensures
            final(self).wf(),
            final(self).frames_of().len() == old(self).frames_of().len(),
            r is Err ==> final(self).cases_of() == old(self).cases_of(),
            !(program_of(source@) matches Some((_, wm)) && wm.len() == 1) ==> r is Err,
            !(program_of(source@) matches Some((_, wm)) && wm.len() > 0) ==> final(self).frames_of() == old(self).frames_of(),
            (program_of(source@) is Some && program_of(source@)->Some_0.1.len() > 1)
                ==> r is Err && r->Err_0@ == MSG_MANY_WORKFLOWS@ && *final(self) == *old(self),
            r is Ok ==> exists|w: Workflow| #[trigger] workflows_model(seq![w]) == program_of(source@)->Some_0.1
                && ran(old(self).frames_of(), w.phases@, old(self).cases_of(), final(self).cases_of(), final(self).frames_of()),
            (r is Err && program_of(source@) is Some && program_of(source@)->Some_0.1.len() == 1)
                ==> exists|w: Workflow| #[trigger] workflows_model(seq![w]) == program_of(source@)->Some_0.1
                && failed(old(self).frames_of(), w.phases@, old(self).cases_of(), r->Err_0@),
    {
        let workflows = match self.parse_workflow(source) {
            Ok(ws) => ws,
            Err(e) => return Err(e),
        };
        assert(workflows_model(workflows@).len() == workflows@.len());
        if workflows.len() > 1 {
            return Err(MSG_MANY_WORKFLOWS.to_owned());
        }
        assert(program_of(source@)->Some_0.1.len() == 1);
        assert(workflows@ =~= seq![workflows@[0]]);
        self.execute_workflow(&workflows[0])
    }

    /// Runs the workflows in order, stopping at the first that fails.
    pub fn execute_workflows(&mut self, workflows: &[Workflow]) -> (r: Result<(), String>)
        requires
            old(self).wf(),
        ensures
            final(self).wf(),
            final(self).frames_of().len() == old(self).frames_of().len(),
            workflows@.len() == 0 ==> r is Ok && *final(self) == *old(self),
            r is Ok ==> exists|states: Seq<(Seq<ValueMap>, Seq<CaseConfig>)>| #[trigger] runs_in_order(states, workflows@, workflows@.len() as int)
                && states[0] == (old(self).frames_of(), old(self).cases_of())
                && states.last() == (final(self).frames_of(), final(self).cases_of()),
            r is Err ==> exists|states: Seq<(Seq<ValueMap>, Seq<CaseConfig>)>, k: int| 0 <= k < workflows@.len()
                && #[trigger] runs_in_order(states, workflows@, k)
                && states[0] == (old(self).frames_of(), old(self).cases_of())
                && failed(states[k].0, workflows@[k].phases@, states[k].1, r->Err_0@)
                && final(self).cases_of() == states[k].1,
    {
        let mut i: usize = 0;
        let ghost mut states: Seq<(Seq<ValueMap>, Seq<CaseConfig>)> = seq![(self.frames_of(), self.cases_of())];
        while i < workflows.len()
            invariant
                i <= workflows@.len(),
                self.wf(),
                self.frames_of().len() == old(self).frames_of().len(),
                i == 0 ==> *self == *old(self),
                runs_in_order(states, workflows@, i as int),
                states[0] == (old(self).frames_of(), old(self).cases_of()),
                states.last() == (self.frames_of(), self.cases_of()),
            decreases workflows@.len() - i,
        {
            let ghost before = (self.frames_of(), self.cases_of());
            match self.execute_workflow(&workflows[i]) {
                Ok(()) => {
                    proof {
                        let old_states = states;
                        states = states.push((self.frames_of(), self.cases_of()));
                        assert forall|j: int| 0 <= j < i + 1 implies
                            ran((#[trigger] states[j]).0, workflows@[j].phases@, states[j].1, states[j + 1].1, states[j + 1].0) by {
                            if j < i {
                                assert(states[j] == old_states[j] && states[j + 1] == old_states[j + 1]);
                            }
                        };
                    }
                },
                Err(m) => {
                    assert(runs_in_order(states, workflows@, i as int));
                    return Err(m);
                },
            }
            i = i + 1;
        }
        Ok(())
    }

    pub fn execute_workflows_from_source(&mut self, source: &str) -> (r: Result<(), String>)
        requires
            old(self).wf(),
        ensures
            final(self).wf(),
            final(self).frames_of().len() == old(self).frames_of().len(),
            !(program_of(source@) matches Some((_, wm)) && wm.len() > 0) ==> r is Err,
            r is Ok ==> exists|ws: Seq<Workflow>, states: Seq<(Seq<ValueMap>, Seq<CaseConfig>)>|
                workflows_model(ws) == program_of(source@)->Some_0.1
                && #[trigger] runs_in_order(states, ws, ws.len() as int)
                && states[0] == (old(self).frames_of(), old(self).cases_of())
                && states.last() == (final(self).frames_of(), final(self).cases_of()),
    {
        let workflows = match self.parse_workflow(source) {
            Ok(ws) => ws,
            Err(e) => return Err(e),
        };
        assert(workflows_model(workflows@).len() == workflows@.len());
        assert(program_of(source@)->Some_0.1.len() > 0);
        self.execute_workflows(workflows.as_slice())
    }

    pub fn parse_program(&self, source: &str) -> (r: Result<Program, String>)
        ensures
            match r {
                Ok(prog) => program_of(source@) == Some((functions_model(prog.functions@), workflows_model(prog.workflows@))),
                Err(_) => program_of(source@) is None,
            },
            r is Err ==> parse_error_text(r->Err_0@),
    {
        parse_program(source)
    }

    /// Registers the program's functions, then runs its workflows in order.
    pub fn execute_program(&mut self, program: &Program) -> (r: Result<(), String>)
        requires
            old(self).wf(),
        ensures
            final(self).wf(),
            final(self).frames_of().len() == old(self).frames_of().len(),
            r is Ok ==> program_ran(old(self).frames_of(), old(self).cases_of(), program.workflows@, final(self).frames_of(), final(self).cases_of()),
            r is Err ==> program_failed(old(self).frames_of(), old(self).cases_of(), program.workflows@, r->Err_0@, final(self).cases_of()),
    {
        self.vm.execute_program(program)
    }

    pub fn execute_program_from_source(&mut self, source: &str) -> (r: Result<(), String>)
        requires
            old(self).wf(),
        ensures
            final(self).wf(),
            final(self).frames_of().len() == old(self).frames_of().len(),
            program_of(source@) is None ==> r is Err && final(self).cases_of() == old(self).cases_of(),
            r is Ok ==> exists|p: Program| #[trigger] workflows_model(p.workflows@) == program_of(source@)->Some_0.1
                && functions_model(p.functions@) == program_of(source@)->Some_0.0
                && program_ran(old(self).frames_of(), old(self).cases_of(), p.workflows@, final(self).frames_of(), final(self).cases_of()),
            (r is Err && program_of(source@) is Some) ==> exists|p: Program| #[trigger] workflows_model(p.workflows@) == program_of(source@)->Some_0.1
                && functions_model(p.functions@) == program_of(source@)->Some_0.0
                && program_failed(old(self).frames_of(), old(self).cases_of(), p.workflows@, r->Err_0@, final(self).cases_of()),
    {
        let program = parse_program(source)?;
        self.execute_program(&program)
    }

    /// Binds the function under its name in the innermost frame.
    pub fn register_function(&mut self, function: FunctionDef)
        requires
            old(self).wf(),
        ensures
            final(self).wf(),
            final(self).cases_of() == old(self).cases_of(),
            final(self).frames_of().len() == old(self).frames_of().len(),
            final(self).frames_of().drop_last() == old(self).frames_of().drop_last(),
            final(self).frames_of().last().spec_get(function.name@) == Some(Value::UserFunction(function)),
    {
        self.vm.register_function(function);
    }

    pub fn register_functions(&mut self, functions: Vec<FunctionDef>)
        requires
            old(self).wf(),
        ensures
            final(self).wf(),
            final(self).cases_of() == old(self).cases_of(),
            final(self).frames_of().len() == old(self).frames_of().len(),
            final(self).frames_of().drop_last() == old(self).frames_of().drop_last(),
    {
        self.vm.register_functions(functions);
    }

    /// Names bound to user-defined functions, sorted, each once.
    pub fn get_user_function_names(&self) -> (r: Vec<String>)
        requires
            self.wf(),
        ensures
            strictly_sorted(r@),
            view_set(r@) == frames_names(self.frames_of(), self.frames_of().len() as int, true, false),
    {
        self.vm.get_user_function_names()
    }

    pub fn get_cases(&self) -> (r: &[CaseConfig])
        requires
            self.wf(),
        ensures
            r@ == self.cases_of(),
    {
        self.vm.get_cases()
    }

    pub fn get_cases_copy(&self) -> (r: Vec<CaseConfig>)
        requires
            self.wf(),
        ensures
            cases_view(r@) == cases_view(self.cases_of()),
    {
        copy_cases(&self.vm.context.stack.cases)
    }

    pub fn clear_cases(&mut self)
        requires
            old(self).wf(),
        ensures
            final(self).wf(),
            final(self).cases_of().len() == 0,
            final(self).frames_of() == old(self).frames_of(),
    {
        self.vm.clear_cases();
    }

    pub fn case_count(&self) -> (r: usize)
        requires
            self.wf(),
        ensures
            r == self.cases_of().len(),
    {
        self.vm.context.stack.cases.len()
    }

    pub fn has_cases(&self) -> (r: bool)
        requires
            self.wf(),
        ensures
            r == (self.cases_of().len() > 0),
    {
        self.vm.context.stack.cases.len() > 0
    }

    /// Evaluates `expr` against the engine's bindings.
    pub fn evaluate_expression(&mut self, expr: &Expr) -> (r: Result<Value, String>)
        requires
            old(self).wf(),
        ensures
            final(self).wf(),
            final(self).frames_of() == old(self).frames_of(),
            final(self).cases_of() == old(self).cases_of(),
            result_model(r) == eval(old(self).frames_of(), Seq::empty(), *expr, MAX_CALL_DEPTH as nat),
    {
        self.vm.evaluate_expr(expr)
    }

    /// Parses `expr_str` as one expression and evaluates it.
    pub fn evaluate_expression_from_string(&mut self, expr_str: &str) -> (r: Result<Value, String>)
        requires
            old(self).wf(),
        ensures
            final(self).wf(),
            final(self).frames_of() == old(self).frames_of(),
            final(self).cases_of() == old(self).cases_of(),
            expression_of(expr_str@) is None ==> r is Err,
            expression_of(expr_str@) matches Some(em) ==> exists|e: Expr| #[trigger] expr_model(e) == em
                && result_model(r) == eval(old(self).frames_of(), Seq::empty(), e, MAX_CALL_DEPTH as nat),
    {
        let expr = parse_expression(expr_str)?;
        self.evaluate_expression(&expr)
    }

    /// A copy of the innermost binding of `name`.
    pub fn get_variable(&self, name: &str) -> (r: Option<Value>)
        requires
            self.wf(),
        ensures
            match r {
                Some(v) => lookup_spec(self.frames_of(), name@) matches Some(w) && model(v) == model(w),
                None => lookup_spec(self.frames_of(), name@) is None,
            },
    {
        match self.vm.context.env.lookup(name) {
            Some(v) => Some(copy_value(v)),
            None => None,
        }
    }

    /// Binds `name` in the innermost frame.
    pub fn set_variable(&mut self, name: &str, value: Value)
        requires
            old(self).wf(),
        ensures
            final(self).wf(),
            final(self).cases_of() == old(self).cases_of(),
            final(self).frames_of().len() == old(self).frames_of().len(),
            final(self).frames_of().drop_last() == old(self).frames_of().drop_last(),
            final(self).frames_of().last().spec_get(name@) == Some(value),
            forall|k2: Seq<char>| k2 != name@
                ==> #[trigger] final(self).frames_of().last().spec_get(k2) == old(self).frames_of().last().spec_get(k2),
    {
        let key = name.to_owned();
        let ghost kg = key;
        let ghost before = self.vm.context.env.env@;
        self.vm.context.env.insert(key, value);
        proof {
            let last = before.len() - 1;
            assert(self.vm.context.env.env@[last].wf());
            crate::environment::lemma_insert_get(before[last].entries@, kg, value);
            assert forall|k2: Seq<char>| k2 != name@
                implies #[trigger] self.vm.context.env.env@.last().spec_get(k2) == before.last().spec_get(k2) by {
                crate::environment::lemma_insert_other(before[last].entries@, kg, value, k2);
            };
        }
    }

    /// Every bound name, sorted, each once.
    pub fn get_variable_names(&self) -> (r: Vec<String>)
        requires
            self.wf(),
        ensures
            strictly_sorted(r@),
            view_set(r@) == frames_names(self.frames_of(), self.frames_of().len() as int, false, true),
    {
        names_in(&self.vm.context.env, false, true)
    }

    pub fn enter_scope(&mut self)
        requires
            old(self).wf(),
        ensures
            final(self).wf(),
            final(self).cases_of() == old(self).cases_of(),
            final(self).frames_of().drop_last() == old(self).frames_of(),
            final(self).frames_of().last().entries@.len() == 0,
    {
        self.vm.context.env.enter_scope();
    }

    /// Drops the innermost frame; the root frame, which holds the built-in
    /// functions, is never dropped.
    pub fn exit_scope(&mut self)
        requires
            old(self).wf(),
        ensures
            final(self).wf(),
            final(self).cases_of() == old(self).cases_of(),
            old(self).frames_of().len() > 1 ==> final(self).frames_of() == old(self).frames_of().drop_last(),
            old(self).frames_of().len() <= 1 ==> final(self).frames_of() == old(self).frames_of(),
    {
        if self.vm.context.env.env.len() > 1 {
            self.vm.context.env.exit_scope();
        }
    }

    /// No records, and the bindings that `new` gives.
    pub fn reset(&mut self)
        requires
            old(self).wf(),
        ensures
            final(self).wf(),
            final(self).cases_of().len() == 0,
            final(self).frames_of().len() == 2,
            entries_model(final(self).frames_of()[0].entries@, final(self).frames_of()[0].entries@.len() as nat) == seq![
                ("len"@, Val::Builtin(Builtin::Len)),
                ("max"@, Val::Builtin(Builtin::Max)),
                ("min"@, Val::Builtin(Builtin::Min)),
                ("contains"@, Val::Builtin(Builtin::Contains)),
            ],
            final(self).frames_of()[1].entries@.len() == 0,
    {
        *self = CoreEngine::new();
    }

    /// Sets each record's score to what `scoring_fn` gives for it.
    pub fn score_cases<F: Fn(&CaseConfig) -> i64>(&mut self, scoring_fn: F) -> (r: Result<(), String>)
        requires
            old(self).wf(),
            forall|c: &CaseConfig| #[trigger] scoring_fn.requires((c,)),
        ensures
            final(self).wf(),
            r is Ok,
            final(self).frames_of() == old(self).frames_of(),
            final(self).cases_of().len() == old(self).cases_of().len(),
            forall|i: int| 0 <= i < old(self).cases_of().len() ==> {
                let c0 = case_view(#[trigger] old(self).cases_of()[i]);
                let c1 = case_view(final(self).cases_of()[i]);
                &&& scoring_fn.ensures((&old(self).cases_of()[i],), c1.score)
                &&& c1.id == c0.id && c1.category == c0.category && c1.status == c0.status
                &&& c1.priority == c0.priority && c1.customer == c0.customer
            },
    {
        let mut out: Vec<CaseConfig> = Vec::new();
        let mut i: usize = 0;
        while i < self.vm.context.stack.cases.len()
            invariant
                i <= self.cases_of().len(),
                *self == *old(self),
                out@.len() == i,
                forall|c: &CaseConfig| #[trigger] scoring_fn.requires((c,)),
                forall|j: int| 0 <= j < i ==> {
                    let c0 = case_view(#[trigger] old(self).cases_of()[j]);
                    let c1 = case_view(out@[j]);
                    &&& scoring_fn.ensures((&old(self).cases_of()[j],), c1.score)
                    &&& c1.id == c0.id && c1.category == c0.category && c1.status == c0.status
                    &&& c1.priority == c0.priority && c1.customer == c0.customer
                },
            decreases self.cases_of().len() - i,
        {
            let s = scoring_fn(&self.vm.context.stack.cases[i]);
            let mut c = copy_case(&self.vm.context.stack.cases[i]);
            c.score = s;
            out.push(c);
            i = i + 1;
        }
        self.vm.context.stack.cases = out;
        Ok(())
    }

    /// Keeps the records that `predicate` holds of, in their order.
    pub fn filter_cases<F: Fn(&CaseConfig) -> bool>(&mut self, predicate: F)
        requires
            old(self).wf(),
            forall|c: &CaseConfig| #[trigger] predicate.requires((c,)),
        ensures
            final(self).wf(),
            final(self).frames_of() == old(self).frames_of(),
            exists|idx: Seq<int>| {
                &&& #[trigger] idx.len() == final(self).cases_of().len()
                &&& forall|a: int| 0 <= a < idx.len() ==> 0 <= #[trigger] idx[a] < old(self).cases_of().len()
                    && case_view(final(self).cases_of()[a]) == case_view(old(self).cases_of()[idx[a]])
                    && predicate.ensures((&old(self).cases_of()[idx[a]],), true)
                &&& forall|a: int, b: int| 0 <= a < b < idx.len() ==> idx[a] < idx[b]
                &&& forall|j: int| 0 <= j < old(self).cases_of().len() && !idx.contains(j)
                    ==> predicate.ensures((&#[trigger] old(self).cases_of()[j],), false)
            },
    {
        let mut out: Vec<CaseConfig> = Vec::new();
        let ghost mut idx: Seq<int> = Seq::empty();
        let mut i: usize = 0;
        while i < self.vm.context.stack.cases.len()
            invariant
                i <= self.cases_of().len(),
                *self == *old(self),
                idx.len() == out@.len(),
                forall|c: &CaseConfig| #[trigger] predicate.requires((c,)),
                forall|a: int| 0 <= a < idx.len() ==> 0 <= #[trigger] idx[a] < i
                    && case_view(out@[a]) == case_view(old(self).cases_of()[idx[a]])
                    && predicate.ensures((&old(self).cases_of()[idx[a]],), true),
                forall|a: int, b: int| 0 <= a < b < idx.len() ==> idx[a] < idx[b],
                forall|j: int| 0 <= j < i && !idx.contains(j) ==> predicate.ensures((&#[trigger] old(self).cases_of()[j],), false),
            decreases self.cases_of().len() - i,
        {
            let keep = predicate(&self.vm.context.stack.cases[i]);
            let ghost old_idx = idx;
            if keep {
                out.push(copy_case(&self.vm.context.stack.cases[i]));
                proof { idx = idx.push(i as int); }
            }
            proof {
                assert forall|j: int| 0 <= j < i + 1 && !idx.contains(j)
                    implies predicate.ensures((&#[trigger] old(self).cases_of()[j],), false) by {
                    if j < i {
                        if old_idx.contains(j) {
                            let a = choose|a: int| 0 <= a < old_idx.len() && old_idx[a] == j;
                            assert(idx[a] == j);
                        }
                    } else if keep {
                        assert(idx[idx.len() - 1] == j);
                    }
                };
            }
            i = i + 1;
        }
        self.vm.context.stack.cases = out;
    }

    /// Sorts the records by the number `key_fn` gives for each, smallest
    /// first; records with equal keys keep their order.
    pub fn sort_cases_by<F: Fn(&CaseConfig) -> i64>(&mut self, key_fn: F)
        requires
            old(self).wf(),
            forall|c: &CaseConfig| #[trigger] key_fn.requires((c,)),
        ensures
            final(self).wf(),
            final(self).frames_of() == old(self).frames_of(),
            final(self).cases_of().len() == old(self).cases_of().len(),
            exists|keys: Seq<i64>, perm: Seq<int>| {
                &&& keys.len() == old(self).cases_of().len()
                &&& forall|j: int| 0 <= j < keys.len() ==> key_fn.ensures((&old(self).cases_of()[j],), #[trigger] keys[j])
                &&& is_permutation(perm, old(self).cases_of().len() as nat)
                &&& #[trigger] sorted_by(number_keys(keys), perm, SortOrder::Asc)
                &&& forall|k: int| 0 <= k < perm.len() ==> case_view(#[trigger] final(self).cases_of()[k]) == case_view(old(self).cases_of()[perm[k]])
            },
    {
        let n = self.vm.context.stack.cases.len();
        let mut keys: Vec<i64> = Vec::new();
        let mut i: usize = 0;
        while i < n
            invariant
                n == self.cases_of().len(),
                *self == *old(self),
                i <= n,
                keys@.len() == i,
                forall|c: &CaseConfig| #[trigger] key_fn.requires((c,)),
                forall|j: int| 0 <= j < i ==> key_fn.ensures((&old(self).cases_of()[j],), #[trigger] keys@[j]),
            decreases n - i,
        {
            let k = key_fn(&self.vm.context.stack.cases[i]);
            keys.push(k);
            i = i + 1;
        }
        let ghost ks = keys@;
        self.reorder(&keys, SortOrder::Asc);
    }

    /// Reorders the records stably by the numbers `nums`, one per record.
    fn reorder(&mut self, nums: &Vec<i64>, order: SortOrder)
        requires
            old(self).wf(),
            nums@.len() == old(self).cases_of().len(),
        ensures
            final(self).wf(),
            final(self).frames_of() == old(self).frames_of(),
            final(self).cases_of().len() == old(self).cases_of().len(),
            exists|perm: Seq<int>| {
                &&& #[trigger] is_permutation(perm, old(self).cases_of().len() as nat)
                &&& sorted_by(number_keys(nums@), perm, order)
                &&& forall|k: int| 0 <= k < perm.len() ==> case_view(#[trigger] final(self).cases_of()[k]) == case_view(old(self).cases_of()[perm[k]])
            },
    {
        let n = nums.len();
        let mut keys: Vec<Value> = Vec::new();
        let mut i: usize = 0;
        while i < n
            invariant
                n == nums@.len(),
                i <= n,
                keys@.len() == i,
                forall|j: int| 0 <= j < i ==> #[trigger] keys@[j] == Value::Number(nums@[j]),
            decreases n - i,
        {
            keys.push(Value::Number(nums[i]));
            i = i + 1;
        }
        let perm = stable_order(&keys, order);
        let ghost p = Seq::new(perm@.len(), |j: int| perm@[j] as int);
        let ghost km = Seq::new(keys.len() as nat, |j: int| model(keys@[j]));
        assert(km =~= number_keys(nums@));
        let mut out: Vec<CaseConfig> = Vec::new();
        let mut j: usize = 0;
        while j < perm.len()
            invariant
                j <= perm@.len(),
                perm@.len() == n,
                n == self.cases_of().len(),
                *self == *old(self),
                p == Seq::new(perm@.len(), |j: int| perm@[j] as int),
                is_permutation(p, n as nat),
                out@.len() == j,
                forall|a: int| 0 <= a < j ==> case_view(#[trigger] out@[a]) == case_view(old(self).cases_of()[p[a]]),
            decreases perm@.len() - j,
        {
            assert(p[j as int] == perm@[j as int] as int);
            out.push(copy_case(&self.vm.context.stack.cases[perm[j]]));
            j = j + 1;
        }
        self.vm.context.stack.cases = out;
    }

    fn sort_by_score(&mut self, order: SortOrder)
        requires
            old(self).wf(),
        ensures
            final(self).wf(),
            final(self).frames_of() == old(self).frames_of(),
            final(self).cases_of().len() == old(self).cases_of().len(),
            exists|perm: Seq<int>| {
                let keys = Seq::new(old(self).cases_of().len(), |j: int| Val::Number(old(self).cases_of()[j].score));
                &&& #[trigger] is_permutation(perm, old(self).cases_of().len() as nat)
                &&& sorted_by(keys, perm, order)
                &&& forall|k: int| 0 <= k < perm.len() ==> case_view(#[trigger] final(self).cases_of()[k]) == case_view(old(self).cases_of()[perm[k]])
            },
    {
        let n = self.vm.context.stack.cases.len();
        let mut nums: Vec<i64> = Vec::new();
        let mut i: usize = 0;
        while i < n
            invariant
                n == self.cases_of().len(),
                *self == *old(self),
                i <= n,
                nums@.len() == i,
                forall|j: int| 0 <= j < i ==> #[trigger] nums@[j] == old(self).cases_of()[j].score,
            decreases n - i,
        {
            nums.push(self.vm.context.stack.cases[i].score);
            i = i + 1;
        }
        assert(number_keys(nums@)
            =~= Seq::new(old(self).cases_of().len(), |j: int| Val::Number(old(self).cases_of()[j].score)));
        self.reorder(&nums, order);
    }

    /// Sorts the records by score, highest first; equal scores keep their order.
    pub fn sort_cases_by_score_desc(&mut self)
        requires
            old(self).wf(),
        ensures
            final(self).wf(),
            final(self).frames_of() == old(self).frames_of(),
            final(self).cases_of().len() == old(self).cases_of().len(),
            exists|perm: Seq<int>| {
                let keys = Seq::new(old(self).cases_of().len(), |j: int| Val::Number(old(self).cases_of()[j].score));
                &&& #[trigger] is_permutation(perm, old(self).cases_of().len() as nat)
                &&& sorted_by(keys, perm, SortOrder::Desc)
                &&& forall|k: int| 0 <= k < perm.len() ==> case_view(#[trigger] final(self).cases_of()[k]) == case_view(old(self).cases_of()[perm[k]])
            },
    {
        self.sort_by_score(SortOrder::Desc)
    }

    /// Sorts the records by score, lowest first; equal scores keep their order.
    pub fn sort_cases_by_score_asc(&mut self)
        requires
            old(self).wf(),
        ensures
            final(self).wf(),
            final(self).frames_of() == old(self).frames_of(),
            final(self).cases_of().len() == old(self).cases_of().len(),
            exists|perm: Seq<int>| {
                let keys = Seq::new(old(self).cases_of().len(), |j: int| Val::Number(old(self).cases_of()[j].score));
                &&& #[trigger] is_permutation(perm, old(self).cases_of().len() as nat)
                &&& sorted_by(keys, perm, SortOrder::Asc)
                &&& forall|k: int| 0 <= k < perm.len() ==> case_view(#[trigger] final(self).cases_of()[k]) == case_view(old(self).cases_of()[perm[k]])
            },
    {
        self.sort_by_score(SortOrder::Asc)
    }

    pub fn get_high_score_cases(&self, threshold: i64) -> (r: Vec<&CaseConfig>)
        requires
            self.wf(),
        ensures
            selects(r@, self.cases_of(), Criterion::ScoreAbove(threshold)),
    {
        select(&self.vm.context.stack.cases, &Criterion::ScoreAbove(threshold))
    }

    pub fn get_low_score_cases(&self, threshold: i64) -> (r: Vec<&CaseConfig>)
        requires
            self.wf(),
        ensures
            selects(r@, self.cases_of(), Criterion::ScoreBelow(threshold)),
    {
        select(&self.vm.context.stack.cases, &Criterion::ScoreBelow(threshold))
    }

    pub fn get_cases_by_category(&self, category: &str) -> (r: Vec<&CaseConfig>)
        requires
            self.wf(),
        ensures
            exists|s: String| s@ == category@ && selects(r@, self.cases_of(), Criterion::Category(s)),
    {
        let k = Criterion::Category(category.to_owned());
        let r = select(&self.vm.context.stack.cases, &k);
        r
    }

    pub fn get_cases_by_status(&self, status: &str) -> (r: Vec<&CaseConfig>)
        requires
            self.wf(),
        ensures
            exists|s: String| s@ == status@ && selects(r@, self.cases_of(), Criterion::Status(s)),
    {
        let k = Criterion::Status(status.to_owned());
        let r = select(&self.vm.context.stack.cases, &k);
        r
    }

    /// Copies of the records as they stand.
    pub fn run(&mut self) -> (r: Result<Vec<CaseConfig>, String>)
        requires
            old(self).wf(),
        ensures
            final(self).wf(),
            final(self).cases_of() == old(self).cases_of(),
            final(self).frames_of() == old(self).frames_of(),
            r matches Ok(v) && cases_view(v@) == cases_view(old(self).cases_of()),
    {
        Ok(self.get_cases_copy())
    }
}

impl Default for CoreEngine {
    fn default() -> (r: CoreEngine)
        ensures
            r.wf(),
            r.cases_of().len() == 0,
            r.frames_of().len() == 2,
    {
        CoreEngine::new()
    }
}

} // verus!
