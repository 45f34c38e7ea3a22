//! The interpreter: an environment whose root frame holds the built-in
//! functions, and the records that workflows run over.

use vstd::prelude::*;
use crate::ast::{
    MatchAction, model, Phase,
    copy_function, keys_unique, lemma_entries_model, entries_model, Action, Builtin, Expr, FunctionDef,
    MatchRule, Program, Rule, Val, Value, ValueMap, Workflow,
};
use crate::context::VmContext;
use crate::environment::{lookup_spec, Environment};
use crate::eval::{eval, MAX_CALL_DEPTH};
use crate::models::{case_view, cases_view, copy_cases, CaseConfig};
use crate::ops::result_model;
use crate::order::lex_cmp;
use crate::workflow::{reorders, workflow_fails, workflow_runs, first_match, fails_from, runs_to, snapshot_model, traced, has_filter, score_bound, ActionEvaluator, ExprEvaluator, WorkflowEvaluator};

verus! {

/// The root frame: each built-in function under its name.
pub fn builtin_frame() -> (r: ValueMap)
    ensures
        r.wf(),
        entries_model(r.entries@, r.entries@.len() as nat) == seq![
            ("len"@, Val::Builtin(Builtin::Len)),
            ("max"@, Val::Builtin(Builtin::Max)),
            ("min"@, Val::Builtin(Builtin::Min)),
            ("contains"@, Val::Builtin(Builtin::Contains)),
        ],
{
    let mut entries: Vec<(String, Value)> = Vec::new();
    entries.push(("len".to_owned(), Value::BuiltinFunction(Builtin::Len)));
    entries.push(("max".to_owned(), Value::BuiltinFunction(Builtin::Max)));
    entries.push(("min".to_owned(), Value::BuiltinFunction(Builtin::Min)));
    entries.push(("contains".to_owned(), Value::BuiltinFunction(Builtin::Contains)));
    proof {
        reveal_strlit("len");
        reveal_strlit("max");
        reveal_strlit("min");
        reveal_strlit("contains");
        let m = entries@;
        assert(m[0].0@[0] != m[1].0@[0]);
        assert(m[1].0@[1] != m[2].0@[1]);
        assert(m[0].0@.len() != m[3].0@.len());
        assert(m[1].0@.len() != m[3].0@.len());
        assert(m[2].0@.len() != m[3].0@.len());
        assert(m[0].0@[0] != m[2].0@[0]);
        assert(keys_unique(m));
        lemma_entries_model(m, m.len() as nat);
    }
    let r = ValueMap { entries };
    assert(entries_model(r.entries@, r.entries@.len() as nat) =~= seq![
        ("len"@, Val::Builtin(Builtin::Len)),
        ("max"@, Val::Builtin(Builtin::Max)),
        ("min"@, Val::Builtin(Builtin::Min)),
        ("contains"@, Val::Builtin(Builtin::Contains)),
    ]);
    r
}

/// The names in `v` are strictly increasing, so each appears once.
pub open spec fn strictly_sorted(v: Seq<String>) -> bool {
    forall|i: int, j: int| 0 <= i < j < v.len() ==> lex_cmp(v[i]@, v[j]@) < 0
}

pub open spec fn is_function(v: Value) -> bool {
    v is BuiltinFunction || v is UserFunction
}

/// The characters of each name in `v`.
pub open spec fn view_set(v: Seq<String>) -> Set<Seq<char>> {
    Set::new(|k: Seq<char>| exists|i: int| 0 <= i < v.len() && (#[trigger] v[i])@ == k)
}

/// Adds `name` to a strictly sorted list, unless it is there already.
fn insert_sorted(names: &mut Vec<String>, name: &String)
    requires
        strictly_sorted(old(names)@),
    ensures
        strictly_sorted(final(names)@),
        view_set(final(names)@) == view_set(old(names)@).insert(name@),
{
    let mut j: usize = 0;
    let mut found = false;
    while j < names.len() && !found
        invariant
            j <= names@.len(),
            names@ == old(names)@,
            strictly_sorted(names@),
            forall|i: int| 0 <= i < j ==> lex_cmp(#[trigger] names@[i]@, name@) < 0,
            found ==> j < names@.len() && lex_cmp(names@[j as int]@, name@) > 0,
        decreases names@.len() - j + (if found { 0int } else { 1int }),
    {
        let c = crate::order::lex_compare(names[j].as_str(), name.as_str());
        if c == 0 {
            proof {
                lemma_lex_zero(names@[j as int]@, name@);
                assert(view_set(names@).contains(names@[j as int]@));
                assert(view_set(names@) =~= view_set(names@).insert(name@));
            }
            return;
        }
        if c > 0 {
            found = true;
        } else {
            j = j + 1;
        }
    }
    let ghost before = names@;
    proof {
        if found {
            crate::order::lemma_lex_antisym(before[j as int]@, name@);
            assert forall|m: int| j <= m < before.len() implies lex_cmp(name@, #[trigger] before[m]@) < 0 by {
                if m > j {
                    lemma_lex_trans(name@, before[j as int]@, before[m]@);
                }
            };
        }
    }
    names.insert(j, name.clone());
    proof {
        let after = names@;
        assert(after =~= before.insert(j as int, after[j as int]));
        assert forall|a: int, b: int| 0 <= a < b < after.len() implies lex_cmp(after[a]@, after[b]@) < 0 by {
            if a < j && b == j {
            } else if a < j && b > j {
                assert(lex_cmp(name@, before[b - 1]@) < 0);
                lemma_lex_trans(before[a]@, name@, before[b - 1]@);
            } else if a == j && b > j {
                assert(lex_cmp(name@, before[b - 1]@) < 0);
            } else if a > j {
                assert(after[a] == before[a - 1] && after[b] == before[b - 1]);
            }
        };
        assert forall|k: Seq<char>| view_set(after).contains(k) <==> #[trigger] view_set(before).insert(name@).contains(k) by {
            if view_set(after).contains(k) {
                let i = choose|i: int| 0 <= i < after.len() && (#[trigger] after[i])@ == k;
                if i < j {
                    assert(before[i]@ == k);
                } else if i > j {
                    assert(before[i - 1]@ == k);
                }
            }
            if view_set(before).contains(k) {
                let i = choose|i: int| 0 <= i < before.len() && (#[trigger] before[i])@ == k;
                if i < j {
                    assert(after[i]@ == k);
                } else {
                    assert(after[i + 1]@ == k);
                }
            }
            if k == name@ {
                assert(after[j as int]@ == k);
            }
        };
        assert(view_set(after) =~= view_set(before).insert(name@));
    }
}

pub proof fn lemma_lex_zero(a: Seq<char>, b: Seq<char>)
    requires
        lex_cmp(a, b) == 0,
    ensures
        a == b,
    decreases a.len(),
{
    if a.len() > 0 && b.len() > 0 {
        lemma_lex_zero(a.subrange(1, a.len() as int), b.subrange(1, b.len() as int));
        assert(a =~= seq![a[0]] + a.subrange(1, a.len() as int));
        assert(b =~= seq![b[0]] + b.subrange(1, b.len() as int));
        assert(a[0] == b[0]);
    } else {
        assert(a =~= b);
    }
}

pub proof fn lemma_lex_trans(a: Seq<char>, b: Seq<char>, c: Seq<char>)
    requires
        lex_cmp(a, b) < 0,
        lex_cmp(b, c) < 0,
    ensures
        lex_cmp(a, c) < 0,
    decreases a.len(),
{
    if a.len() > 0 && b.len() > 0 && c.len() > 0 && a[0] == b[0] && b[0] == c[0] {
        lemma_lex_trans(a.subrange(1, a.len() as int), b.subrange(1, b.len() as int), c.subrange(1, c.len() as int));
    }
}

/// Whether entry `e` of a frame passes the filter.
pub open spec fn passes(entry: (String, Value), user_only: bool, any: bool) -> bool {
    any || (if user_only { entry.1 is UserFunction } else { is_function(entry.1) })
}

/// Names of the entries among the first `e` of `frame` that pass the filter.
pub open spec fn frame_names(frame: ValueMap, e: int, user_only: bool, any: bool) -> Set<Seq<char>> {
    Set::new(|k: Seq<char>| exists|x: int| 0 <= x < e && (#[trigger] frame.entries@[x]).0@ == k
        && passes(frame.entries@[x], user_only, any))
}

/// Names of the entries of the first `f` frames that pass the filter.
pub open spec fn frames_names(frames: Seq<ValueMap>, f: int, user_only: bool, any: bool) -> Set<Seq<char>> {
    Set::new(|k: Seq<char>| exists|a: int, x: int| 0 <= a < f && 0 <= x < frames[a].entries@.len()
        && (#[trigger] frames[a].entries@[x]).0@ == k && passes(frames[a].entries@[x], user_only, any))
}

/// Names bound anywhere in `env` that the filter lets through, sorted, each once.
pub fn names_in(env: &Environment, user_only: bool, any: bool) -> (r: Vec<String>)
    ensures
        strictly_sorted(r@),
        view_set(r@) == frames_names(env.env@, env.env@.len() as int, user_only, any),
{
    let mut names: Vec<String> = Vec::new();
    let mut f: usize = 0;
    assert(view_set(names@) =~= frames_names(env.env@, 0, user_only, any));
    while f < env.env.len()
        invariant
            f <= env.env@.len(),
            strictly_sorted(names@),
            view_set(names@) == frames_names(env.env@, f as int, user_only, any),
        decreases env.env@.len() - f,
    {
        let frame = &env.env[f];
        let mut e: usize = 0;
        assert(frames_names(env.env@, f as int, user_only, any) =~= frames_names(env.env@, f as int, user_only, any).union(frame_names(*frame, 0, user_only, any)));
        while e < frame.entries.len()
            invariant
                f < env.env@.len(),
                *frame == env.env@[f as int],
                e <= frame.entries@.len(),
                strictly_sorted(names@),
                view_set(names@) == frames_names(env.env@, f as int, user_only, any).union(frame_names(*frame, e as int, user_only, any)),
            decreases frame.entries@.len() - e,
        {
            let keep = any || match &frame.entries[e].1 {
                Value::UserFunction(_) => true,
                Value::BuiltinFunction(_) => !user_only,
                _ => false,
            };
            let ghost before = frame_names(*frame, e as int, user_only, any);
            if keep {
                insert_sorted(&mut names, &frame.entries[e].0);
                assert(frame_names(*frame, e + 1, user_only, any) =~= before.insert(frame.entries@[e as int].0@));
            } else {
                assert(frame_names(*frame, e + 1, user_only, any) =~= before);
            }
            e = e + 1;
        }
        proof {
            let pre = frames_names(env.env@, f as int, user_only, any);
            let fr = frame_names(*frame, frame.entries@.len() as int, user_only, any);
            let post = frames_names(env.env@, f + 1, user_only, any);
            assert forall|k: Seq<char>| post.contains(k) <==> #[trigger] pre.union(fr).contains(k) by {
                if post.contains(k) {
                    let (a, x) = choose|a: int, x: int| 0 <= a < f + 1 && 0 <= x < env.env@[a].entries@.len()
                        && (#[trigger] env.env@[a].entries@[x]).0@ == k && passes(env.env@[a].entries@[x], user_only, any);
                    if a == f {
                        assert(frame.entries@[x].0@ == k);
                    }
                }
                if pre.contains(k) {
                    let (a, x) = choose|a: int, x: int| 0 <= a < f && 0 <= x < env.env@[a].entries@.len()
                        && (#[trigger] env.env@[a].entries@[x]).0@ == k && passes(env.env@[a].entries@[x], user_only, any);
                    assert(env.env@[a].entries@[x].0@ == k);
                }
                if fr.contains(k) {
                    let x = choose|x: int| 0 <= x < frame.entries@.len() && (#[trigger] frame.entries@[x]).0@ == k
                        && passes(frame.entries@[x], user_only, any);
                    assert(env.env@[f as int].entries@[x].0@ == k);
                }
            };
            assert(post =~= pre.union(fr));
        }
        f = f + 1;
    }
    names
}

/// Running `phases` over records that look like `cases` above `env` gives
/// `out` and leaves the environment as `last`.
pub open spec fn ran(env: Seq<ValueMap>, phases: Seq<Phase>, cases: Seq<CaseConfig>, out: Seq<CaseConfig>, last: Seq<ValueMap>) -> bool {
    exists|cs: Seq<CaseConfig>| cases_view(cs) == cases_view(cases) && #[trigger] workflow_runs(env, phases, cs, out, last)
}

/// Running `phases` over records that look like `cases` above `env` fails with `m`.
pub open spec fn failed(env: Seq<ValueMap>, phases: Seq<Phase>, cases: Seq<CaseConfig>, m: Seq<char>) -> bool {
    exists|cs: Seq<CaseConfig>| cases_view(cs) == cases_view(cases) && #[trigger] workflow_fails(env, phases, cs, m)
}

/// Workflows `0..k` of `ws` run in order: workflow `j` takes the engine state
/// `states[j]` (frames, records) to `states[j + 1]`.
pub open spec fn runs_in_order(states: Seq<(Seq<ValueMap>, Seq<CaseConfig>)>, ws: Seq<Workflow>, k: int) -> bool {
    &&& states.len() == k + 1
    &&& forall|j: int| 0 <= j < k ==> ran((#[trigger] states[j]).0, ws[j].phases@, states[j].1, states[j + 1].1, states[j + 1].0)
}

/// The interpreter.
pub struct CoreVM {
    pub context: VmContext,
}

impl CoreVM {
    pub open spec fn wf(&self) -> bool {
        self.context.wf() && self.context.env.env@.len() > 0
    }

    /// No records; one frame, holding the built-in functions.
    pub fn new() -> (r: CoreVM)
        ensures
            r.wf(),
            r.context.stack.cases@.len() == 0,
            r.context.stack.agent is None,
            r.context.env.env@.len() == 1,
            entries_model(r.context.env.env@[0].entries@, r.context.env.env@[0].entries@.len() as nat) == seq![
                ("len"@, Val::Builtin(Builtin::Len)),
                ("max"@, Val::Builtin(Builtin::Max)),
                ("min"@, Val::Builtin(Builtin::Min)),
                ("contains"@, Val::Builtin(Builtin::Contains)),
            ],
    {
        let mut context = VmContext::default();
        context.env.env.push(builtin_frame());
        CoreVM { context }
    }

    /// The records as they stand.
    pub fn run(&mut self) -> (r: Result<Vec<CaseConfig>, String>)
        ensures
            *final(self) == *old(self),
            r is Ok && cases_view(r->Ok_0@) == cases_view(old(self).context.stack.cases@),
    {
        Ok(copy_cases(&self.context.stack.cases))
    }

    /// Runs `workflow` over the records; on failure they stay as they were.
    pub fn execute_workflow(&mut self, workflow: &Workflow) -> (r: Result<(), String>)
        requires
            old(self).wf(),
        ensures
            final(self).wf(),
            final(self).context.env.env@.len() == old(self).context.env.env@.len(),
            r is Err ==> final(self).context.stack.cases == old(self).context.stack.cases,
            r is Ok && !has_filter(workflow.phases@) ==> final(self).context.stack.cases@.len() == old(self).context.stack.cases@.len()
                && reorders(final(self).context.stack.cases@, old(self).context.stack.cases@),
            r is Ok ==> ran(old(self).context.env.env@, workflow.phases@, old(self).context.stack.cases@,
                final(self).context.stack.cases@, final(self).context.env.env@),
            r is Err ==> failed(old(self).context.env.env@, workflow.phases@, old(self).context.stack.cases@, r->Err_0@),
    {
        let cases = copy_cases(&self.context.stack.cases);
        let ghost cs = cases@;
        assert(cases_view(cases@).len() == cases@.len() && cases_view(self.context.stack.cases@).len() == self.context.stack.cases@.len());
        let out = match WorkflowEvaluator::execute_workflow(&mut self.context, workflow, cases) {
            Ok(out) => out,
            Err(m) => {
                assert(failed(old(self).context.env.env@, workflow.phases@, old(self).context.stack.cases@, m@));
                return Err(m);
            },
        };
        assert(ran(old(self).context.env.env@, workflow.phases@, old(self).context.stack.cases@, out@, self.context.env.env@));
        proof {
            if !has_filter(workflow.phases@) {
                crate::workflow::lemma_reorders_views(out@, cs, old(self).context.stack.cases@);
            }
        }
        self.context.stack.cases = out;
        Ok(())
    }

    pub fn setup_case_context(&mut self, case: &CaseConfig) -> (r: Result<(), String>)
        requires
            old(self).wf(),
        ensures
            r is Ok,
            final(self).wf(),
            final(self).context.env.env@.drop_last() == old(self).context.env.env@,
            score_bound(final(self).context.env, case.score),
    {
        WorkflowEvaluator::setup_case_context(&mut self.context, case)
    }

    pub fn execute_score_phase(&mut self, rules: &[Rule], case: &mut CaseConfig) -> (r: Result<(), String>)
        requires
            old(self).wf(),
        ensures
            final(self).wf(),
            final(self).context.env.env@.len() == old(self).context.env.env@.len(),
            final(self).context.stack == old(self).context.stack,
            score_bound(old(self).context.env, old(case).score) && !crate::workflow::rebinds_score(rules@)
                ==> score_bound(final(self).context.env, final(case).score)
                && final(self).context.env.env@.drop_last() == old(self).context.env.env@.drop_last(),
            r is Ok && traced(old(self).context.env.env@, rules@, *old(case))
                ==> runs_to(old(self).context.env.env@.drop_last(), rules@, 0, case_view(*old(case)), final(case).score),
            r is Err && traced(old(self).context.env.env@, rules@, *old(case))
                ==> fails_from(old(self).context.env.env@.drop_last(), rules@, 0, case_view(*old(case))),
    {
        WorkflowEvaluator::execute_score_phase(&mut self.context, rules, case)
    }

    pub fn execute_match_phase(&mut self, rules: &[MatchRule], case: &mut CaseConfig) -> (r: Result<(), String>)
        requires
            old(self).wf(),
        ensures
            final(self).wf(),
            *final(case) == *old(case),
            final(self).context.stack == old(self).context.stack,
            final(self).context.env.env@.len() == old(self).context.env.env@.len(),
            match first_match(old(self).context.env.env@, rules@, 0) {
                Err(m) => r is Err && r->Err_0@ == m && final(self).context.env == old(self).context.env,
                Ok(None) => r is Ok && final(self).context.env == old(self).context.env,
                Ok(Some(i)) => r is Ok && (old(self).context.env.env@.len() > 0 ==> ({
                    let name = match rules@[i as int].action { MatchAction::AssignTo(n) => n };
                    &&& final(self).context.env.env@.drop_last() == old(self).context.env.env@.drop_last()
                    &&& final(self).context.env.env@.last().spec_get(name@) matches Some(v)
                    &&& model(v) == Val::Dict(snapshot_model(case_view(*old(case))))
                })),
            },
    {
        WorkflowEvaluator::execute_match_phase(&mut self.context, rules, case)
    }

    pub fn execute_action(&mut self, action: &Action, case: &mut CaseConfig) -> (r: Result<(), String>)
        requires
            old(self).wf(),
        ensures
            final(self).wf(),
            final(self).context.env.env@.len() == old(self).context.env.env@.len(),
            match *action {
                Action::AssignScore(e) => match eval(old(self).context.env.env@, Seq::empty(), e, MAX_CALL_DEPTH as nat) {
                    Ok(Val::Number(n)) => r is Ok && final(case).score == n
                        && lookup_spec(final(self).context.env.env@, "score"@) == Some(Value::Number(n)),
                    Ok(_) => r is Err && final(case).score == old(case).score,
                    Err(m) => r is Err && r->Err_0@ == m && final(case).score == old(case).score,
                },
                Action::Log(_) => r is Ok && *final(case) == *old(case) && final(self).context.env == old(self).context.env,
                Action::Assign(_) => r is Ok && *final(case) == *old(case),
            },
    {
        ActionEvaluator::execute_action(&mut self.context, action, case)
    }

    /// Evaluates `expr` in the interpreter's environment.
    pub fn evaluate_expr(&mut self, expr: &Expr) -> (r: Result<Value, String>)
        requires
            old(self).wf(),
        ensures
            *final(self) == *old(self),
            result_model(r) == eval(old(self).context.env.env@, Seq::empty(), *expr, MAX_CALL_DEPTH as nat),
    {
        ExprEvaluator::evaluate_expr(&mut self.context, expr)
    }

    /// Binds the function under its name in the innermost frame.
    pub fn register_function(&mut self, function: FunctionDef)
        requires
            old(self).wf(),
        ensures
            final(self).wf(),
            final(self).context.stack == old(self).context.stack,
            final(self).context.env.env@.len() == old(self).context.env.env@.len(),
            final(self).context.env.env@.drop_last() == old(self).context.env.env@.drop_last(),
            final(self).context.env.env@.last().spec_get(function.name@) == Some(Value::UserFunction(function)),
    {
        let name = function.name.clone();
        let ghost ng = name;
        let ghost f = function;
        let ghost before = self.context.env.env@;
        self.context.env.insert(name, Value::UserFunction(function));
        proof {
            let last = before.len() - 1;
            assert(self.context.env.env@[last].wf());
            crate::environment::lemma_insert_get(before[last].entries@, ng, Value::UserFunction(f));
        }
    }

    pub fn register_functions(&mut self, functions: Vec<FunctionDef>)
        requires
            old(self).wf(),
        ensures
            final(self).wf(),
            final(self).context.stack == old(self).context.stack,
            final(self).context.env.env@.len() == old(self).context.env.env@.len(),
            final(self).context.env.env@.drop_last() == old(self).context.env.env@.drop_last(),
    {
        let mut fs = functions;
        while fs.len() > 0
            invariant
                self.wf(),
                self.context.stack == old(self).context.stack,
                self.context.env.env@.len() == old(self).context.env.env@.len(),
                self.context.env.env@.drop_last() == old(self).context.env.env@.drop_last(),
            decreases fs@.len(),
        {
            let f = fs.remove(0);
            self.register_function(f);
        }
    }

    /// Registers the program's functions, then runs its workflows in order,
    /// stopping at the first that fails.
    pub fn execute_program(&mut self, program: &Program) -> (r: Result<(), String>)
        requires
            old(self).wf(),
        ensures
            final(self).wf(),
            final(self).context.env.env@.len() == old(self).context.env.env@.len(),
            r is Ok ==> exists|states: Seq<(Seq<ValueMap>, Seq<CaseConfig>)>| #[trigger] runs_in_order(states, program.workflows@, program.workflows@.len() as int)
                && states[0].0.drop_last() == old(self).context.env.env@.drop_last()
                && states[0].0.len() == old(self).context.env.env@.len()
                && states[0].1 == old(self).context.stack.cases@
                && states.last() == (final(self).context.env.env@, final(self).context.stack.cases@),
            r is Err ==> exists|states: Seq<(Seq<ValueMap>, Seq<CaseConfig>)>, k: int| 0 <= k < program.workflows@.len()
                && #[trigger] runs_in_order(states, program.workflows@, k)
                && states[0].0.drop_last() == old(self).context.env.env@.drop_last()
                && states[0].1 == old(self).context.stack.cases@
                && failed(states[k].0, program.workflows@[k].phases@, states[k].1, r->Err_0@)
                && final(self).context.stack.cases@ == states[k].1,
    {
        let mut fs: Vec<FunctionDef> = Vec::new();
        let mut i: usize = 0;
        while i < program.functions.len()
            invariant
                i <= program.functions@.len(),
            decreases program.functions@.len() - i,
        {
            fs.push(copy_function(&program.functions[i]));
            i = i + 1;
        }
        self.register_functions(fs);
        let ghost states0 = seq![(self.context.env.env@, self.context.stack.cases@)];
        let ghost mut states = states0;
        let mut w: usize = 0;
        while w < program.workflows.len()
            invariant
                w <= program.workflows@.len(),
                self.wf(),
                self.context.env.env@.len() == old(self).context.env.env@.len(),
                runs_in_order(states, program.workflows@, w as int),
                states[0] == states0[0],
                states0[0].0.drop_last() == old(self).context.env.env@.drop_last(),
                states0[0].0.len() == old(self).context.env.env@.len(),
                states0[0].1 == old(self).context.stack.cases@,
                states.last() == (self.context.env.env@, self.context.stack.cases@),
            decreases program.workflows@.len() - w,
        {
            match self.execute_workflow(&program.workflows[w]) {
                Ok(()) => {
                    proof {
                        let old_states = states;
                        states = states.push((self.context.env.env@, self.context.stack.cases@));
                        assert forall|j: int| 0 <= j < w + 1 implies
                            ran((#[trigger] states[j]).0, program.workflows@[j].phases@, states[j].1, states[j + 1].1, states[j + 1].0) by {
                            if j < w {
                                assert(states[j] == old_states[j] && states[j + 1] == old_states[j + 1]);
                            }
                        };
                    }
                },
                Err(m) => {
                    assert(runs_in_order(states, program.workflows@, w as int));
                    return Err(m);
                },
            }
            w = w + 1;
        }
        Ok(())
    }

    /// Names bound to a function, built-in or user-defined, sorted, each once.
    pub fn get_function_names(&self) -> (r: Vec<String>)
        ensures
            strictly_sorted(r@),
            view_set(r@) == frames_names(self.context.env.env@, self.context.env.env@.len() as int, false, false),
    {
        names_in(&self.context.env, false, false)
    }

    /// Names bound to a user-defined function, sorted, each once.
    pub fn get_user_function_names(&self) -> (r: Vec<String>)
        ensures
            strictly_sorted(r@),
            view_set(r@) == frames_names(self.context.env.env@, self.context.env.env@.len() as int, true, false),
    {
        names_in(&self.context.env, true, false)
    }

    pub fn add_case(&mut self, case: CaseConfig)
        ensures
            final(self).context.stack.cases@ == old(self).context.stack.cases@.push(case),
            final(self).context.env == old(self).context.env,
    {
        self.context.stack.push_case(case);
    }

    pub fn get_cases(&self) -> (r: &[CaseConfig])
        ensures
            r@ == self.context.stack.cases@,
    {
        self.context.stack.cases.as_slice()
    }

    pub fn clear_cases(&mut self)
        ensures
            final(self).context.stack.cases@.len() == 0,
            final(self).context.env == old(self).context.env,
    {
        self.context.stack.cases.clear();
    }
}

/// The evaluation interface of an interpreter.
pub trait CoreEval {
    fn evaluate_expr(&mut self, expr: &Expr) -> Result<Value, String>;

    fn execute_workflow(&mut self, workflow: &Workflow) -> Result<(), String>;
}

pub const MSG_BAD_ENV: &'static str = "Environment has no scope or binds a name twice in one scope";

impl CoreEval for CoreVM {
    fn evaluate_expr(&mut self, expr: &Expr) -> Result<Value, String> {
        if self.context.env.env.len() == 0 || !self.context.env.check_wf() {
            return Err(MSG_BAD_ENV.to_owned());
        }
        CoreVM::evaluate_expr(self, expr)
    }

    fn execute_workflow(&mut self, workflow: &Workflow) -> Result<(), String> {
        if self.context.env.env.len() == 0 || !self.context.env.check_wf() {
            return Err(MSG_BAD_ENV.to_owned());
        }
        CoreVM::execute_workflow(self, workflow)
    }
}

} // verus!
