//! Running workflows: per-record scopes, actions and the four kinds of phase.

use vstd::prelude::*;
use crate::ast::{
    entries_model, find_key, keys_unique, lemma_entries_model, model, Action, Builtin, Expr, FilterRule,
    MatchAction, MatchRule, Phase, Rule, SortRule, Val, Value, ValueMap, Workflow,
};
use crate::context::VmContext;
use crate::environment::{lemma_insert_get, lemma_insert_other, lookup_spec, entries_insert, innermost_with, lemma_innermost_range, Environment};
use crate::eval::{eval, eval_expr, is_case_field, is_case_field_name, MAX_CALL_DEPTH};
use crate::models::{case_view, cases_view, copy_case, CaseConfig, CaseView};
use crate::ops::{is_truthy, result_model, truthy};
use crate::order::{is_permutation, sorted_by, stable_order};
use crate::text::{int_text, int_to_text};

verus! {

pub const MSG_SCORE_TYPE: &'static str = "Score must be a number";

/// Evaluates expressions against a context.
pub struct ExprEvaluator;

impl ExprEvaluator {
    /// Evaluates `expr` in the context's environment, with no local bindings.
    pub fn evaluate_expr(context: &mut VmContext, expr: &Expr) -> (r: Result<Value, String>)
        requires
            old(context).wf(),
        ensures
            *final(context) == *old(context),
            result_model(r) == eval(old(context).env.env@, Seq::empty(), *expr, MAX_CALL_DEPTH as nat),
    {
        let mut locals: Vec<(String, Value)> = Vec::new();
        proof { lemma_entries_model(locals@, 0); }
        assert(crate::eval::bindings(locals@) =~= Seq::<(Seq<char>, Val)>::empty());
        eval_expr(&context.env, &mut locals, expr, MAX_CALL_DEPTH)
    }

    pub fn is_truthy(value: &Value) -> (r: bool)
        ensures
            r == truthy(model(*value)),
    {
        is_truthy(value)
    }
}

/// The built-in functions and the names they are bound to.
pub struct BuiltinFunctions;

impl BuiltinFunctions {
    pub fn register_all() -> (r: Vec<(String, Builtin)>)
        ensures
            r@.len() == 4,
            r@[0].0@ == "len"@ && r@[0].1 == Builtin::Len,
            r@[1].0@ == "max"@ && r@[1].1 == Builtin::Max,
            r@[2].0@ == "min"@ && r@[2].1 == Builtin::Min,
            r@[3].0@ == "contains"@ && r@[3].1 == Builtin::Contains,
    {
        let mut r: Vec<(String, Builtin)> = Vec::new();
        r.push(("len".to_owned(), Builtin::Len));
        r.push(("max".to_owned(), Builtin::Max));
        r.push(("min".to_owned(), Builtin::Min));
        r.push(("contains".to_owned(), Builtin::Contains));
        r
    }
}


/// The innermost frame binds `score` to the record's score.
pub open spec fn score_bound(env: Environment, score: i64) -> bool {
    env.env@.len() > 0 && env.env@.last().spec_get("score"@) == Some(Value::Number(score))
}

/// The fields of a record snapshot, as `assign to` publishes it.
pub open spec fn snapshot_model(c: CaseView) -> Seq<(Seq<char>, Val)> {
    let base = seq![
        ("id"@, Val::Str(int_text(c.id as int))),
        ("category"@, Val::Str(c.category)),
        ("status"@, Val::Str(c.status)),
        ("priority"@, Val::Str(int_text(c.priority as int))),
        ("score"@, Val::Str(int_text(c.score as int))),
    ];
    match c.customer {
        Some(s) => base.push(("customer"@, Val::Str(s))),
        None => base,
    }
}

/// Which match rule fires first, from rule `i` on, in a fixed environment.
pub open spec fn first_match(env: Seq<crate::ast::ValueMap>, rules: Seq<MatchRule>, i: nat) -> Result<Option<nat>, Seq<char>>
    decreases rules.len() - i,
{
    if i >= rules.len() {
        Ok(None)
    } else {
        match eval(env, Seq::empty(), rules[i as int].condition, MAX_CALL_DEPTH as nat) {
            Err(m) => Err(m),
            Ok(c) => if truthy(c) { Ok(Some(i)) } else { first_match(env, rules, i + 1) },
        }
    }
}

/// The name a match rule binds.
pub open spec fn match_target(r: MatchRule) -> Seq<char> {
    match r.action {
        MatchAction::AssignTo(n) => n@,
    }
}

/// Matching record `c` against `rules` takes the environment `env` to `next`:
/// in a scope of the record, the first rule whose condition holds binds its
/// name, in the innermost frame of `env`, to a snapshot of the record; a name
/// that is one of the record's own fields is not published; when no rule
/// holds nothing changes.
pub open spec fn match_step(env: Seq<ValueMap>, rules: Seq<MatchRule>, c: CaseConfig, next: Seq<ValueMap>) -> bool {
    exists|f: ValueMap| #[trigger] record_scope(f, c) && match first_match(env.push(f), rules, 0) {
        Ok(None) => next == env,
        Ok(Some(i)) => {
            let name = match_target(rules[i as int]);
            if is_case_field(name) || env.len() == 0 {
                next == env
            } else {
                &&& next.len() == env.len()
                &&& next.drop_last() == env.drop_last()
                &&& next.last().spec_get(name) is Some
                &&& model(next.last().spec_get(name)->Some_0) == Val::Dict(snapshot_model(case_view(c)))
                &&& forall|k2: Seq<char>| k2 != name ==> #[trigger] next.last().spec_get(k2) == env.last().spec_get(k2)
            }
        },
        Err(_) => false,
    }
}

/// In a scope of record `c` above `env`, evaluating the match rules fails with `m`.
pub open spec fn match_fails(env: Seq<ValueMap>, rules: Seq<MatchRule>, c: CaseConfig, m: Seq<char>) -> bool {
    exists|f: ValueMap| #[trigger] record_scope(f, c) && first_match(env.push(f), rules, 0) == Err::<Option<nat>, Seq<char>>(m)
}

/// `envs[j + 1]` is what matching record `j` makes of `envs[j]`, for the first `k` records.
pub open spec fn match_chain(envs: Seq<Seq<ValueMap>>, rules: Seq<MatchRule>, cases: Seq<CaseConfig>, k: int) -> bool {
    &&& envs.len() == k + 1
    &&& forall|j: int| 0 <= j < k ==> match_step(#[trigger] envs[j], rules, cases[j], envs[j + 1])
}

/// Matching every record in turn takes `env` to `last`.
pub open spec fn matched_all(env: Seq<ValueMap>, rules: Seq<MatchRule>, cases: Seq<CaseConfig>, last: Seq<ValueMap>) -> bool {
    exists|envs: Seq<Seq<ValueMap>>| #[trigger] match_chain(envs, rules, cases, cases.len() as int)
        && envs[0] == env && envs.last() == last
}

/// Matching the records in turn fails first at some record with `m`.
pub open spec fn match_failed(env: Seq<ValueMap>, rules: Seq<MatchRule>, cases: Seq<CaseConfig>, m: Seq<char>) -> bool {
    exists|envs: Seq<Seq<ValueMap>>, k: int| 0 <= k < cases.len() && #[trigger] match_chain(envs, rules, cases, k)
        && envs[0] == env && match_fails(envs[k], rules, cases[k], m)
}

/// `out` is `cases` with only the scores possibly changed.
pub open spec fn same_but_score(out: Seq<CaseConfig>, cases: Seq<CaseConfig>) -> bool {
    out.len() == cases.len() && forall|k: int| 0 <= k < out.len() ==> ({
        let c0 = case_view(#[trigger] cases[k]);
        let c1 = case_view(out[k]);
        c1.id == c0.id && c1.category == c0.category && c1.status == c0.status
            && c1.priority == c0.priority && c1.customer == c0.customer
    })
}

/// `out` is what a score phase with `rules` makes of `cases` above `env`.
pub open spec fn score_out(env: Seq<ValueMap>, rules: Seq<Rule>, out: Seq<CaseConfig>, cases: Seq<CaseConfig>) -> bool {
    same_but_score(out, cases) && (!uses_assign(rules) ==> forall|k: int| 0 <= k < out.len()
        ==> runs_to(env, rules, 0, case_view(#[trigger] cases[k]), out[k].score))
}

/// Some record's score rules above `env` can fail.
pub open spec fn score_failed(env: Seq<ValueMap>, rules: Seq<Rule>, cases: Seq<CaseConfig>) -> bool {
    !uses_assign(rules) ==> exists|k: int| 0 <= k < cases.len() && fails_from(env, rules, 0, case_view(#[trigger] cases[k]))
}

/// `out` is `cases` stably sorted by the keys `rule` gives in each record's scope above `env`.
pub open spec fn sorted_out(env: Seq<ValueMap>, rule: SortRule, out: Seq<CaseConfig>, cases: Seq<CaseConfig>) -> bool {
    out.len() == cases.len() && exists|keys: Seq<Val>, perm: Seq<int>| {
        &&& keys.len() == cases.len()
        &&& #[trigger] is_permutation(perm, cases.len() as nat)
        &&& #[trigger] sorted_by(keys, perm, rule.order)
        &&& forall|k: int| 0 <= k < out.len() ==> case_view(#[trigger] out[k]) == case_view(cases[perm[k]])
        &&& forall|j: int| 0 <= j < cases.len() ==> keyed(env, rule.key, #[trigger] cases[j], keys[j])
    }
}

/// Running `phase` over `cases` above `env` gives `out` and leaves the environment as `next`.
pub open spec fn phase_runs(env: Seq<ValueMap>, phase: Phase, cases: Seq<CaseConfig>, out: Seq<CaseConfig>, next: Seq<ValueMap>) -> bool {
    match phase {
        Phase::Score(rs) => score_out(env, rs@, out, cases) && next.len() == env.len()
            && (!rebinds_score(rs@) ==> next == env),
        Phase::Match(rs) => cases_view(out) == cases_view(cases) && matched_all(env, rs@, cases, next),
        Phase::Filter(f) => next == env && filtered(env, f.condition, out, cases),
        Phase::Sort(sr) => next == env && sorted_out(env, sr, out, cases),
    }
}

/// Running `phase` over `cases` above `env` fails with `m`.
pub open spec fn phase_fails(env: Seq<ValueMap>, phase: Phase, cases: Seq<CaseConfig>, m: Seq<char>) -> bool {
    match phase {
        Phase::Score(rs) => score_failed(env, rs@, cases),
        Phase::Match(rs) => match_failed(env, rs@, cases, m),
        Phase::Filter(f) => first_failure(env, f.condition, cases, m),
        Phase::Sort(sr) => first_failure(env, sr.key, cases, m),
    }
}

/// The first `k` phases run in order: phase `j` takes records `recs[j]` and
/// environment `envs[j]` to `recs[j + 1]` and `envs[j + 1]`.
pub open spec fn phases_chain(envs: Seq<Seq<ValueMap>>, recs: Seq<Seq<CaseConfig>>, phases: Seq<Phase>, k: int) -> bool {
    &&& envs.len() == k + 1
    &&& recs.len() == k + 1
    &&& forall|j: int| 0 <= j < k ==> phase_runs(#[trigger] envs[j], phases[j], recs[j], recs[j + 1], envs[j + 1])
}

/// Running all `phases` in order over `cases` above `env` gives `out`, and the environment `last`.
pub open spec fn workflow_runs(env: Seq<ValueMap>, phases: Seq<Phase>, cases: Seq<CaseConfig>, out: Seq<CaseConfig>, last: Seq<ValueMap>) -> bool {
    exists|envs: Seq<Seq<ValueMap>>, recs: Seq<Seq<CaseConfig>>| #[trigger] phases_chain(envs, recs, phases, phases.len() as int)
        && envs[0] == env && recs[0] == cases && recs.last() == out && envs.last() == last
}

/// Running `phases` in order over `cases` above `env`, some phase fails with `m`
/// after the ones before it ran.
pub open spec fn workflow_fails(env: Seq<ValueMap>, phases: Seq<Phase>, cases: Seq<CaseConfig>, m: Seq<char>) -> bool {
    exists|envs: Seq<Seq<ValueMap>>, recs: Seq<Seq<CaseConfig>>, k: int| 0 <= k < phases.len()
        && #[trigger] phases_chain(envs, recs, phases, k) && envs[0] == env && recs[0] == cases
        && phase_fails(envs[k], phases[k], recs[k], m)
}


/// Two views of a record that agree on everything but the score.
pub open spec fn same_fields(a: CaseView, b: CaseView) -> bool {
    a.id == b.id && a.category == b.category && a.status == b.status && a.priority == b.priority && a.customer == b.customer
}

/// `out` holds the records of `cases` in some order, only their scores changed.
pub open spec fn reorders(out: Seq<CaseConfig>, cases: Seq<CaseConfig>) -> bool {
    exists|perm: Seq<int>| #[trigger] is_permutation(perm, cases.len() as nat) && out.len() == cases.len()
        && forall|k: int| 0 <= k < out.len() ==> same_fields(case_view(#[trigger] out[k]), case_view(cases[perm[k]]))
}

pub proof fn lemma_reorders_id(out: Seq<CaseConfig>, cases: Seq<CaseConfig>)
    requires
        out.len() == cases.len(),
        forall|k: int| 0 <= k < out.len() ==> same_fields(case_view(#[trigger] out[k]), case_view(cases[k])),
    ensures
        reorders(out, cases),
{
    let id = Seq::new(cases.len(), |i: int| i);
    assert(is_permutation(id, cases.len() as nat));
    assert(forall|k: int| 0 <= k < out.len() ==> same_fields(case_view(#[trigger] out[k]), case_view(cases[id[k]])));
}

pub proof fn lemma_reorders_trans(a: Seq<CaseConfig>, b: Seq<CaseConfig>, c: Seq<CaseConfig>)
    requires
        reorders(b, a),
        reorders(c, b),
    ensures
        reorders(c, a),
{
    let p1 = choose|perm: Seq<int>| #[trigger] is_permutation(perm, a.len() as nat) && b.len() == a.len()
        && forall|k: int| 0 <= k < b.len() ==> same_fields(case_view(#[trigger] b[k]), case_view(a[perm[k]]));
    let p2 = choose|perm: Seq<int>| #[trigger] is_permutation(perm, b.len() as nat) && c.len() == b.len()
        && forall|k: int| 0 <= k < c.len() ==> same_fields(case_view(#[trigger] c[k]), case_view(b[perm[k]]));
    let q = Seq::new(a.len(), |k: int| p1[p2[k]]);
    assert forall|k: int| 0 <= k < q.len() implies 0 <= #[trigger] q[k] < a.len() by {
        assert(0 <= p2[k] < b.len());
    };
    assert forall|k: int, l: int| 0 <= k < l < q.len() implies q[k] != q[l] by {
        assert(p2[k] != p2[l]);
        if p2[k] < p2[l] {
            assert(p1[p2[k]] != p1[p2[l]]);
        } else {
            assert(p1[p2[l]] != p1[p2[k]]);
        }
    };
    assert(is_permutation(q, a.len() as nat));
    assert forall|k: int| 0 <= k < c.len() implies same_fields(case_view(#[trigger] c[k]), case_view(a[q[k]])) by {
        assert(same_fields(case_view(c[k]), case_view(b[p2[k]])));
        assert(0 <= p2[k] < b.len());
        assert(same_fields(case_view(b[p2[k]]), case_view(a[p1[p2[k]]])));
    };
}

pub proof fn lemma_phase_reorders(env: Seq<ValueMap>, phase: Phase, cases: Seq<CaseConfig>, out: Seq<CaseConfig>, next: Seq<ValueMap>)
    requires
        phase_runs(env, phase, cases, out, next),
        !(phase is Filter),
    ensures
        reorders(out, cases),
{
    match phase {
        Phase::Score(rs) => {
            lemma_reorders_id(out, cases);
        },
        Phase::Match(rs) => {
            assert(cases_view(out).len() == out.len() && cases_view(cases).len() == cases.len());
            assert forall|k: int| 0 <= k < out.len() implies same_fields(case_view(#[trigger] out[k]), case_view(cases[k])) by {
                assert(k < cases.len());
                assert(cases_view(out)[k] == case_view(out[k]));
                assert(cases_view(cases)[k] == case_view(cases[k]));
            };
            lemma_reorders_id(out, cases);
        },
        Phase::Sort(sr) => {
            let (keys, perm) = choose|keys: Seq<Val>, perm: Seq<int>| {
                &&& keys.len() == cases.len()
                &&& #[trigger] is_permutation(perm, cases.len() as nat)
                &&& #[trigger] sorted_by(keys, perm, sr.order)
                &&& forall|k: int| 0 <= k < out.len() ==> case_view(#[trigger] out[k]) == case_view(cases[perm[k]])
                &&& forall|j: int| 0 <= j < cases.len() ==> keyed(env, sr.key, #[trigger] cases[j], keys[j])
            };
            assert(forall|k: int| 0 <= k < out.len() ==> same_fields(case_view(#[trigger] out[k]), case_view(cases[perm[k]])));
        },
        _ => {},
    }
}

/// `reorders` looks at the records' views only.
pub proof fn lemma_reorders_views(out: Seq<CaseConfig>, cs: Seq<CaseConfig>, cases: Seq<CaseConfig>)
    requires
        reorders(out, cs),
        cases_view(cs) == cases_view(cases),
    ensures
        reorders(out, cases),
{
    let perm = choose|perm: Seq<int>| #[trigger] is_permutation(perm, cs.len() as nat) && out.len() == cs.len()
        && forall|k: int| 0 <= k < out.len() ==> same_fields(case_view(#[trigger] out[k]), case_view(cs[perm[k]]));
    assert(cases_view(cs).len() == cs.len() && cases_view(cases).len() == cases.len());
    assert forall|k: int| 0 <= k < out.len() implies same_fields(case_view(#[trigger] out[k]), case_view(cases[perm[k]])) by {
        let i = perm[k];
        assert(0 <= i < cs.len());
        assert(cases_view(cs)[i] == case_view(cs[i]));
        assert(cases_view(cases)[i] == case_view(cases[i]));
        assert(cases_view(cs)[i] == cases_view(cases)[i]);
        assert(same_fields(case_view(out[k]), case_view(cs[i])));
    };
}

/// A workflow without a Filter phase hands back the records it was given, in
/// some order, with only their scores changed.
pub proof fn law_no_filter_keeps_records(env: Seq<ValueMap>, phases: Seq<Phase>, cases: Seq<CaseConfig>, out: Seq<CaseConfig>, last: Seq<ValueMap>)
    requires
        workflow_runs(env, phases, cases, out, last),
        !has_filter(phases),
    ensures
        reorders(out, cases),
{
    let (envs, recs) = choose|envs: Seq<Seq<ValueMap>>, recs: Seq<Seq<CaseConfig>>| #[trigger] phases_chain(envs, recs, phases, phases.len() as int)
        && envs[0] == env && recs[0] == cases && recs.last() == out && envs.last() == last;
    lemma_chain_reorders(envs, recs, phases, phases.len() as int);
}

proof fn lemma_chain_reorders(envs: Seq<Seq<ValueMap>>, recs: Seq<Seq<CaseConfig>>, phases: Seq<Phase>, k: int)
    requires
        phases_chain(envs, recs, phases, phases.len() as int),
        !has_filter(phases),
        0 <= k <= phases.len(),
    ensures
        reorders(recs[k], recs[0]),
    decreases k,
{
    if k == 0 {
        lemma_reorders_id(recs[0], recs[0]);
    } else {
        lemma_chain_reorders(envs, recs, phases, k - 1);
        assert(phase_runs(envs[k - 1], phases[k - 1], recs[k - 1], recs[k], envs[k]));
        assert(!(phases[k - 1] is Filter));
        lemma_phase_reorders(envs[k - 1], phases[k - 1], recs[k - 1], recs[k], envs[k]);
        lemma_reorders_trans(recs[0], recs[k - 1], recs[k]);
    }
}

/// Executes rule consequents.
pub struct ActionEvaluator;

impl ActionEvaluator {
    /// Runs one score-phase action on the current record.
    pub fn execute_action(context: &mut VmContext, action: &Action, case: &mut CaseConfig) -> (r: Result<(), String>)
        requires
            old(context).wf(),
        ensures
            final(context).wf(),
            final(context).env.env@.len() == old(context).env.env@.len(),
            final(context).stack == old(context).stack,
            old(context).env.env@.len() > 0 && old(context).env.env@.last().spec_get("score"@) is Some
                ==> final(context).env.env@.drop_last() == old(context).env.env@.drop_last(),
            ({
                let c0 = case_view(*old(case));
                let c1 = case_view(*final(case));
                c1.id == c0.id && c1.category == c0.category && c1.status == c0.status
                    && c1.priority == c0.priority && c1.customer == c0.customer
            }),
            score_bound(old(context).env, old(case).score) && !(match *action {
                Action::Assign(n) => n@ == "score"@,
                _ => false,
            }) ==> score_bound(final(context).env, final(case).score),
            match *action {
                Action::AssignScore(e) => match eval(old(context).env.env@, Seq::empty(), e, MAX_CALL_DEPTH as nat) {
                    Ok(Val::Number(n)) => r is Ok && final(case).score == n
                        && (old(context).env.env@.len() > 0 ==> lookup_spec(final(context).env.env@, "score"@) == Some(Value::Number(n))),
                    Ok(_) => r == Err::<(), String>(r->Err_0) && r->Err_0@ == MSG_SCORE_TYPE@
                        && final(case).score == old(case).score,
                    Err(m) => r is Err && r->Err_0@ == m && final(case).score == old(case).score,
                },
                Action::Log(_) => r is Ok && *final(case) == *old(case) && final(context).env == old(context).env,
                Action::Assign(_) => r is Ok && *final(case) == *old(case),
            },
            match *action {
                Action::AssignScore(e) => match eval(old(context).env.env@, Seq::empty(), e, MAX_CALL_DEPTH as nat) {
                    Ok(Val::Number(n)) => old(context).env.env@.len() > 0 && old(context).env.env@.last().spec_get("score"@) is Some
                        ==> entries_model(final(context).env.env@.last().entries@, final(context).env.env@.last().entries@.len() as nat)
                            == entries_model(old(context).env.env@.last().entries@, old(context).env.env@.last().entries@.len() as nat).update(
                                find_key(old(context).env.env@.last().entries@, "score"@)->Some_0, ("score"@, Val::Number(n))),
                    _ => true,
                },
                _ => true,
            },
    {
        match action {
            Action::AssignScore(expr) => {
                let v = ExprEvaluator::evaluate_expr(context, expr);
                match v {
                    Ok(Value::Number(n)) => {
                        case.score = n;
                        let ghost before = context.env;
                        let key = "score".to_owned();
                        let ghost kg = key;
                        context.env.set(key, Value::Number(n));
                        proof {
                            let frames = before.env@;
                            lemma_innermost_range(frames, "score"@);
                            if frames.len() > 0 && frames.last().spec_get("score"@) is Some {
                                assert(context.env.env@.drop_last() =~= frames.drop_last());
                                assert(context.env.env@.last().entries@ == entries_insert(frames.last().entries@, kg, Value::Number(n)));
                                assert(kg@ == "score"@);
                                assert(frames == old(context).env.env@);
                                assert(eval(old(context).env.env@, Seq::empty(), *expr, MAX_CALL_DEPTH as nat)
                                    == Ok::<Val, Seq<char>>(Val::Number(n)));
                                let m = frames.last().entries@;
                                let i = find_key(m, "score"@)->Some_0;
                                let m2 = context.env.env@.last().entries@;
                                assert(m2 == m.update(i, (kg, Value::Number(n))));
                                lemma_entries_model(m, m.len() as nat);
                                lemma_entries_model(m2, m2.len() as nat);
                                assert(entries_model(m2, m2.len() as nat) =~= entries_model(m, m.len() as nat).update(i, ("score"@, Val::Number(n))));
                            }
                            if score_bound(before, old(case).score) {
                                let frames = before.env@;
                                let last = frames.len() - 1;
                                lemma_innermost_range(frames, "score"@);
                                assert(innermost_with(frames, "score"@) == last);
                                assert(context.env.env@[last].wf());
                                lemma_insert_get(frames[last].entries@, kg, Value::Number(n));
                            }
                        }
                        Ok(())
                    },
                    Ok(_) => Err(MSG_SCORE_TYPE.to_owned()),
                    Err(m) => Err(m),
                }
            },
            Action::Log(_) => Ok(()),
            Action::Assign(name) => {
                let ghost before = context.env;
                context.env.insert(name.clone(), Value::Bool(true));
                proof {
                    if score_bound(before, case.score) && name@ != "score"@ {
                        let m = before.env@.last().entries@;
                        let m2 = context.env.env@.last().entries@;
                        let si = find_key(m, "score"@)->Some_0;
                        assert(m2[si].0@ == "score"@);
                        let c = choose|c: int| 0 <= c < m2.len() && m2[c].0@ == "score"@;
                        if c < si {
                            assert(m2[c].0@ != m2[si].0@);
                        } else if c > si {
                            assert(m2[si].0@ != m2[c].0@);
                        }
                    }
                }
                Ok(())
            },
        }
    }

    /// Runs a match action: binds its name, in the innermost frame, to a
    /// snapshot of the record.
    pub fn execute_match_action(context: &mut VmContext, action: &MatchAction, case: &mut CaseConfig) -> (r: Result<(), String>)
        requires
            old(context).wf(),
        ensures
            r is Ok,
            final(context).wf(),
            *final(case) == *old(case),
            final(context).stack == old(context).stack,
            final(context).env.env@.len() == old(context).env.env@.len(),
            old(context).env.env@.len() > 0 ==> ({
                let name = match *action { MatchAction::AssignTo(n) => n };
                &&& final(context).env.env@.drop_last() == old(context).env.env@.drop_last()
                &&& final(context).env.env@.last().spec_get(name@) matches Some(v)
                &&& model(v) == Val::Dict(snapshot_model(case_view(*old(case))))
            }),
    {
        match action {
            MatchAction::AssignTo(name) => {
                let snap = Self::case_to_map(case);
                let ghost sv = Value::Dict(snap);
                let ghost before = context.env;
                let nm = name.clone();
                let ghost ng = nm;
                context.env.insert(nm, Value::Dict(snap));
                proof {
                    if before.env@.len() > 0 {
                        let last = before.env@.len() - 1;
                        assert(context.env.env@[last].wf());
                        lemma_insert_get(before.env@[last].entries@, ng, sv);
                    }
                }
                Ok(())
            },
        }
    }

    /// The record as a map of its fields, numbers written out in decimal.
    pub fn case_to_map(case: &CaseConfig) -> (r: ValueMap)
        ensures
            entries_model(r.entries@, r.entries@.len() as nat) == snapshot_model(case_view(*case)),
    {
        let mut entries: Vec<(String, Value)> = Vec::new();
        entries.push(("id".to_owned(), Value::String(int_to_text(case.id as i64))));
        entries.push(("category".to_owned(), Value::String(case.category.clone())));
        entries.push(("status".to_owned(), Value::String(case.status.clone())));
        entries.push(("priority".to_owned(), Value::String(int_to_text(case.priority as i64))));
        entries.push(("score".to_owned(), Value::String(int_to_text(case.score))));
        match &case.customer {
            Some(c) => entries.push(("customer".to_owned(), Value::String(c.clone()))),
            None => {},
        }
        proof { lemma_entries_model(entries@, entries@.len() as nat); }
        assert(entries_model(entries@, entries@.len() as nat) =~= snapshot_model(case_view(*case)));
        ValueMap { entries }
    }
}

/// The bindings of a record's scope, as the language sees them.
pub open spec fn record_model(c: CaseView) -> Seq<(Seq<char>, Val)> {
    seq![
        ("id"@, Val::Number(c.id as i64)),
        ("category"@, Val::Str(c.category)),
        ("status"@, Val::Str(c.status)),
        ("priority"@, Val::Number(c.priority as i64)),
        ("score"@, Val::Number(c.score)),
        ("customer"@, Val::Str(match c.customer {
            Some(s) => s,
            None => Seq::empty(),
        })),
    ]
}

/// The frame a record is evaluated in: its fields, a missing customer as "".
pub fn record_frame(case: &CaseConfig) -> (r: ValueMap)
    ensures
        r.wf(),
        r.spec_get("score"@) == Some(Value::Number(case.score)),
        entries_model(r.entries@, r.entries@.len() as nat) == record_model(case_view(*case)),
{
    let mut entries: Vec<(String, Value)> = Vec::new();
    entries.push(("id".to_owned(), Value::Number(case.id as i64)));
    entries.push(("category".to_owned(), Value::String(case.category.clone())));
    entries.push(("status".to_owned(), Value::String(case.status.clone())));
    entries.push(("priority".to_owned(), Value::Number(case.priority as i64)));
    entries.push(("score".to_owned(), Value::Number(case.score)));
    match &case.customer {
        Some(c) => entries.push(("customer".to_owned(), Value::String(c.clone()))),
        None => entries.push(("customer".to_owned(), Value::String(String::new()))),
    }
    proof {
        reveal_strlit("id");
        reveal_strlit("category");
        reveal_strlit("status");
        reveal_strlit("priority");
        reveal_strlit("score");
        reveal_strlit("customer");
        let m = entries@;
        assert(m[0].0@.len() == 2 && m[1].0@.len() == 8 && m[2].0@.len() == 6);
        assert(m[3].0@.len() == 8 && m[4].0@.len() == 5 && m[5].0@.len() == 8);
        assert(m[1].0@[0] != m[3].0@[0]);
        assert(m[1].0@[1] != m[5].0@[1]);
        assert(m[3].0@[0] != m[5].0@[0]);
        assert(keys_unique(m));
        assert(m[4].0@ == "score"@);
        let c = choose|c: int| 0 <= c < m.len() && m[c].0@ == "score"@;
        if c < 4 {
            assert(m[c].0@ != m[4].0@);
        } else if c > 4 {
            assert(m[4].0@ != m[c].0@);
        }
        lemma_entries_model(m, m.len() as nat);
    }
    assert(entries_model(entries@, entries@.len() as nat) =~= record_model(case_view(*case)));
    ValueMap { entries }
}

/// Some rule binds `score` with the reserved `Assign` action, which would
/// replace the record's score binding by `true`.
pub open spec fn rebinds_score(rules: Seq<Rule>) -> bool {
    exists|i: int| 0 <= i < rules.len() && match (#[trigger] rules[i]).action {
        Action::Assign(n) => n@ == "score"@,
        _ => false,
    }
}

/// `c` with its score replaced by `s`.
pub open spec fn with_score(c: CaseView, s: i64) -> CaseView {
    CaseView { id: c.id, category: c.category, status: c.status, priority: c.priority, customer: c.customer, score: s }
}

/// `frame` binds the fields of the record seen as `c`.
pub open spec fn scope_of(frame: ValueMap, c: CaseView) -> bool {
    frame.wf() && entries_model(frame.entries@, frame.entries@.len() as nat) == record_model(c)
}

/// The innermost frame of `env` is the scope of `c`, and no rule uses the
/// reserved `Assign` action: the score rules then run as `runs_to` says.
pub open spec fn traced(env: Seq<ValueMap>, rules: Seq<Rule>, c: CaseConfig) -> bool {
    !uses_assign(rules) && env.len() > 0 && scope_of(env.last(), case_view(c))
}

/// Some rule uses the reserved `Assign` action.
pub open spec fn uses_assign(rules: Seq<Rule>) -> bool {
    exists|i: int| 0 <= i < rules.len() && (#[trigger] rules[i]).action is Assign
}

/// Running score rules `j..` on the record seen as `c`, each in a scope of
/// the record as it stands, above `env`, can end with score `out`: a rule
/// whose condition is truthy and whose action is `score = e` sets the score to
/// the value of `e`.
pub open spec fn runs_to(env: Seq<ValueMap>, rules: Seq<Rule>, j: int, c: CaseView, out: i64) -> bool
    decreases rules.len() - j,
{
    if j < 0 || j >= rules.len() {
        c.score == out
    } else {
        exists|f: ValueMap| #[trigger] scope_of(f, c) && match eval(env.push(f), Seq::empty(), rules[j].condition, MAX_CALL_DEPTH as nat) {
            Ok(v) => if truthy(v) {
                match rules[j].action {
                    Action::AssignScore(e) => match eval(env.push(f), Seq::empty(), e, MAX_CALL_DEPTH as nat) {
                        Ok(Val::Number(n)) => runs_to(env, rules, j + 1, with_score(c, n), out),
                        _ => false,
                    },
                    _ => runs_to(env, rules, j + 1, c, out),
                }
            } else {
                runs_to(env, rules, j + 1, c, out)
            },
            Err(_) => false,
        }
    }
}

/// A record's scope binds `score` to the record's score.
pub proof fn lemma_scope_score(f: ValueMap, c: CaseView)
    requires
        scope_of(f, c),
    ensures
        f.spec_get("score"@) == Some(Value::Number(c.score)),
        find_key(f.entries@, "score"@) == Some(4int),
{
    let m = f.entries@;
    lemma_entries_model(m, m.len() as nat);
    assert(m.len() == 6);
    assert(m[4].0@ == "score"@);
    assert(model(m[4].1) == Val::Number(c.score));
    match m[4].1 {
        Value::Number(x) => {},
        _ => {},
    }
    let c4 = choose|i: int| 0 <= i < m.len() && m[i].0@ == "score"@;
    if c4 < 4 {
        assert(m[c4].0@ != m[4].0@);
    } else if c4 > 4 {
        assert(m[4].0@ != m[c4].0@);
    }
}

/// Running score rules `j..` on the record seen as `c`, as `runs_to` describes,
/// can fail: a condition fails to evaluate, or a truthy rule's `score = e`
/// does not give a number.
pub open spec fn fails_from(env: Seq<ValueMap>, rules: Seq<Rule>, j: int, c: CaseView) -> bool
    decreases rules.len() - j,
{
    if j < 0 || j >= rules.len() {
        false
    } else {
        exists|f: ValueMap| #[trigger] scope_of(f, c) && match eval(env.push(f), Seq::empty(), rules[j].condition, MAX_CALL_DEPTH as nat) {
            Ok(v) => if truthy(v) {
                match rules[j].action {
                    Action::AssignScore(e) => match eval(env.push(f), Seq::empty(), e, MAX_CALL_DEPTH as nat) {
                        Ok(Val::Number(n)) => fails_from(env, rules, j + 1, with_score(c, n)),
                        _ => true,
                    },
                    _ => fails_from(env, rules, j + 1, c),
                }
            } else {
                fails_from(env, rules, j + 1, c)
            },
            Err(_) => true,
        }
    }
}

/// Rebinding `score` in the model of a record's scope gives the model of the
/// record with the new score.
pub proof fn lemma_rebind_score(c: CaseView, n: i64)
    ensures
        record_model(c).update(4, ("score"@, Val::Number(n))) =~= record_model(with_score(c, n)),
{
}

/// `frame` is the scope of record `c`: its fields, bound as `setup_case_context` binds them.
pub open spec fn record_scope(frame: ValueMap, c: CaseConfig) -> bool {
    scope_of(frame, case_view(c))
}

/// Evaluated in the scope of record `c` above `env`, `cond` gives a value
/// that is truthy exactly when `keep`.
pub open spec fn decides(env: Seq<ValueMap>, cond: Expr, c: CaseConfig, keep: bool) -> bool {
    exists|f: ValueMap| #[trigger] record_scope(f, c)
        && (eval(env.push(f), Seq::empty(), cond, MAX_CALL_DEPTH as nat) matches Ok(v) && truthy(v) == keep)
}

/// Evaluated in the scope of record `c` above `env`, `e` fails with message `m`.
pub open spec fn fails_with(env: Seq<ValueMap>, e: Expr, c: CaseConfig, m: Seq<char>) -> bool {
    exists|f: ValueMap| #[trigger] record_scope(f, c)
        && eval(env.push(f), Seq::empty(), e, MAX_CALL_DEPTH as nat) == Err::<Val, Seq<char>>(m)
}

/// `e` evaluates without error in a scope of record `c` above `env`.
pub open spec fn evaluates_some(env: Seq<ValueMap>, e: Expr, c: CaseConfig) -> bool {
    exists|f: ValueMap| #[trigger] record_scope(f, c) && eval(env.push(f), Seq::empty(), e, MAX_CALL_DEPTH as nat) is Ok
}

/// `e` evaluates without error in every scope of record `c` above `env`.
pub open spec fn evaluates(env: Seq<ValueMap>, e: Expr, c: CaseConfig) -> bool {
    forall|f: ValueMap| #[trigger] record_scope(f, c) ==> eval(env.push(f), Seq::empty(), e, MAX_CALL_DEPTH as nat) is Ok
}

/// Over `cases`, `e` first fails at some record with message `m`, having
/// evaluated for every record before it.
pub open spec fn first_failure(env: Seq<ValueMap>, e: Expr, cases: Seq<CaseConfig>, m: Seq<char>) -> bool {
    exists|j: int| 0 <= j < cases.len() && #[trigger] fails_with(env, e, cases[j], m)
        && forall|i: int| 0 <= i < j ==> evaluates_some(env, e, #[trigger] cases[i])
}

/// `out` keeps, in order, exactly the records of `cases` whose condition is
/// truthy in their own scope above `env`.
pub open spec fn filtered(env: Seq<ValueMap>, cond: Expr, out: Seq<CaseConfig>, cases: Seq<CaseConfig>) -> bool {
    out.len() <= cases.len() && exists|idx: Seq<int>| #[trigger] is_subsequence(cases_view(out), cases_view(cases), idx)
        && forall|j: int| 0 <= j < cases.len() ==> decides(env, cond, #[trigger] cases[j], idx.contains(j))
}

/// Evaluated in the scope of record `c` above `env`, `key` gives `k`.
pub open spec fn keyed(env: Seq<ValueMap>, key: Expr, c: CaseConfig, k: Val) -> bool {
    exists|f: ValueMap| #[trigger] record_scope(f, c)
        && eval(env.push(f), Seq::empty(), key, MAX_CALL_DEPTH as nat) == Ok::<Val, Seq<char>>(k)
}

/// Runs the phases of workflows over records.
pub struct WorkflowEvaluator;

impl WorkflowEvaluator {
    /// Opens the scope a record is evaluated in.
    pub fn setup_case_context(context: &mut VmContext, case: &CaseConfig) -> (r: Result<(), String>)
        requires
            old(context).wf(),
        ensures
            r is Ok,
            final(context).wf(),
            final(context).stack == old(context).stack,
            final(context).env.env@.drop_last() == old(context).env.env@,
            final(context).env.env@.len() == old(context).env.env@.len() + 1,
            score_bound(final(context).env, case.score),
            entries_model(final(context).env.env@.last().entries@, final(context).env.env@.last().entries@.len() as nat)
                == record_model(case_view(*case)),
    {
        let frame = record_frame(case);
        context.env.env.push(frame);
        assert(context.env.env@.drop_last() =~= old(context).env.env@);
        Ok(())
    }

    /// Runs every score rule, in order, on the record whose scope is open.
    pub fn execute_score_phase(context: &mut VmContext, rules: &[Rule], case: &mut CaseConfig) -> (r: Result<(), String>)
        requires
            old(context).wf(),
        ensures
            final(context).wf(),
            final(context).stack == old(context).stack,
            final(context).env.env@.len() == old(context).env.env@.len(),
            ({
                let c0 = case_view(*old(case));
                let c1 = case_view(*final(case));
                c1.id == c0.id && c1.category == c0.category && c1.status == c0.status
                    && c1.priority == c0.priority && c1.customer == c0.customer
            }),
            score_bound(old(context).env, old(case).score) && !rebinds_score(rules@)
                ==> score_bound(final(context).env, final(case).score)
                && final(context).env.env@.drop_last() == old(context).env.env@.drop_last(),
            r is Ok && traced(old(context).env.env@, rules@, *old(case))
                ==> runs_to(old(context).env.env@.drop_last(), rules@, 0, case_view(*old(case)), final(case).score),
            r is Err && traced(old(context).env.env@, rules@, *old(case))
                ==> fails_from(old(context).env.env@.drop_last(), rules@, 0, case_view(*old(case))),
    {
        let ghost base = old(context).env.env@.drop_last();
        let ghost cv0 = case_view(*old(case));
        let mut i: usize = 0;
        while i < rules.len()
            invariant
                i <= rules@.len(),
                context.wf(),
                context.stack == old(context).stack,
                context.env.env@.len() == old(context).env.env@.len(),
                ({
                    let c0 = case_view(*old(case));
                    let c1 = case_view(*case);
                    c1.id == c0.id && c1.category == c0.category && c1.status == c0.status
                        && c1.priority == c0.priority && c1.customer == c0.customer
                }),
                score_bound(old(context).env, old(case).score) && !rebinds_score(rules@)
                    ==> score_bound(context.env, case.score)
                    && context.env.env@.drop_last() == old(context).env.env@.drop_last(),
                base == old(context).env.env@.drop_last(),
                cv0 == case_view(*old(case)),
                traced(old(context).env.env@, rules@, *old(case)) ==> {
                    &&& context.env.env@.len() > 0
                    &&& context.env.env@.drop_last() == base
                    &&& scope_of(context.env.env@.last(), case_view(*case))
                    &&& forall|out: i64| #[trigger] runs_to(base, rules@, i as int, case_view(*case), out)
                        ==> runs_to(base, rules@, 0, cv0, out)
                    &&& fails_from(base, rules@, i as int, case_view(*case)) ==> fails_from(base, rules@, 0, cv0)
                },
            decreases rules@.len() - i,
        {
            let rule = &rules[i];
            let ghost f = context.env.env@.last();
            let ghost cv = case_view(*case);
            let ghost tr = traced(old(context).env.env@, rules@, *old(case));
            proof {
                if tr {
                    assert(context.env.env@ =~= base.push(f));
                    lemma_scope_score(f, cv);
                }
            }
            let c = match ExprEvaluator::evaluate_expr(context, &rule.condition) {
                Ok(c) => c,
                Err(m) => {
                    proof {
                        if tr {
                            assert(scope_of(f, cv));
                            assert(fails_from(base, rules@, i as int, cv));
                        }
                    }
                    return Err(m);
                },
            };
            let truth = ExprEvaluator::is_truthy(&c);
            if !truth {
                proof {
                    if tr {
                        assert forall|out: i64| #[trigger] runs_to(base, rules@, i + 1, cv, out)
                            implies runs_to(base, rules@, i as int, cv, out) by {
                            assert(scope_of(f, cv));
                        };
                        if fails_from(base, rules@, i + 1, cv) {
                            assert(scope_of(f, cv));
                            assert(fails_from(base, rules@, i as int, cv));
                        }
                    }
                }
            }
            if truth {
                proof {
                    if !rebinds_score(rules@) {
                        assert(!(match rules@[i as int].action {
                            Action::Assign(n) => n@ == "score"@,
                            _ => false,
                        }));
                    }
                }
                match ActionEvaluator::execute_action(context, &rule.action, case) {
                    Ok(()) => {},
                    Err(m) => {
                        proof {
                            if tr {
                                assert(!(rules@[i as int].action is Assign));
                                assert(scope_of(f, cv));
                                assert(fails_from(base, rules@, i as int, cv));
                            }
                        }
                        return Err(m);
                    },
                }
                proof {
                    if tr {
                        assert(!(rules@[i as int].action is Assign));
                        match rules@[i as int].action {
                            Action::AssignScore(e) => {
                                let n = case.score;
                                lemma_rebind_score(cv, n);
                                assert(case_view(*case) == with_score(cv, n));
                                assert(context.env.env@.last().wf());
                                assert forall|out: i64| #[trigger] runs_to(base, rules@, i + 1, case_view(*case), out)
                                    implies runs_to(base, rules@, i as int, cv, out) by {
                                    assert(scope_of(f, cv));
                                };
                                if fails_from(base, rules@, i + 1, case_view(*case)) {
                                    assert(scope_of(f, cv));
                                    assert(fails_from(base, rules@, i as int, cv));
                                }
                            },
                            _ => {
                                assert(case_view(*case) == cv);
                                assert forall|out: i64| #[trigger] runs_to(base, rules@, i + 1, cv, out)
                                    implies runs_to(base, rules@, i as int, cv, out) by {
                                    assert(scope_of(f, cv));
                                };
                                if fails_from(base, rules@, i + 1, cv) {
                                    assert(scope_of(f, cv));
                                    assert(fails_from(base, rules@, i as int, cv));
                                }
                            },
                        }
                    }
                }
            }
            i = i + 1;
        }
        proof {
            if traced(old(context).env.env@, rules@, *old(case)) {
                assert(runs_to(base, rules@, i as int, case_view(*case), case.score));
            }
        }
        Ok(())
    }
}

/// `out` keeps some of `cases`, in their order.
pub open spec fn is_subsequence(out: Seq<CaseView>, cases: Seq<CaseView>, idx: Seq<int>) -> bool {
    &&& idx.len() == out.len()
    &&& forall|k: int| 0 <= k < idx.len() ==> 0 <= #[trigger] idx[k] < cases.len() && out[k] == cases[idx[k]]
    &&& forall|k: int, l: int| 0 <= k < l < idx.len() ==> idx[k] < idx[l]
}

pub open spec fn has_filter(phases: Seq<Phase>) -> bool {
    exists|i: int| 0 <= i < phases.len() && (#[trigger] phases[i]) is Filter
}

impl WorkflowEvaluator {
    /// Index of the first match rule whose condition holds.
    fn first_matching(context: &mut VmContext, rules: &[MatchRule]) -> (r: Result<Option<usize>, String>)
        requires
            old(context).wf(),
        ensures
            *final(context) == *old(context),
            match r {
                Ok(Some(i)) => first_match(old(context).env.env@, rules@, 0) == Ok::<Option<nat>, Seq<char>>(Some(i as nat))
                    && i < rules@.len(),
                Ok(None) => first_match(old(context).env.env@, rules@, 0) == Ok::<Option<nat>, Seq<char>>(None),
                Err(m) => first_match(old(context).env.env@, rules@, 0) == Err::<Option<nat>, Seq<char>>(m@),
            },
    {
        let mut i: usize = 0;
        while i < rules.len()
            invariant
                i <= rules@.len(),
                *context == *old(context),
                context.wf(),
                first_match(old(context).env.env@, rules@, 0) == first_match(old(context).env.env@, rules@, i as nat),
            decreases rules@.len() - i,
        {
            let c = ExprEvaluator::evaluate_expr(context, &rules[i].condition)?;
            if ExprEvaluator::is_truthy(&c) {
                return Ok(Some(i));
            }
            i = i + 1;
        }
        Ok(None)
    }

    /// Runs the match rules on the record whose scope is open: the first rule
    /// whose condition holds binds its name, in that scope, to a snapshot of
    /// the record; later rules are not looked at.
    pub fn execute_match_phase(context: &mut VmContext, rules: &[MatchRule], case: &mut CaseConfig) -> (r: Result<(), String>)
        requires
            old(context).wf(),
        ensures
            final(context).wf(),
            *final(case) == *old(case),
            final(context).stack == old(context).stack,
            final(context).env.env@.len() == old(context).env.env@.len(),
            match first_match(old(context).env.env@, rules@, 0) {
                Err(m) => r is Err && r->Err_0@ == m && final(context).env == old(context).env,
                Ok(None) => r is Ok && final(context).env == old(context).env,
                Ok(Some(i)) => r is Ok && (old(context).env.env@.len() > 0 ==> ({
                    let name = match rules@[i as int].action { MatchAction::AssignTo(n) => n };
                    &&& final(context).env.env@.drop_last() == old(context).env.env@.drop_last()
                    &&& final(context).env.env@.last().spec_get(name@) matches Some(v)
                    &&& model(v) == Val::Dict(snapshot_model(case_view(*old(case))))
                })),
            },
    {
        match Self::first_matching(context, rules) {
            Ok(Some(i)) => ActionEvaluator::execute_match_action(context, &rules[i].action, case),
            Ok(None) => Ok(()),
            Err(m) => Err(m),
        }
    }

    /// Runs a score phase over every record, each in its own scope.
    pub fn execute_score_phase_on_cases(context: &mut VmContext, rules: &[Rule], cases: Vec<CaseConfig>) -> (r: Result<Vec<CaseConfig>, String>)
        requires
            old(context).wf(),
        ensures
            final(context).wf(),
            final(context).stack == old(context).stack,
            !rebinds_score(rules@) ==> final(context).env.env@ == old(context).env.env@,
            final(context).env.env@.len() == old(context).env.env@.len(),
            r is Ok ==> score_out(old(context).env.env@, rules@, r->Ok_0@, cases@),
            r is Err ==> score_failed(old(context).env.env@, rules@, cases@),
    {
        let mut out: Vec<CaseConfig> = Vec::new();
        let mut k: usize = 0;
        while k < cases.len()
            invariant
                k <= cases@.len(),
                context.wf(),
                context.stack == old(context).stack,
                !rebinds_score(rules@) ==> context.env.env@ == old(context).env.env@,
                context.env.env@.len() == old(context).env.env@.len(),
                out@.len() == k,
                forall|j: int| 0 <= j < k ==> ({
                    let c0 = case_view(#[trigger] cases@[j]);
                    let c1 = case_view(out@[j]);
                    c1.id == c0.id && c1.category == c0.category && c1.status == c0.status
                        && c1.priority == c0.priority && c1.customer == c0.customer
                }),
                !uses_assign(rules@) ==> forall|j: int| 0 <= j < k
                    ==> runs_to(old(context).env.env@, rules@, 0, case_view(#[trigger] cases@[j]), out@[j].score),
            decreases cases@.len() - k,
        {
            let mut case = copy_case(&cases[k]);
            let ghost before = context.env.env@;
            proof {
                if !uses_assign(rules@) && rebinds_score(rules@) {
                    let w = choose|w: int| 0 <= w < rules@.len() && match (#[trigger] rules@[w]).action {
                        Action::Assign(n) => n@ == "score"@,
                        _ => false,
                    };
                    assert(rules@[w].action is Assign);
                }
            }
            let _ = Self::setup_case_context(context, &case);
            proof {
                if !uses_assign(rules@) {
                    assert(context.env.env@.drop_last() == old(context).env.env@);
                    assert(traced(context.env.env@, rules@, case));
                }
            }
            let ghost cv = case_view(case);
            let res = Self::execute_score_phase(context, rules, &mut case);
            context.env.exit_scope();
            match res {
                Ok(()) => {},
                Err(m) => {
                    proof {
                        if !uses_assign(rules@) {
                            assert(cv == case_view(cases@[k as int]));
                            assert(fails_from(old(context).env.env@, rules@, 0, case_view(cases@[k as int])));
                        }
                    }
                    return Err(m);
                },
            }
            out.push(case);
            k = k + 1;
        }
        Ok(out)
    }

    /// Runs a match phase over every record. A binding that a rule makes
    /// outlives the record's scope: it is made again in the enclosing scope.
    pub fn execute_match_phase_on_cases(context: &mut VmContext, rules: &[MatchRule], cases: Vec<CaseConfig>) -> (r: Result<Vec<CaseConfig>, String>)
        requires
            old(context).wf(),
        ensures
            final(context).wf(),
            final(context).stack == old(context).stack,
            final(context).env.env@.len() == old(context).env.env@.len(),
            r is Ok ==> cases_view(r->Ok_0@) == cases_view(cases@)
                && matched_all(old(context).env.env@, rules@, cases@, final(context).env.env@),
            r is Err ==> match_failed(old(context).env.env@, rules@, cases@, r->Err_0@),
    {
        let mut out: Vec<CaseConfig> = Vec::new();
        let ghost mut envs: Seq<Seq<ValueMap>> = seq![old(context).env.env@];
        let mut k: usize = 0;
        while k < cases.len()
            invariant
                k <= cases@.len(),
                context.wf(),
                context.stack == old(context).stack,
                context.env.env@.len() == old(context).env.env@.len(),
                out@.len() == k,
                forall|j: int| 0 <= j < k ==> case_view(#[trigger] out@[j]) == case_view(cases@[j]),
                match_chain(envs, rules@, cases@, k as int),
                envs[0] == old(context).env.env@,
                envs.last() == context.env.env@,
            decreases cases@.len() - k,
        {
            let ghost before = context.env.env@;
            let case = copy_case(&cases[k]);
            let _ = Self::setup_case_context(context, &case);
            let ghost scope = context.env.env@.last();
            assert(context.env.env@ =~= before.push(scope));
            assert(record_scope(scope, cases@[k as int]));
            let found = Self::first_matching(context, rules);
            context.env.exit_scope();
            assert(context.env.env@ =~= before);
            match found {
                Ok(Some(i)) => match &rules[i].action {
                    MatchAction::AssignTo(name) => {
                        assert(match_target(rules@[i as int]) == name@);
                        if !is_case_field_name(name.as_str()) {
                            let snap = ActionEvaluator::case_to_map(&case);
                            let ghost sv = Value::Dict(snap);
                            let nm = name.clone();
                            let ghost ng = nm;
                            context.env.insert(nm, Value::Dict(snap));
                            proof {
                                if before.len() > 0 {
                                    let last = before.len() - 1;
                                    assert(context.env.env@[last].wf());
                                    assert(before[last].wf());
                                    lemma_insert_get(before[last].entries@, ng, sv);
                                    assert forall|k2: Seq<char>| k2 != name@
                                        implies #[trigger] context.env.env@.last().spec_get(k2) == before.last().spec_get(k2) by {
                                        lemma_insert_other(before[last].entries@, ng, sv, k2);
                                    };
                                }
                            }
                        }
                    },
                },
                Ok(None) => {},
                Err(m) => {
                    proof {
                        assert(match_fails(before, rules@, cases@[k as int], m@));
                        assert(match_chain(envs, rules@, cases@, k as int));
                        assert(match_failed(old(context).env.env@, rules@, cases@, m@));
                    }
                    return Err(m);
                },
            }
            proof {
                assert(match_step(before, rules@, cases@[k as int], context.env.env@));
                let old_envs = envs;
                envs = envs.push(context.env.env@);
                assert forall|j: int| 0 <= j < k + 1
                    implies match_step(#[trigger] envs[j], rules@, cases@[j], envs[j + 1]) by {
                    if j < k {
                        assert(envs[j] == old_envs[j] && envs[j + 1] == old_envs[j + 1]);
                    }
                };
            }
            out.push(case);
            k = k + 1;
        }
        assert(cases_view(out@) =~= cases_view(cases@));
        assert(matched_all(old(context).env.env@, rules@, cases@, context.env.env@));
        Ok(out)
    }

    /// Keeps the records whose condition holds, in their order.
    pub fn execute_filter_phase(context: &mut VmContext, filter_rule: &FilterRule, cases: Vec<CaseConfig>) -> (r: Result<Vec<CaseConfig>, String>)
        requires
            old(context).wf(),
        ensures
            final(context).wf(),
            final(context).stack == old(context).stack,
            final(context).env.env@ == old(context).env.env@,
            r is Ok ==> filtered(old(context).env.env@, filter_rule.condition, r->Ok_0@, cases@),
            r is Err ==> first_failure(old(context).env.env@, filter_rule.condition, cases@, r->Err_0@),
            (forall|j: int| 0 <= j < cases@.len() ==> evaluates(old(context).env.env@, filter_rule.condition, #[trigger] cases@[j]))
                ==> r is Ok,
    {
        let mut out: Vec<CaseConfig> = Vec::new();
        let ghost mut idx: Seq<int> = Seq::empty();
        let mut k: usize = 0;
        while k < cases.len()
            invariant
                k <= cases@.len(),
                context.wf(),
                context.stack == old(context).stack,
                context.env.env@ == old(context).env.env@,
                out@.len() <= k,
                idx.len() == out@.len(),
                forall|j: int| 0 <= j < idx.len() ==> 0 <= #[trigger] idx[j] < k
                    && case_view(out@[j]) == case_view(cases@[idx[j]]),
                forall|a: int, b: int| 0 <= a < b < idx.len() ==> idx[a] < idx[b],
                forall|j: int| 0 <= j < k ==> decides(old(context).env.env@, filter_rule.condition, #[trigger] cases@[j], idx.contains(j)),
                forall|j: int| 0 <= j < k ==> evaluates_some(old(context).env.env@, filter_rule.condition, #[trigger] cases@[j]),
            decreases cases@.len() - k,
        {
            let case = copy_case(&cases[k]);
            let _ = Self::setup_case_context(context, &case);
            let ghost scope = context.env.env@.last();
            assert(context.env.env@ =~= old(context).env.env@.push(scope));
            assert(record_scope(scope, cases@[k as int]));
            let c = ExprEvaluator::evaluate_expr(context, &filter_rule.condition);
            context.env.exit_scope();
            match c {
                Ok(v) => {
                    let keep = ExprEvaluator::is_truthy(&v);
                    let ghost old_idx = idx;
                    if keep {
                        out.push(case);
                        proof { idx = idx.push(k as int); }
                    }
                    proof {
                        assert(evaluates_some(old(context).env.env@, filter_rule.condition, cases@[k as int]));
                        assert(decides(old(context).env.env@, filter_rule.condition, cases@[k as int], keep));
                        assert(idx.contains(k as int) == keep) by {
                            if !keep {
                                assert forall|a: int| 0 <= a < idx.len() implies idx[a] != k by {};
                            } else {
                                assert(idx[idx.len() - 1] == k);
                            }
                        };
                        assert forall|j: int| 0 <= j < k implies idx.contains(j) == old_idx.contains(j) by {
                            if idx.contains(j) {
                                let a = choose|a: int| 0 <= a < idx.len() && idx[a] == j;
                                if a < old_idx.len() {
                                    assert(old_idx[a] == j);
                                }
                            }
                            if old_idx.contains(j) {
                                let a = choose|a: int| 0 <= a < old_idx.len() && old_idx[a] == j;
                                assert(idx[a] == j);
                            }
                        };
                    }
                },
                Err(m) => {
                    proof {
                        assert(fails_with(old(context).env.env@, filter_rule.condition, cases@[k as int], m@));
                        assert(first_failure(old(context).env.env@, filter_rule.condition, cases@, m@));
                        assert(!evaluates(old(context).env.env@, filter_rule.condition, cases@[k as int]));
                    }
                    return Err(m);
                },
            }
            k = k + 1;
        }
        proof {
            let ov = cases_view(out@);
            let cv = cases_view(cases@);
            assert(is_subsequence(ov, cv, idx));
            assert(forall|j: int| 0 <= j < cases@.len()
                ==> decides(old(context).env.env@, filter_rule.condition, #[trigger] cases@[j], idx.contains(j)));
            assert(out@.len() <= cases@.len());
            assert(filtered(old(context).env.env@, filter_rule.condition, out@, cases@));
        }
        Ok(out)
    }

    /// Orders the records by the value of the sort key in each record's
    /// scope; records with equal keys keep their order.
    pub fn execute_sort_phase(context: &mut VmContext, sort_rule: &SortRule, cases: Vec<CaseConfig>) -> (r: Result<Vec<CaseConfig>, String>)
        requires
            old(context).wf(),
        ensures
            final(context).wf(),
            final(context).stack == old(context).stack,
            final(context).env.env@ == old(context).env.env@,
            r is Ok ==> sorted_out(old(context).env.env@, *sort_rule, r->Ok_0@, cases@),
            r is Err ==> first_failure(old(context).env.env@, sort_rule.key, cases@, r->Err_0@),
            (forall|j: int| 0 <= j < cases@.len() ==> evaluates(old(context).env.env@, sort_rule.key, #[trigger] cases@[j]))
                ==> r is Ok,
    {
        let mut keys: Vec<Value> = Vec::new();
        let mut k: usize = 0;
        while k < cases.len()
            invariant
                k <= cases@.len(),
                keys@.len() == k,
                context.wf(),
                context.stack == old(context).stack,
                context.env.env@ == old(context).env.env@,
                forall|j: int| 0 <= j < k ==> keyed(old(context).env.env@, sort_rule.key, #[trigger] cases@[j], model(keys@[j])),
                forall|j: int| 0 <= j < k ==> evaluates_some(old(context).env.env@, sort_rule.key, #[trigger] cases@[j]),
            decreases cases@.len() - k,
        {
            let _ = Self::setup_case_context(context, &cases[k]);
            let ghost scope = context.env.env@.last();
            assert(context.env.env@ =~= old(context).env.env@.push(scope));
            assert(record_scope(scope, cases@[k as int]));
            let key = ExprEvaluator::evaluate_expr(context, &sort_rule.key);
            context.env.exit_scope();
            match key {
                Ok(v) => {
                    assert(keyed(old(context).env.env@, sort_rule.key, cases@[k as int], model(v)));
                    assert(evaluates_some(old(context).env.env@, sort_rule.key, cases@[k as int]));
                    keys.push(v);
                },
                Err(m) => {
                    proof {
                        assert(fails_with(old(context).env.env@, sort_rule.key, cases@[k as int], m@));
                        assert(first_failure(old(context).env.env@, sort_rule.key, cases@, m@));
                        assert(!evaluates(old(context).env.env@, sort_rule.key, cases@[k as int]));
                    }
                    return Err(m);
                },
            }
            k = k + 1;
        }
        let perm = stable_order(&keys, sort_rule.order);
        let ghost p = Seq::new(perm@.len(), |j: int| perm@[j] as int);
        let ghost km = Seq::new(keys.len() as nat, |j: int| model(keys@[j]));
        let mut out: Vec<CaseConfig> = Vec::new();
        let mut j: usize = 0;
        while j < perm.len()
            invariant
                j <= perm@.len(),
                perm@.len() == cases@.len(),
                p == Seq::new(perm@.len(), |j: int| perm@[j] as int),
                is_permutation(p, keys.len() as nat),
                keys@.len() == cases@.len(),
                out@.len() == j,
                forall|a: int| 0 <= a < j ==> case_view(#[trigger] out@[a]) == case_view(cases@[p[a]]),
            decreases perm@.len() - j,
        {
            assert(p[j as int] == perm@[j as int] as int);
            out.push(copy_case(&cases[perm[j]]));
            j = j + 1;
        }
        assert(sorted_by(km, p, sort_rule.order));
        assert(forall|j: int| 0 <= j < cases@.len() ==> keyed(old(context).env.env@, sort_rule.key, #[trigger] cases@[j], km[j]));
        Ok(out)
    }

    /// Runs the phases of `workflow` in order over `cases`.
    pub fn execute_workflow(context: &mut VmContext, workflow: &Workflow, cases: Vec<CaseConfig>) -> (r: Result<Vec<CaseConfig>, String>)
        requires
            old(context).wf(),
        ensures
            final(context).wf(),
            final(context).stack == old(context).stack,
            final(context).env.env@.len() == old(context).env.env@.len(),
            r is Ok && !has_filter(workflow.phases@) ==> r->Ok_0@.len() == cases@.len() && reorders(r->Ok_0@, cases@),
            r is Ok ==> workflow_runs(old(context).env.env@, workflow.phases@, cases@, r->Ok_0@, final(context).env.env@),
            r is Err ==> workflow_fails(old(context).env.env@, workflow.phases@, cases@, r->Err_0@),
    {
        let mut current = cases;
        let mut i: usize = 0;
        let ghost mut envs: Seq<Seq<ValueMap>> = seq![old(context).env.env@];
        let ghost mut recs: Seq<Seq<CaseConfig>> = seq![cases@];
        while i < workflow.phases.len()
            invariant
                i <= workflow.phases@.len(),
                context.wf(),
                context.stack == old(context).stack,
                context.env.env@.len() == old(context).env.env@.len(),
                !has_filter(workflow.phases@) ==> current@.len() == cases@.len(),
                phases_chain(envs, recs, workflow.phases@, i as int),
                envs[0] == old(context).env.env@,
                recs[0] == cases@,
                envs.last() == context.env.env@,
                recs.last() == current@,
            decreases workflow.phases@.len() - i,
        {
            let phase = &workflow.phases[i];
            let ghost e0 = context.env.env@;
            let ghost c0 = current@;
            let res = match phase {
                Phase::Score(rules) => Self::execute_score_phase_on_cases(context, rules.as_slice(), current),
                Phase::Match(rules) => Self::execute_match_phase_on_cases(context, rules.as_slice(), current),
                Phase::Filter(rule) => Self::execute_filter_phase(context, rule, current),
                Phase::Sort(rule) => Self::execute_sort_phase(context, rule, current),
            };
            match res {
                Ok(out) => {
                    proof {
                        assert(phase_runs(e0, workflow.phases@[i as int], c0, out@, context.env.env@));
                        if !has_filter(workflow.phases@) {
                            assert(!(workflow.phases@[i as int] is Filter));
                            match workflow.phases@[i as int] {
                                Phase::Match(_) => assert(cases_view(out@).len() == out@.len() && cases_view(c0).len() == c0.len()),
                                _ => {},
                            }
                        }
                        let old_envs = envs;
                        let old_recs = recs;
                        envs = envs.push(context.env.env@);
                        recs = recs.push(out@);
                        assert forall|j: int| 0 <= j < i + 1 implies
                            phase_runs(#[trigger] envs[j], workflow.phases@[j], recs[j], recs[j + 1], envs[j + 1]) by {
                            if j < i {
                                assert(envs[j] == old_envs[j] && envs[j + 1] == old_envs[j + 1]);
                                assert(recs[j] == old_recs[j] && recs[j + 1] == old_recs[j + 1]);
                            }
                        };
                    }
                    current = out;
                },
                Err(m) => {
                    proof {
                        assert(phase_fails(e0, workflow.phases@[i as int], c0, m@));
                        assert(phases_chain(envs, recs, workflow.phases@, i as int));
                        assert(workflow_fails(old(context).env.env@, workflow.phases@, cases@, m@));
                    }
                    return Err(m);
                },
            }
            i = i + 1;
        }
        assert(workflow_runs(old(context).env.env@, workflow.phases@, cases@, current@, context.env.env@));
        proof {
            if !has_filter(workflow.phases@) {
                law_no_filter_keeps_records(old(context).env.env@, workflow.phases@, cases@, current@, context.env.env@);
            }
        }
        Ok(current)
    }
}

} // verus!
