//! Expression evaluation.
//!
//! An expression reads the environment and never writes it. The bindings
//! that user-function calls make (parameters, `let`, assignment) live on a
//! separate stack of local bindings, newest last, that a call truncates back
//! when it returns. Names resolve in the local bindings first, newest first,
//! then in the environment. Calls nest at most `fuel` deep.

use vstd::prelude::*;
use crate::ast::{
    model, entries_model, lemma_entries_model, copy_value, Builtin, Expr, FunctionBody, FunctionDef,
    Statement, UnaryOperator, Val, Value, ValueMap,
};
use crate::environment::{lookup_spec, same_text, Environment};
use crate::ops::{
    binary_spec, builtin_spec, call_builtin, binary_values, concat, error, is_truthy, negate,
    neg_spec, result_model, truthy,
};
use crate::text::{nat_text, nat_to_text};

verus! {

broadcast use vstd::std_specs::vec::axiom_vec_index_decreases;

/// How deeply user-function calls may nest.
pub const MAX_CALL_DEPTH: u64 = 64;

pub const MSG_DEPTH: &'static str = "Maximum call depth exceeded";
pub const MSG_NO_AGENT: &'static str = "Agent object not available in context";

/// Local bindings as the language sees them, oldest first.
pub open spec fn bindings(l: Seq<(String, Value)>) -> Seq<(Seq<char>, Val)> {
    entries_model(l, l.len() as nat)
}

/// The newest local binding of `k`.
pub open spec fn local_find(ls: Seq<(Seq<char>, Val)>, k: Seq<char>) -> Option<Val>
    decreases ls.len(),
{
    if ls.len() == 0 {
        None
    } else if ls.last().0 == k {
        Some(ls.last().1)
    } else {
        local_find(ls.drop_last(), k)
    }
}

/// What a name stands for: its newest local binding, else its binding in the
/// environment.
pub open spec fn resolve(env: Seq<ValueMap>, ls: Seq<(Seq<char>, Val)>, k: Seq<char>) -> Option<Val> {
    match local_find(ls, k) {
        Some(v) => Some(v),
        None => match lookup_spec(env, k) {
            Some(v) => Some(model(v)),
            None => None,
        },
    }
}

/// The first entry of a map model with key `k`.
pub open spec fn dict_find(m: Seq<(Seq<char>, Val)>, k: Seq<char>) -> Option<Val>
    decreases m.len(),
{
    if m.len() == 0 {
        None
    } else if m[0].0 == k {
        Some(m[0].1)
    } else {
        dict_find(m.subrange(1, m.len() as int), k)
    }
}

pub open spec fn is_case_field(p: Seq<char>) -> bool {
    p == "id"@ || p == "category"@ || p == "status"@ || p == "priority"@ || p == "score"@ || p == "customer"@
}

pub open spec fn msg_undefined(n: Seq<char>) -> Seq<char> {
    "Undefined variable: "@ + n
}

pub open spec fn msg_unknown_fn(n: Seq<char>) -> Seq<char> {
    "Unknown function: "@ + n
}

pub open spec fn msg_not_fn(n: Seq<char>) -> Seq<char> {
    "'"@ + n + "' is not a function"@
}

pub open spec fn msg_arity(n: Seq<char>, want: nat, got: nat) -> Seq<char> {
    "Function '"@ + n + "' expects "@ + nat_text(want) + " arguments, got "@ + nat_text(got)
}

pub open spec fn msg_no_property(o: Seq<char>, p: Seq<char>) -> Seq<char> {
    "Property '"@ + p + "' not found on object '"@ + o + "'"@
}

pub open spec fn msg_not_object(o: Seq<char>, p: Seq<char>) -> Seq<char> {
    "Cannot access property '"@ + p + "' on object '"@ + o + "' of this type"@
}

pub open spec fn msg_case_missing(p: Seq<char>) -> Seq<char> {
    "Case "@ + p + " not available"@
}

pub open spec fn msg_case_unknown(p: Seq<char>) -> Seq<char> {
    "Unknown case property: "@ + p
}

pub open spec fn msg_unknown_object(o: Seq<char>) -> Seq<char> {
    "Unknown object: "@ + o
}

/// `o.p`: a property of a map, or a field of the current record.
pub open spec fn member_spec(env: Seq<ValueMap>, ls: Seq<(Seq<char>, Val)>, o: Seq<char>, p: Seq<char>) -> Result<Val, Seq<char>> {
    match resolve(env, ls, o) {
        Some(Val::Dict(m)) => match dict_find(m, p) {
            Some(v) => Ok(v),
            None => Err(msg_no_property(o, p)),
        },
        Some(_) => Err(msg_not_object(o, p)),
        None => if o == "case"@ {
            if is_case_field(p) {
                match resolve(env, ls, p) {
                    Some(v) => Ok(v),
                    None => Err(msg_case_missing(p)),
                }
            } else {
                Err(msg_case_unknown(p))
            }
        } else if o == "agent"@ {
            Err(MSG_NO_AGENT@)
        } else {
            Err(msg_unknown_object(o))
        },
    }
}

/// The local bindings inside a call: the caller's, then one per parameter.
pub open spec fn bind_params(ls: Seq<(Seq<char>, Val)>, params: Seq<String>, args: Seq<Val>) -> Seq<(Seq<char>, Val)> {
    ls + Seq::new(params.len(), |i: int| (params[i]@, args[i]))
}

/// How a block of statements ended.
pub enum Outcome {
    Normal(Val),
    Return(Val),
}

pub open spec fn outcome_value(o: Outcome) -> Val {
    match o {
        Outcome::Normal(v) => v,
        Outcome::Return(v) => v,
    }
}

/// Size of an expression, a measure for evaluation.
pub open spec fn expr_size(e: Expr) -> nat
    decreases e, 0nat,
{
    match e {
        Expr::BinaryOp { left, op, right } => expr_size(*left) + expr_size(*right) + 1,
        Expr::UnaryOp { op, expr } => expr_size(*expr) + 1,
        Expr::FunctionCall { name, args } => exprs_size(args, args.len() as nat) + 1,
        Expr::List(items) => exprs_size(items, items.len() as nat) + 1,
        _ => 1,
    }
}

/// Total size of the first `n` expressions.
pub open spec fn exprs_size(v: Vec<Expr>, n: nat) -> nat
    decreases v, n,
{
    if n == 0 || n > v.len() {
        0
    } else {
        exprs_size(v, (n - 1) as nat) + expr_size(v[n - 1]) + 1
    }
}

pub open spec fn stmt_size(s: Statement) -> nat
    decreases s, 0int,
{
    match s {
        Statement::Let { name, value } => expr_size(value) + 1,
        Statement::Assign { name, value } => expr_size(value) + 1,
        Statement::If { condition, then_body, else_body } => expr_size(condition) + stmts_rest(then_body, 0) + match else_body {
            Some(b) => stmts_rest(b, 0),
            None => 0,
        } + 1,
        Statement::Return(e) => expr_size(e) + 1,
        Statement::Expression(e) => expr_size(e) + 1,
    }
}

/// Total size of the statements from index `i` on.
pub open spec fn stmts_rest(v: Vec<Statement>, i: nat) -> nat
    decreases v, v.len() - i,
{
    if i >= v.len() {
        0
    } else {
        stmt_size(v[i as int]) + stmts_rest(v, i + 1) + 1
    }
}

pub open spec fn body_size(f: FunctionDef) -> nat {
    match f.body {
        FunctionBody::Expression(e) => expr_size(e) + 1,
        FunctionBody::Block(s) => stmts_rest(s, 0) + 1,
    }
}

pub proof fn lemma_exprs_size(v: Vec<Expr>, n: nat, i: int)
    requires
        0 <= i < n <= v.len(),
    ensures
        expr_size(v[i]) < exprs_size(v, n),
    decreases n,
{
    if i < n - 1 {
        lemma_exprs_size(v, (n - 1) as nat, i);
    }
}

pub proof fn lemma_stmts_rest(v: Vec<Statement>, j: nat, i: int)
    requires
        j <= i < v.len(),
    ensures
        stmt_size(v[i]) < stmts_rest(v, j),
        stmts_rest(v, (i + 1) as nat) < stmts_rest(v, j),
    decreases i - j,
{
    if j < i {
        lemma_stmts_rest(v, j + 1, i);
    }
}

/// The value of `e`.
pub open spec fn eval(env: Seq<ValueMap>, ls: Seq<(Seq<char>, Val)>, e: Expr, fuel: nat) -> Result<Val, Seq<char>>
    decreases fuel, expr_size(e),
{
    match e {
        Expr::Number(n) => Ok(Val::Number(n)),
        Expr::String(s) => Ok(Val::Str(s@)),
        Expr::Bool(b) => Ok(Val::Bool(b)),
        Expr::Ident(name) => match resolve(env, ls, name@) {
            Some(v) => Ok(v),
            None => Err(msg_undefined(name@)),
        },
        Expr::List(items) => match eval_list(env, ls, items, items.len() as nat, fuel) {
            Ok(vs) => Ok(Val::List(vs)),
            Err(m) => Err(m),
        },
        Expr::BinaryOp { left, op, right } => match eval(env, ls, *left, fuel) {
            Err(m) => Err(m),
            Ok(a) => match eval(env, ls, *right, fuel) {
                Err(m) => Err(m),
                Ok(b) => binary_spec(op, a, b),
            },
        },
        Expr::UnaryOp { op, expr } => match eval(env, ls, *expr, fuel) {
            Err(m) => Err(m),
            Ok(a) => match op {
                UnaryOperator::Neg => neg_spec(a),
                UnaryOperator::Not => Ok(Val::Bool(!truthy(a))),
            },
        },
        Expr::MemberAccess { object, property } => member_spec(env, ls, object@, property@),
        Expr::FunctionCall { name, args } => match eval_list(env, ls, args, args.len() as nat, fuel) {
            Err(m) => Err(m),
            Ok(vs) => match local_find(ls, name@) {
                Some(Val::Builtin(b)) => builtin_spec(b, vs),
                Some(_) => Err(msg_not_fn(name@)),
                None => match lookup_spec(env, name@) {
                    Some(Value::BuiltinFunction(b)) => builtin_spec(b, vs),
                    Some(Value::UserFunction(f)) => if vs.len() != f.params.len() {
                        Err(msg_arity(f.name@, f.params.len() as nat, vs.len()))
                    } else if fuel == 0 {
                        Err(MSG_DEPTH@)
                    } else {
                        let inner = bind_params(ls, f.params@, vs);
                        match f.body {
                            FunctionBody::Expression(body) => eval(env, inner, body, (fuel - 1) as nat),
                            FunctionBody::Block(stmts) => match block(env, inner, stmts, 0, Val::Null, (fuel - 1) as nat) {
                                Err(m) => Err(m),
                                Ok(r) => Ok(outcome_value(r.0)),
                            },
                        }
                    },
                    Some(_) => Err(msg_not_fn(name@)),
                    None => Err(msg_unknown_fn(name@)),
                },
            },
        },
    }
}

/// The values of the first `n` items, evaluated left to right.
pub open spec fn eval_list(env: Seq<ValueMap>, ls: Seq<(Seq<char>, Val)>, items: Vec<Expr>, n: nat, fuel: nat) -> Result<Seq<Val>, Seq<char>>
    decreases fuel, exprs_size(items, n),
{
    if n == 0 || n > items.len() {
        Ok(Seq::empty())
    } else {
        match eval_list(env, ls, items, (n - 1) as nat, fuel) {
            Err(m) => Err(m),
            Ok(vs) => match eval(env, ls, items[n - 1], fuel) {
                Err(m) => Err(m),
                Ok(v) => Ok(vs.push(v)),
            },
        }
    }
}

/// Runs `stmts` from index `i` on, with `last` the value of the last
/// expression statement so far; gives how the block ended and the local
/// bindings after it.
pub open spec fn block(env: Seq<ValueMap>, ls: Seq<(Seq<char>, Val)>, stmts: Vec<Statement>, i: nat, last: Val, fuel: nat) -> Result<(Outcome, Seq<(Seq<char>, Val)>), Seq<char>>
    decreases fuel, stmts_rest(stmts, i),
{
    if i >= stmts.len() {
        Ok((Outcome::Normal(last), ls))
    } else {
        proof { lemma_stmts_rest(stmts, i, i as int); }
        match stmts[i as int] {
            Statement::Let { name, value } => match eval(env, ls, value, fuel) {
                Err(m) => Err(m),
                Ok(v) => block(env, ls.push((name@, v)), stmts, i + 1, last, fuel),
            },
            Statement::Assign { name, value } => match eval(env, ls, value, fuel) {
                Err(m) => Err(m),
                Ok(v) => block(env, ls.push((name@, v)), stmts, i + 1, last, fuel),
            },
            Statement::If { condition, then_body, else_body } => match eval(env, ls, condition, fuel) {
                Err(m) => Err(m),
                Ok(c) => {
                    let chosen = if truthy(c) { Some(then_body) } else { else_body };
                    match chosen {
                        None => block(env, ls, stmts, i + 1, last, fuel),
                        Some(body) => match block(env, ls, body, 0, Val::Null, fuel) {
                            Err(m) => Err(m),
                            Ok((Outcome::Return(v), ls2)) => Ok((Outcome::Return(v), ls2)),
                            Ok((Outcome::Normal(v), ls2)) => block(env, ls2, stmts, i + 1, v, fuel),
                        },
                    }
                },
            },
            Statement::Return(e) => match eval(env, ls, e, fuel) {
                Err(m) => Err(m),
                Ok(v) => Ok((Outcome::Return(v), ls)),
            },
            Statement::Expression(e) => match eval(env, ls, e, fuel) {
                Err(m) => Err(m),
                Ok(v) => block(env, ls, stmts, i + 1, v, fuel),
            },
        }
    }
}

/// Once a prefix of the items fails, the whole list fails the same way.
pub proof fn lemma_list_err(env: Seq<ValueMap>, ls: Seq<(Seq<char>, Val)>, items: Vec<Expr>, k: nat, n: nat, fuel: nat)
    requires
        k <= n <= items.len(),
        eval_list(env, ls, items, k, fuel) is Err,
    ensures
        eval_list(env, ls, items, n, fuel) == eval_list(env, ls, items, k, fuel),
    decreases n,
{
    if n > k {
        lemma_list_err(env, ls, items, k, (n - 1) as nat, fuel);
    }
}

pub proof fn lemma_bindings_push(before: Vec<(String, Value)>, after: Vec<(String, Value)>, k: String, v: Value)
    requires
        after@ == before@.push((k, v)),
    ensures
        bindings(after@) == bindings(before@).push((k@, model(v))),
{
    lemma_entries_model(before@, before.len() as nat);
    lemma_entries_model(after@, after.len() as nat);
    assert(bindings(after@) =~= bindings(before@).push((k@, model(v))));
}

/// The newest local binding of `name`.
fn local_lookup<'a>(locals: &'a Vec<(String, Value)>, name: &str) -> (r: Option<&'a Value>)
    ensures
        match r {
            Some(v) => local_find(bindings(locals@), name@) == Some(model(*v)),
            None => local_find(bindings(locals@), name@) is None,
        },
{
    proof { lemma_entries_model(locals@, locals.len() as nat); }
    let ghost all = bindings(locals@);
    let mut i: usize = locals.len();
    assert(all.subrange(0, i as int) =~= all);
    while i > 0
        invariant
            i <= locals.len(),
            all == bindings(locals@),
            all =~= Seq::new(locals.len() as nat, |j: int| (locals[j].0@, model(locals[j].1))),
            local_find(all, name@) == local_find(all.subrange(0, i as int), name@),
        decreases i,
    {
        let ghost pre = all.subrange(0, i as int);
        assert(pre.drop_last() =~= all.subrange(0, i - 1));
        if same_text(locals[i - 1].0.as_str(), name) {
            return Some(&locals[i - 1].1);
        }
        i = i - 1;
    }
    None
}

/// What `name` stands for, borrowed from where it is bound.
fn resolve_ref<'a>(env: &'a Environment, locals: &'a Vec<(String, Value)>, name: &str) -> (r: Option<&'a Value>)
    requires
        env.wf(),
    ensures
        match r {
            Some(v) => resolve(env.env@, bindings(locals@), name@) == Some(model(*v)),
            None => resolve(env.env@, bindings(locals@), name@) is None,
        },
{
    match local_lookup(locals, name) {
        Some(v) => Some(v),
        None => env.lookup(name),
    }
}

fn dict_get<'a>(m: &'a ValueMap, key: &str) -> (r: Option<&'a Value>)
    ensures
        match r {
            Some(v) => dict_find(entries_model(m.entries@, m.entries.len() as nat), key@) == Some(model(*v)),
            None => dict_find(entries_model(m.entries@, m.entries.len() as nat), key@) is None,
        },
{
    proof { lemma_entries_model(m.entries@, m.entries.len() as nat); }
    let ghost all = entries_model(m.entries@, m.entries.len() as nat);
    let mut i: usize = 0;
    assert(all.subrange(0, all.len() as int) =~= all);
    while i < m.entries.len()
        invariant
            i <= m.entries.len(),
            all == entries_model(m.entries@, m.entries.len() as nat),
            all =~= Seq::new(m.entries.len() as nat, |j: int| (m.entries[j].0@, model(m.entries[j].1))),
            dict_find(all, key@) == dict_find(all.subrange(i as int, all.len() as int), key@),
        decreases m.entries.len() - i,
    {
        let ghost rest = all.subrange(i as int, all.len() as int);
        assert(rest.subrange(1, rest.len() as int) =~= all.subrange(i + 1, all.len() as int));
        if same_text(m.entries[i].0.as_str(), key) {
            return Some(&m.entries[i].1);
        }
        i = i + 1;
    }
    None
}

pub fn is_case_field_name(p: &str) -> (r: bool)
    ensures
        r == is_case_field(p@),
{
    same_text(p, "id") || same_text(p, "category") || same_text(p, "status") || same_text(p, "priority")
        || same_text(p, "score") || same_text(p, "customer")
}

fn member_access(env: &Environment, locals: &Vec<(String, Value)>, object: &str, property: &str) -> (r: Result<Value, String>)
    requires
        env.wf(),
    ensures
        result_model(r) == member_spec(env.env@, bindings(locals@), object@, property@),
{
    match resolve_ref(env, locals, object) {
        Some(Value::Dict(m)) => match dict_get(m, property) {
            Some(v) => Ok(copy_value(v)),
            None => {
                let a = concat("Property '", property);
                let b = concat(a.as_str(), "' not found on object '");
                let c = concat(b.as_str(), object);
                Err(concat(c.as_str(), "'"))
            },
        },
        Some(_) => {
            let a = concat("Cannot access property '", property);
            let b = concat(a.as_str(), "' on object '");
            let c = concat(b.as_str(), object);
            Err(concat(c.as_str(), "' of this type"))
        },
        None => {
            if same_text(object, "case") {
                if is_case_field_name(property) {
                    match resolve_ref(env, locals, property) {
                        Some(v) => Ok(copy_value(v)),
                        None => {
                            let a = concat("Case ", property);
                            Err(concat(a.as_str(), " not available"))
                        },
                    }
                } else {
                    Err(concat("Unknown case property: ", property))
                }
            } else if same_text(object, "agent") {
                error(MSG_NO_AGENT)
            } else {
                Err(concat("Unknown object: ", object))
            }
        },
    }
}

fn arity_message(name: &str, want: usize, got: usize) -> (r: String)
    ensures
        r@ == msg_arity(name@, want as nat, got as nat),
{
    let a = concat("Function '", name);
    let b = concat(a.as_str(), "' expects ");
    let w = nat_to_text(want as u64);
    let c = concat(b.as_str(), w.as_str());
    let d = concat(c.as_str(), " arguments, got ");
    let g = nat_to_text(got as u64);
    concat(d.as_str(), g.as_str())
}

/// Evaluates `e`.
pub fn eval_expr(env: &Environment, locals: &mut Vec<(String, Value)>, e: &Expr, fuel: u64) -> (r: Result<Value, String>)
    requires
        env.wf(),
    ensures
        final(locals)@ == old(locals)@,
        result_model(r) == eval(env.env@, bindings(old(locals)@), *e, fuel as nat),
    decreases fuel, expr_size(*e),
{
    match e {
        Expr::Number(n) => Ok(Value::Number(*n)),
        Expr::String(s) => Ok(Value::String(s.clone())),
        Expr::Bool(b) => Ok(Value::Bool(*b)),
        Expr::Ident(name) => match resolve_ref(env, locals, name.as_str()) {
            Some(v) => Ok(copy_value(v)),
            None => Err(concat("Undefined variable: ", name.as_str())),
        },
        Expr::List(items) => match eval_args(env, locals, items, fuel) {
            Ok(vs) => {
                proof { crate::ast::lemma_list_model(vs@, vs.len() as nat); }
                Ok(Value::List(vs))
            },
            Err(m) => Err(m),
        },
        Expr::BinaryOp { left, op, right } => {
            let a = match eval_expr(env, locals, left, fuel) {
                Ok(v) => v,
                Err(m) => return Err(m),
            };
            let b = match eval_expr(env, locals, right, fuel) {
                Ok(v) => v,
                Err(m) => return Err(m),
            };
            binary_values(*op, a, b)
        },
        Expr::UnaryOp { op, expr } => {
            let a = match eval_expr(env, locals, expr, fuel) {
                Ok(v) => v,
                Err(m) => return Err(m),
            };
            match op {
                UnaryOperator::Neg => negate(a),
                UnaryOperator::Not => Ok(Value::Bool(!is_truthy(&a))),
            }
        },
        Expr::MemberAccess { object, property } => member_access(env, locals, object.as_str(), property.as_str()),
        Expr::FunctionCall { name, args } => {
            let vs = match eval_args(env, locals, args, fuel) {
                Ok(vs) => vs,
                Err(m) => return Err(m),
            };
            proof { crate::ast::lemma_list_model(vs@, vs.len() as nat); }
            match local_lookup(locals, name.as_str()) {
                Some(Value::BuiltinFunction(b)) => {
                    return call_builtin(*b, &vs);
                },
                Some(_) => {
                    let a = concat("'", name.as_str());
                    return Err(concat(a.as_str(), "' is not a function"));
                },
                None => {},
            }
            match env.lookup(name.as_str()) {
                Some(Value::BuiltinFunction(b)) => call_builtin(*b, &vs),
                Some(Value::UserFunction(f)) => {
                    if vs.len() != f.params.len() {
                        return Err(arity_message(f.name.as_str(), f.params.len(), vs.len()));
                    }
                    if fuel == 0 {
                        return error(MSG_DEPTH);
                    }
                    call_user(env, locals, f, vs, fuel - 1)
                },
                Some(_) => {
                    let a = concat("'", name.as_str());
                    Err(concat(a.as_str(), "' is not a function"))
                },
                None => Err(concat("Unknown function: ", name.as_str())),
            }
        },
    }
}

/// Runs the body of `f` with its parameters bound to `args`.
fn call_user(env: &Environment, locals: &mut Vec<(String, Value)>, f: &FunctionDef, args: Vec<Value>, fuel: u64) -> (r: Result<Value, String>)
    requires
        env.wf(),
        args.len() == f.params.len(),
    ensures
        final(locals)@ == old(locals)@,
        result_model(r) == ({
            let inner = bind_params(bindings(old(locals)@), f.params@, crate::ast::list_model(args@, args.len() as nat));
            match f.body {
                FunctionBody::Expression(body) => eval(env.env@, inner, body, fuel as nat),
                FunctionBody::Block(stmts) => match block(env.env@, inner, stmts, 0, Val::Null, fuel as nat) {
                    Err(m) => Err(m),
                    Ok(r) => Ok(outcome_value(r.0)),
                },
            }
        }),
    decreases fuel, body_size(*f),
{
    proof {
        crate::ast::lemma_list_model(args@, args.len() as nat);
        lemma_entries_model(locals@, locals.len() as nat);
    }
    let ghost start = *locals;
    let ghost argm = crate::ast::list_model(args@, args.len() as nat);
    let base = locals.len();
    let mut i: usize = 0;
    while i < args.len()
        invariant
            i <= args.len(),
            args.len() == f.params.len(),
            argm =~= Seq::new(args.len() as nat, |j: int| model(args[j])),
            locals@.len() == base + i,
            locals@.subrange(0, base as int) == start@,
            bindings(locals@) == bind_params(bindings(start@), f.params@.subrange(0, i as int), argm.subrange(0, i as int)),
        decreases args.len() - i,
    {
        let ghost before = *locals;
        let p = f.params[i].clone();
        let v = copy_value(&args[i]);
        let ghost pg = p;
        let ghost vg = v;
        locals.push((p, v));
        proof {
            lemma_bindings_push(before, *locals, pg, vg);
            assert(bind_params(bindings(start@), f.params@.subrange(0, i + 1), argm.subrange(0, i + 1))
                =~= bind_params(bindings(start@), f.params@.subrange(0, i as int), argm.subrange(0, i as int)).push((pg@, model(vg))));
        }
        assert(locals@.subrange(0, base as int) =~= before@.subrange(0, base as int));
        i = i + 1;
    }
    assert(f.params@.subrange(0, i as int) =~= f.params@);
    assert(argm.subrange(0, i as int) =~= argm);
    let r = match &f.body {
        FunctionBody::Expression(body) => eval_expr(env, locals, body, fuel),
        FunctionBody::Block(stmts) => match eval_block(env, locals, stmts, fuel) {
            Ok(Flow::Normal(v)) => Ok(v),
            Ok(Flow::Return(v)) => Ok(v),
            Err(m) => Err(m),
        },
    };
    locals.truncate(base);
    assert(locals@ =~= start@);
    r
}

/// Evaluates `items` left to right.
fn eval_args(env: &Environment, locals: &mut Vec<(String, Value)>, items: &Vec<Expr>, fuel: u64) -> (r: Result<Vec<Value>, String>)
    requires
        env.wf(),
    ensures
        final(locals)@ == old(locals)@,
        match r {
            Ok(vs) => eval_list(env.env@, bindings(old(locals)@), *items, items.len() as nat, fuel as nat)
                == Ok::<Seq<Val>, Seq<char>>(crate::ast::list_model(vs@, vs.len() as nat)),
            Err(m) => eval_list(env.env@, bindings(old(locals)@), *items, items.len() as nat, fuel as nat)
                == Err::<Seq<Val>, Seq<char>>(m@),
        },
    decreases fuel, exprs_size(*items, items.len() as nat),
{
    let mut vs: Vec<Value> = Vec::new();
    let mut i: usize = 0;
    while i < items.len()
        invariant
            i <= items.len(),
            locals@ == old(locals)@,
            env.wf(),
            eval_list(env.env@, bindings(old(locals)@), *items, i as nat, fuel as nat)
                == Ok::<Seq<Val>, Seq<char>>(crate::ast::list_model(vs@, vs.len() as nat)),
            vs.len() == i,
        decreases items.len() - i,
    {
        let ghost before = vs;
        proof { lemma_exprs_size(*items, items.len() as nat, i as int); }
        match eval_expr(env, locals, &items[i], fuel) {
            Ok(v) => {
                let ghost vg = v;
                vs.push(v);
                proof {
                    crate::ast::lemma_list_model(before@, before.len() as nat);
                    crate::ast::lemma_list_model(vs@, vs.len() as nat);
                    assert(crate::ast::list_model(vs@, vs.len() as nat)
                        =~= crate::ast::list_model(before@, before.len() as nat).push(model(vg)));
                }
            },
            Err(m) => {
                proof { lemma_list_err(env.env@, bindings(old(locals)@), *items, (i + 1) as nat, items.len() as nat, fuel as nat); }
                return Err(m);
            },
        }
        i = i + 1;
    }
    Ok(vs)
}

/// How a block of statements ended, with the value it ended with.
pub enum Flow {
    Normal(Value),
    Return(Value),
}

pub open spec fn flow_model(f: Flow) -> Outcome {
    match f {
        Flow::Normal(v) => Outcome::Normal(model(v)),
        Flow::Return(v) => Outcome::Return(model(v)),
    }
}

/// Runs the statements of a block; the bindings they make stay on `locals`.
fn eval_block(env: &Environment, locals: &mut Vec<(String, Value)>, stmts: &Vec<Statement>, fuel: u64) -> (r: Result<Flow, String>)
    requires
        env.wf(),
    ensures
        final(locals)@.len() >= old(locals)@.len(),
        final(locals)@.subrange(0, old(locals)@.len() as int) == old(locals)@,
        match r {
            Ok(f) => block(env.env@, bindings(old(locals)@), *stmts, 0, Val::Null, fuel as nat)
                == Ok::<(Outcome, Seq<(Seq<char>, Val)>), Seq<char>>((flow_model(f), bindings(final(locals)@))),
            Err(m) => block(env.env@, bindings(old(locals)@), *stmts, 0, Val::Null, fuel as nat)
                == Err::<(Outcome, Seq<(Seq<char>, Val)>), Seq<char>>(m@),
        },
    decreases fuel, stmts_rest(*stmts, 0),
{
    let ghost start = *locals;
    let ghost total = block(env.env@, bindings(start@), *stmts, 0, Val::Null, fuel as nat);
    let mut last = Value::Null;
    let mut i: usize = 0;
    while i < stmts.len()
        invariant
            i <= stmts.len(),
            env.wf(),
            start == *old(locals),
            total == block(env.env@, bindings(start@), *stmts, 0, Val::Null, fuel as nat),
            total == block(env.env@, bindings(locals@), *stmts, i as nat, model(last), fuel as nat),
            locals@.len() >= start@.len(),
            locals@.subrange(0, start@.len() as int) == start@,
        decreases stmts.len() - i,
    {
        let ghost before = *locals;
        proof { lemma_stmts_rest(*stmts, 0, i as int); }
        match &stmts[i] {
            Statement::Let { name, value } | Statement::Assign { name, value } => {
                match eval_expr(env, locals, value, fuel) {
                    Ok(v) => {
                        let n = name.clone();
                        let ghost ng = n;
                        let ghost vg = v;
                        locals.push((n, v));
                        proof { lemma_bindings_push(before, *locals, ng, vg); }
                        assert(locals@.subrange(0, start@.len() as int) =~= before@.subrange(0, start@.len() as int));
                    },
                    Err(m) => return Err(m),
                }
            },
            Statement::If { condition, then_body, else_body } => {
                let c = match eval_expr(env, locals, condition, fuel) {
                    Ok(c) => c,
                    Err(m) => return Err(m),
                };
                let chosen: Option<&Vec<Statement>> = if is_truthy(&c) {
                    Some(then_body)
                } else {
                    match else_body {
                        Some(b) => Some(b),
                        None => None,
                    }
                };
                match chosen {
                    None => {},
                    Some(body) => {
                        let ghost mid = *locals;
                        match eval_block(env, locals, body, fuel) {
                            Ok(Flow::Return(v)) => {
                                assert(locals@.subrange(0, start@.len() as int) =~= mid@.subrange(0, start@.len() as int)) by {
                                    assert(locals@.subrange(0, mid@.len() as int) == mid@);
                                };
                                return Ok(Flow::Return(v));
                            },
                            Ok(Flow::Normal(v)) => {
                                last = v;
                                assert(locals@.subrange(0, start@.len() as int) =~= mid@.subrange(0, start@.len() as int)) by {
                                    assert(locals@.subrange(0, mid@.len() as int) == mid@);
                                };
                            },
                            Err(m) => return Err(m),
                        }
                    },
                }
            },
            Statement::Return(e) => {
                return match eval_expr(env, locals, e, fuel) {
                    Ok(v) => Ok(Flow::Return(v)),
                    Err(m) => Err(m),
                };
            },
            Statement::Expression(e) => {
                match eval_expr(env, locals, e, fuel) {
                    Ok(v) => {
                        last = v;
                    },
                    Err(m) => return Err(m),
                }
            },
        }
        i = i + 1;
    }
    Ok(Flow::Normal(last))
}

} // verus!
