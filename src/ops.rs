//! What the operators and built-in functions do to values.

use vstd::prelude::*;
use crate::ast::{
    model, list_model, entries_model, names_model, lemma_list_model, lemma_entries_model,
    Builtin, BinaryOperator, Val, Value,
};

verus! {

broadcast use vstd::std_specs::vec::axiom_vec_index_decreases;

pub const MSG_OVERFLOW: &'static str = "Integer overflow";
pub const MSG_ADD: &'static str = "Cannot add these types";
pub const MSG_SUB: &'static str = "Cannot subtract non-numbers";
pub const MSG_MUL: &'static str = "Cannot multiply non-numbers";
pub const MSG_DIV: &'static str = "Cannot divide non-numbers";
pub const MSG_DIV_ZERO: &'static str = "Division by zero";
pub const MSG_COMPARE: &'static str = "Cannot compare non-numbers";
pub const MSG_NEGATE: &'static str = "Cannot negate non-number";
pub const MSG_IN_LEFT: &'static str = "'in' operation with string requires string on left side";
pub const MSG_IN_RIGHT: &'static str = "'in' operation requires list or string on right side";
pub const MSG_LEN_ARITY: &'static str = "len() takes exactly 1 argument";
pub const MSG_LEN_TYPE: &'static str = "len() can only be applied to lists or strings";
pub const MSG_MAX_ARITY: &'static str = "max() requires at least 1 argument";
pub const MSG_MAX_TYPE: &'static str = "max() can only be applied to numbers";
pub const MSG_MIN_ARITY: &'static str = "min() requires at least 1 argument";
pub const MSG_MIN_TYPE: &'static str = "min() can only be applied to numbers";
pub const MSG_CONTAINS_ARITY: &'static str = "contains() takes exactly 2 arguments";
pub const MSG_CONTAINS_TYPE: &'static str = "contains() first argument must be a list or string";

/// Equality of values as `==`, `!=`, `in` and `contains` use it: lists
/// item by item, maps by their keys and the values under them, anything else
/// structurally.
pub open spec fn val_eq(a: Val, b: Val) -> bool
    decreases a, 0nat,
{
    match (a, b) {
        (Val::List(x), Val::List(y)) => x.len() == y.len() && seq_eq(x, y, x.len()),
        (Val::Dict(x), Val::Dict(y)) => x.len() == y.len() && dict_in(x, y, x.len()),
        _ => a == b,
    }
}

/// The first `n` items of `x` and `y` are pairwise equal.
pub open spec fn seq_eq(x: Seq<Val>, y: Seq<Val>, n: nat) -> bool
    decreases x, n,
{
    if n == 0 {
        true
    } else if n > x.len() || n > y.len() {
        false
    } else {
        seq_eq(x, y, (n - 1) as nat) && val_eq(x[n - 1], y[n - 1])
    }
}

/// Each of the first `n` entries of `x` has an entry in `y` with its key and an equal value.
pub open spec fn dict_in(x: Seq<(Seq<char>, Val)>, y: Seq<(Seq<char>, Val)>, n: nat) -> bool
    decreases x, n,
{
    if n == 0 {
        true
    } else if n > x.len() {
        false
    } else {
        dict_in(x, y, (n - 1) as nat) && dict_has(y, x[n - 1].0, x[n - 1].1, y.len())
    }
}

/// One of the first `m` entries of `y` has key `k` and a value equal to `v`.
pub open spec fn dict_has(y: Seq<(Seq<char>, Val)>, k: Seq<char>, v: Val, m: nat) -> bool
    decreases v, m + 1,
{
    if m == 0 || m > y.len() {
        false
    } else {
        dict_has(y, k, v, (m - 1) as nat) || (y[m - 1].0 == k && val_eq(v, y[m - 1].1))
    }
}

/// Some item of `l` equals `v`.
pub open spec fn list_has(l: Seq<Val>, v: Val) -> bool {
    exists|i: int| 0 <= i < l.len() && val_eq(v, #[trigger] l[i])
}

pub proof fn lemma_seq_eq(x: Seq<Val>, y: Seq<Val>, n: nat)
    requires
        n <= x.len(),
        n <= y.len(),
    ensures
        seq_eq(x, y, n) <==> forall|j: int| 0 <= j < n ==> val_eq(#[trigger] x[j], y[j]),
    decreases n,
{
    if n > 0 {
        lemma_seq_eq(x, y, (n - 1) as nat);
    }
}

pub proof fn lemma_dict_in(x: Seq<(Seq<char>, Val)>, y: Seq<(Seq<char>, Val)>, n: nat)
    requires
        n <= x.len(),
    ensures
        dict_in(x, y, n) <==> forall|j: int| 0 <= j < n ==> dict_has(y, (#[trigger] x[j]).0, x[j].1, y.len()),
    decreases n,
{
    if n > 0 {
        lemma_dict_in(x, y, (n - 1) as nat);
    }
}

pub proof fn lemma_dict_has(y: Seq<(Seq<char>, Val)>, k: Seq<char>, v: Val, m: nat)
    requires
        m <= y.len(),
    ensures
        dict_has(y, k, v, m) <==> exists|j: int| 0 <= j < m && (#[trigger] y[j]).0 == k && val_eq(v, y[j].1),
    decreases m,
{
    if m > 0 {
        lemma_dict_has(y, k, v, (m - 1) as nat);
    }
}

/// The model of an evaluation result: a value, or an error message.
pub open spec fn result_model(r: Result<Value, String>) -> Result<Val, Seq<char>> {
    match r {
        Ok(v) => Ok(model(v)),
        Err(e) => Err(e@),
    }
}

pub open spec fn truthy(v: Val) -> bool {
    match v {
        Val::Bool(b) => b,
        Val::Number(n) => n != 0,
        Val::Str(s) => s.len() > 0,
        Val::List(l) => l.len() > 0,
        Val::Null => false,
        Val::Dict(m) => m.len() > 0,
        Val::Builtin(_) => true,
        Val::UserFn(_, _) => true,
    }
}

/// `t` occurs in `s` as a run of consecutive characters.
pub open spec fn has_sub(s: Seq<char>, t: Seq<char>) -> bool {
    exists|i: int| 0 <= i && i + t.len() <= s.len() && #[trigger] s.subrange(i, i + t.len()) == t
}

pub open spec fn in_spec(item: Val, container: Val) -> Result<Val, Seq<char>> {
    match container {
        Val::List(l) => Ok(Val::Bool(list_has(l, item))),
        Val::Str(s) => match item {
            Val::Str(t) => Ok(Val::Bool(has_sub(s, t))),
            _ => Err(MSG_IN_LEFT@),
        },
        _ => Err(MSG_IN_RIGHT@),
    }
}

pub open spec fn compare_spec(op: BinaryOperator, a: i64, b: i64) -> bool {
    match op {
        BinaryOperator::Lt => a < b,
        BinaryOperator::Le => a <= b,
        BinaryOperator::Gt => a > b,
        _ => a >= b,
    }
}

pub open spec fn checked(r: Option<i64>) -> Result<Val, Seq<char>> {
    match r {
        Some(n) => Ok(Val::Number(n)),
        None => Err(MSG_OVERFLOW@),
    }
}

/// The result of `a op b`, where both operands have already been evaluated.
pub open spec fn binary_spec(op: BinaryOperator, a: Val, b: Val) -> Result<Val, Seq<char>> {
    match op {
        BinaryOperator::Add => match (a, b) {
            (Val::Number(x), Val::Number(y)) => checked(x.checked_add(y)),
            (Val::Str(x), Val::Str(y)) => Ok(Val::Str(x + y)),
            _ => Err(MSG_ADD@),
        },
        BinaryOperator::Sub => match (a, b) {
            (Val::Number(x), Val::Number(y)) => checked(x.checked_sub(y)),
            _ => Err(MSG_SUB@),
        },
        BinaryOperator::Mul => match (a, b) {
            (Val::Number(x), Val::Number(y)) => checked(x.checked_mul(y)),
            _ => Err(MSG_MUL@),
        },
        BinaryOperator::Div => match (a, b) {
            (Val::Number(x), Val::Number(y)) => if y == 0 {
                Err(MSG_DIV_ZERO@)
            } else {
                checked(x.checked_div(y))
            },
            _ => Err(MSG_DIV@),
        },
        BinaryOperator::Eq => Ok(Val::Bool(val_eq(a, b))),
        BinaryOperator::Neq => Ok(Val::Bool(!val_eq(a, b))),
        BinaryOperator::Lt | BinaryOperator::Le | BinaryOperator::Gt | BinaryOperator::Ge => {
            match (a, b) {
                (Val::Number(x), Val::Number(y)) => Ok(Val::Bool(compare_spec(op, x, y))),
                _ => Err(MSG_COMPARE@),
            }
        },
        BinaryOperator::And => if truthy(a) { Ok(b) } else { Ok(a) },
        BinaryOperator::Or => if truthy(a) { Ok(a) } else { Ok(b) },
        BinaryOperator::In => in_spec(a, b),
    }
}

pub open spec fn neg_spec(a: Val) -> Result<Val, Seq<char>> {
    match a {
        Val::Number(x) => checked(0i64.checked_sub(x)),
        _ => Err(MSG_NEGATE@),
    }
}

pub open spec fn all_numbers(s: Seq<Val>) -> bool {
    forall|i: int| 0 <= i < s.len() ==> (#[trigger] s[i]) is Number
}

pub open spec fn num_of(v: Val) -> i64 {
    match v {
        Val::Number(n) => n,
        _ => 0,
    }
}

/// The largest (`want_max`) or smallest number among the first `n` items.
pub open spec fn extreme(s: Seq<Val>, n: nat, want_max: bool) -> i64
    decreases n,
{
    if n <= 1 {
        num_of(s[0])
    } else {
        let rest = extreme(s, (n - 1) as nat, want_max);
        let x = num_of(s[n - 1]);
        if (want_max && x > rest) || (!want_max && x < rest) {
            x
        } else {
            rest
        }
    }
}

/// What a built-in function returns for already evaluated arguments. The
/// length of a string is its number of characters (code points).
pub open spec fn builtin_spec(b: Builtin, args: Seq<Val>) -> Result<Val, Seq<char>> {
    match b {
        Builtin::Len => if args.len() != 1 {
            Err(MSG_LEN_ARITY@)
        } else {
            match args[0] {
                Val::List(l) => Ok(Val::Number(l.len() as i64)),
                Val::Str(s) => Ok(Val::Number(s.len() as i64)),
                _ => Err(MSG_LEN_TYPE@),
            }
        },
        Builtin::Max => if args.len() == 0 {
            Err(MSG_MAX_ARITY@)
        } else if !all_numbers(args) {
            Err(MSG_MAX_TYPE@)
        } else {
            Ok(Val::Number(extreme(args, args.len(), true)))
        },
        Builtin::Min => if args.len() == 0 {
            Err(MSG_MIN_ARITY@)
        } else if !all_numbers(args) {
            Err(MSG_MIN_TYPE@)
        } else {
            Ok(Val::Number(extreme(args, args.len(), false)))
        },
        Builtin::Contains => if args.len() != 2 {
            Err(MSG_CONTAINS_ARITY@)
        } else {
            match (args[0], args[1]) {
                (Val::List(l), v) => Ok(Val::Bool(list_has(l, v))),
                (Val::Str(s), Val::Str(t)) => Ok(Val::Bool(has_sub(s, t))),
                _ => Err(MSG_CONTAINS_TYPE@),
            }
        },
    }
}

pub fn error(msg: &str) -> (r: Result<Value, String>)
    ensures
        result_model(r) == Err::<Val, Seq<char>>(msg@),
{
    Err(msg.to_owned())
}

/// `a` followed by `b`.
pub fn concat(a: &str, b: &str) -> (r: String)
    ensures
        r@ == a@ + b@,
{
    let mut s = a.to_owned();
    s.append(b);
    s
}

pub fn from_checked(r: Option<i64>) -> (out: Result<Value, String>)
    ensures
        result_model(out) == checked(r),
{
    match r {
        Some(n) => Ok(Value::Number(n)),
        None => error(MSG_OVERFLOW),
    }
}

pub fn is_truthy(v: &Value) -> (r: bool)
    ensures
        r == truthy(model(*v)),
{
    proof {
        match v {
            Value::List(l) => lemma_list_model(l@, l.len() as nat),
            Value::Dict(m) => lemma_entries_model(m.entries@, m.entries.len() as nat),
            _ => {},
        }
    }
    match v {
        Value::Bool(b) => *b,
        Value::Number(n) => *n != 0,
        Value::String(s) => s.as_str().unicode_len() > 0,
        Value::List(l) => l.len() > 0,
        Value::Null => false,
        Value::Dict(m) => m.entries.len() > 0,
        Value::BuiltinFunction(_) => true,
        Value::UserFunction(_) => true,
    }
}

fn names_equal(a: &Vec<String>, b: &Vec<String>) -> (r: bool)
    ensures
        r == (names_model(a@) == names_model(b@)),
{
    if a.len() != b.len() {
        assert(names_model(a@).len() != names_model(b@).len());
        return false;
    }
    let mut i: usize = 0;
    while i < a.len()
        invariant
            i <= a.len(),
            a.len() == b.len(),
            forall|j: int| 0 <= j < i ==> a@[j]@ == b@[j]@,
        decreases a.len() - i,
    {
        if a[i] != b[i] {
            assert(names_model(a@)[i as int] != names_model(b@)[i as int]);
            return false;
        }
        i = i + 1;
    }
    assert(names_model(a@) =~= names_model(b@));
    true
}

/// Equality as the language sees it.
pub fn values_equal(a: &Value, b: &Value) -> (r: bool)
    ensures
        r == val_eq(model(*a), model(*b)),
    decreases a, 1nat,
{
    proof {
        match (a, b) {
            (Value::List(x), Value::List(y)) => {
                lemma_list_model(x@, x.len() as nat);
                lemma_list_model(y@, y.len() as nat);
            },
            (Value::Dict(x), Value::Dict(y)) => {
                lemma_entries_model(x.entries@, x.entries.len() as nat);
                lemma_entries_model(y.entries@, y.entries.len() as nat);
            },
            _ => {},
        }
    }
    match (a, b) {
        (Value::Number(x), Value::Number(y)) => *x == *y,
        (Value::String(x), Value::String(y)) => *x == *y,
        (Value::Bool(x), Value::Bool(y)) => *x == *y,
        (Value::Null, Value::Null) => true,
        (Value::List(x), Value::List(y)) => lists_equal(x, y),
        (Value::Dict(x), Value::Dict(y)) => entries_equal(&x.entries, &y.entries),
        (Value::BuiltinFunction(x), Value::BuiltinFunction(y)) => *x == *y,
        (Value::UserFunction(x), Value::UserFunction(y)) => x.name == y.name && names_equal(&x.params, &y.params),
        _ => false,
    }
}

fn lists_equal(x: &Vec<Value>, y: &Vec<Value>) -> (r: bool)
    ensures
        r == (x.len() == y.len() && seq_eq(list_model(x@, x.len() as nat), list_model(y@, y.len() as nat), x.len() as nat)),
    decreases x, 0nat,
{
    proof {
        lemma_list_model(x@, x.len() as nat);
        lemma_list_model(y@, y.len() as nat);
    }
    let ghost lx = list_model(x@, x.len() as nat);
    let ghost ly = list_model(y@, y.len() as nat);
    if x.len() != y.len() {
        return false;
    }
    proof { lemma_seq_eq(lx, ly, x.len() as nat); }
    let mut i: usize = 0;
    while i < x.len()
        invariant
            i <= x.len(),
            x.len() == y.len(),
            lx == list_model(x@, x.len() as nat),
            ly == list_model(y@, y.len() as nat),
            lx =~= Seq::new(x.len() as nat, |j: int| model(x[j])),
            ly =~= Seq::new(y.len() as nat, |j: int| model(y[j])),
            seq_eq(lx, ly, x.len() as nat) <==> forall|j: int| 0 <= j < x.len() ==> val_eq(#[trigger] lx[j], ly[j]),
            forall|j: int| 0 <= j < i ==> val_eq(#[trigger] lx[j], ly[j]),
        decreases x.len() - i,
    {
        if !values_equal(&x[i], &y[i]) {
            assert(!val_eq(lx[i as int], ly[i as int]));
            return false;
        }
        i = i + 1;
    }
    true
}

/// Whether some entry of `y` has key `k` and a value equal to `v`.
fn entry_in(y: &Vec<(String, Value)>, k: &String, v: &Value) -> (r: bool)
    ensures
        r == dict_has(entries_model(y@, y.len() as nat), k@, model(*v), y.len() as nat),
    decreases v, 2nat,
{
    proof { lemma_entries_model(y@, y.len() as nat); }
    let ghost my = entries_model(y@, y.len() as nat);
    proof { lemma_dict_has(my, k@, model(*v), y.len() as nat); }
    let mut j: usize = 0;
    while j < y.len()
        invariant
            j <= y.len(),
            my == entries_model(y@, y.len() as nat),
            my =~= Seq::new(y.len() as nat, |i: int| (y[i].0@, model(y[i].1))),
            dict_has(my, k@, model(*v), y.len() as nat) <==> exists|i: int| 0 <= i < y.len() && (#[trigger] my[i]).0 == k@ && val_eq(model(*v), my[i].1),
            forall|i: int| 0 <= i < j ==> !((#[trigger] my[i]).0 == k@ && val_eq(model(*v), my[i].1)),
        decreases y.len() - j,
    {
        if y[j].0 == *k && values_equal(v, &y[j].1) {
            assert(my[j as int].0 == k@ && val_eq(model(*v), my[j as int].1));
            return true;
        }
        j = j + 1;
    }
    false
}

fn entries_equal(x: &Vec<(String, Value)>, y: &Vec<(String, Value)>) -> (r: bool)
    ensures
        r == (x.len() == y.len() && dict_in(entries_model(x@, x.len() as nat), entries_model(y@, y.len() as nat), x.len() as nat)),
    decreases x, 0nat,
{
    proof {
        lemma_entries_model(x@, x.len() as nat);
        lemma_entries_model(y@, y.len() as nat);
    }
    let ghost mx = entries_model(x@, x.len() as nat);
    let ghost my = entries_model(y@, y.len() as nat);
    if x.len() != y.len() {
        return false;
    }
    proof { lemma_dict_in(mx, my, x.len() as nat); }
    let mut i: usize = 0;
    while i < x.len()
        invariant
            i <= x.len(),
            x.len() == y.len(),
            mx == entries_model(x@, x.len() as nat),
            mx =~= Seq::new(x.len() as nat, |j: int| (x[j].0@, model(x[j].1))),
            my == entries_model(y@, y.len() as nat),
            my.len() == y.len(),
            dict_in(mx, my, x.len() as nat) <==> forall|j: int| 0 <= j < x.len() ==> dict_has(my, (#[trigger] mx[j]).0, mx[j].1, my.len()),
            forall|j: int| 0 <= j < i ==> dict_has(my, (#[trigger] mx[j]).0, mx[j].1, my.len()),
        decreases x.len() - i,
    {
        if !entry_in(y, &x[i].0, &x[i].1) {
            assert(!dict_has(my, mx[i as int].0, mx[i as int].1, my.len()));
            return false;
        }
        i = i + 1;
    }
    true
}

impl PartialEq for Value {
    fn eq(&self, other: &Value) -> (r: bool) {
        values_equal(self, other)
    }
}

impl vstd::std_specs::cmp::PartialEqSpecImpl for Value {
    open spec fn obeys_eq_spec() -> bool {
        true
    }

    open spec fn eq_spec(&self, other: &Value) -> bool {
        val_eq(model(*self), model(*other))
    }
}

/// Whether `t` occurs in `s` as consecutive characters.
pub fn has_substring(s: &str, t: &str) -> (r: bool)
    ensures
        r == has_sub(s@, t@),
{
    let n = s.unicode_len();
    let m = t.unicode_len();
    if m == 0 {
        assert(s@.subrange(0, 0 + t@.len() as int) =~= t@);
        assert(has_sub(s@, t@));
        return true;
    }
    if m > n {
        return false;
    }
    let mut i: usize = 0;
    while i <= n - m
        invariant
            n == s@.len(),
            m == t@.len(),
            1 <= m <= n,
            i <= n - m + 1,
            forall|k: int| 0 <= k < i ==> #[trigger] s@.subrange(k, k + m) != t@,
        decreases n - m + 1 - i,
    {
        let mut j: usize = 0;
        let mut same = true;
        while j < m
            invariant
                n == s@.len(),
                m == t@.len(),
                i + m <= n,
                j <= m,
                same ==> forall|k: int| 0 <= k < j ==> s@[i + k] == t@[k],
                !same ==> s@.subrange(i as int, i + m) != t@,
            decreases m - j,
        {
            if same && s.get_char(i + j) != t.get_char(j) {
                same = false;
                assert(s@.subrange(i as int, i + m)[j as int] != t@[j as int]);
            }
            j = j + 1;
        }
        if same {
            assert(s@.subrange(i as int, i + t@.len()) =~= t@);
            assert(has_sub(s@, t@));
            return true;
        }
        i = i + 1;
    }
    assert forall|k: int| 0 <= k && k + t@.len() <= s@.len() implies #[trigger] s@.subrange(k, k + t@.len()) != t@ by {
        assert(k < i);
    };
    false
}

/// Membership of `item` in `l` under the language's equality.
pub fn list_contains(l: &Vec<Value>, item: &Value) -> (r: bool)
    ensures
        r == list_has(list_model(l@, l.len() as nat), model(*item)),
{
    proof { lemma_list_model(l@, l.len() as nat); }
    let ghost lm = list_model(l@, l.len() as nat);
    let mut i: usize = 0;
    while i < l.len()
        invariant
            i <= l.len(),
            lm == list_model(l@, l.len() as nat),
            lm =~= Seq::new(l.len() as nat, |j: int| model(l[j])),
            forall|j: int| 0 <= j < i ==> !val_eq(model(*item), #[trigger] lm[j]),
        decreases l.len() - i,
    {
        if values_equal(item, &l[i]) {
            assert(val_eq(model(*item), lm[i as int]));
            return true;
        }
        i = i + 1;
    }
    false
}

pub fn in_operation(item: &Value, container: &Value) -> (r: Result<Value, String>)
    ensures
        result_model(r) == in_spec(model(*item), model(*container)),
{
    match container {
        Value::List(l) => Ok(Value::Bool(list_contains(l, item))),
        Value::String(s) => match item {
            Value::String(t) => Ok(Value::Bool(has_substring(s.as_str(), t.as_str()))),
            _ => error(MSG_IN_LEFT),
        },
        _ => error(MSG_IN_RIGHT),
    }
}

/// Applies `op` to two evaluated operands.
pub fn binary_values(op: BinaryOperator, a: Value, b: Value) -> (r: Result<Value, String>)
    ensures
        result_model(r) == binary_spec(op, model(a), model(b)),
{
    match op {
        BinaryOperator::Add => match (&a, &b) {
            (Value::Number(x), Value::Number(y)) => from_checked(x.checked_add(*y)),
            (Value::String(x), Value::String(y)) => Ok(Value::String(concat(x.as_str(), y.as_str()))),
            _ => error(MSG_ADD),
        },
        BinaryOperator::Sub => match (&a, &b) {
            (Value::Number(x), Value::Number(y)) => from_checked(x.checked_sub(*y)),
            _ => error(MSG_SUB),
        },
        BinaryOperator::Mul => match (&a, &b) {
            (Value::Number(x), Value::Number(y)) => from_checked(x.checked_mul(*y)),
            _ => error(MSG_MUL),
        },
        BinaryOperator::Div => match (&a, &b) {
            (Value::Number(x), Value::Number(y)) => if *y == 0 {
                error(MSG_DIV_ZERO)
            } else {
                from_checked(x.checked_div(*y))
            },
            _ => error(MSG_DIV),
        },
        BinaryOperator::Eq => Ok(Value::Bool(values_equal(&a, &b))),
        BinaryOperator::Neq => Ok(Value::Bool(!values_equal(&a, &b))),
        BinaryOperator::Lt | BinaryOperator::Le | BinaryOperator::Gt | BinaryOperator::Ge => {
            match (&a, &b) {
                (Value::Number(x), Value::Number(y)) => {
                    let r = match op {
                        BinaryOperator::Lt => *x < *y,
                        BinaryOperator::Le => *x <= *y,
                        BinaryOperator::Gt => *x > *y,
                        _ => *x >= *y,
                    };
                    Ok(Value::Bool(r))
                },
                _ => error(MSG_COMPARE),
            }
        },
        BinaryOperator::And => if is_truthy(&a) { Ok(b) } else { Ok(a) },
        BinaryOperator::Or => if is_truthy(&a) { Ok(a) } else { Ok(b) },
        BinaryOperator::In => in_operation(&a, &b),
    }
}

pub fn negate(a: Value) -> (r: Result<Value, String>)
    ensures
        result_model(r) == neg_spec(model(a)),
{
    match a {
        Value::Number(x) => from_checked(0i64.checked_sub(x)),
        _ => error(MSG_NEGATE),
    }
}

fn extreme_of(args: &Vec<Value>, want_max: bool) -> (r: Result<Value, String>)
    requires
        args.len() > 0,
    ensures
        all_numbers(list_model(args@, args.len() as nat)) ==> result_model(r) == Ok::<Val, Seq<char>>(
            Val::Number(extreme(list_model(args@, args.len() as nat), args.len() as nat, want_max)),
        ),
        !all_numbers(list_model(args@, args.len() as nat)) ==> r is Err,
{
    proof { lemma_list_model(args@, args.len() as nat); }
    let ghost s = list_model(args@, args.len() as nat);
    let mut best: i64 = match &args[0] {
        Value::Number(n) => *n,
        _ => {
            assert(!(s[0] is Number));
            return Err(String::new());
        },
    };
    let mut i: usize = 1;
    while i < args.len()
        invariant
            1 <= i <= args.len(),
            s == list_model(args@, args.len() as nat),
            s =~= Seq::new(args.len() as nat, |j: int| model(args[j])),
            forall|j: int| 0 <= j < i ==> (#[trigger] s[j]) is Number,
            best == extreme(s, i as nat, want_max),
        decreases args.len() - i,
    {
        match &args[i] {
            Value::Number(n) => {
                if (want_max && *n > best) || (!want_max && *n < best) {
                    best = *n;
                }
            },
            _ => {
                assert(!(s[i as int] is Number));
                return Err(String::new());
            },
        }
        i = i + 1;
    }
    Ok(Value::Number(best))
}

/// Calls the built-in function `b` on evaluated arguments.
pub fn call_builtin(b: Builtin, args: &Vec<Value>) -> (r: Result<Value, String>)
    ensures
        result_model(r) == builtin_spec(b, list_model(args@, args.len() as nat)),
{
    proof { lemma_list_model(args@, args.len() as nat); }
    match b {
        Builtin::Len => {
            if args.len() != 1 {
                return error(MSG_LEN_ARITY);
            }
            match &args[0] {
                Value::List(l) => {
                    proof { lemma_list_model(l@, l.len() as nat); }
                    Ok(Value::Number(l.len() as i64))
                },
                Value::String(s) => Ok(Value::Number(s.as_str().unicode_len() as i64)),
                _ => error(MSG_LEN_TYPE),
            }
        },
        Builtin::Max | Builtin::Min => {
            let want_max = match b {
                Builtin::Max => true,
                _ => false,
            };
            if args.len() == 0 {
                return if want_max { error(MSG_MAX_ARITY) } else { error(MSG_MIN_ARITY) };
            }
            match extreme_of(args, want_max) {
                Ok(v) => Ok(v),
                Err(_) => if want_max { error(MSG_MAX_TYPE) } else { error(MSG_MIN_TYPE) },
            }
        },
        Builtin::Contains => {
            if args.len() != 2 {
                return error(MSG_CONTAINS_ARITY);
            }
            match (&args[0], &args[1]) {
                (Value::List(l), v) => Ok(Value::Bool(list_contains(l, v))),
                (Value::String(s), Value::String(t)) => Ok(Value::Bool(has_substring(s.as_str(), t.as_str()))),
                _ => error(MSG_CONTAINS_TYPE),
            }
        },
    }
}

} // verus!
